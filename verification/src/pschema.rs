//! The BSP validation engine.
//!
//! `PSchema::validate` checks the input edge table, schedules the shape
//! tree into levels, and runs one superstep per level.  In a superstep the
//! leaf-style shapes of the current level send one message per matching
//! edge row to the edge's subject; the messages received by a vertex are
//! collected in order; the composite shapes of the next level are
//! evaluated over those messages; and everything a vertex gained is
//! appended to its `labels` list, which only ever grows.  At the end the
//! edges whose subject carries at least one label are materialised
//! together with the subject's labels.

use vstd::prelude::*;

use crate::shape::shape_tree::{spec_levels, ShapeTree};
use crate::shape::shex::{Bound, Shape, ShapeList};
use crate::table::{Column, Edge, EdgeTable, ResultRow, ResultTable, ValidationError};
use crate::utils::check::{check_field, field_error};

verus! {

// ------------------------------------------------------------------
// Vertex lookup
// ------------------------------------------------------------------
/// Whether `v` occurs in the vertex id column.
pub open spec fn has_id(ids: Seq<u32>, v: u32) -> bool {
    exists|i: int| 0 <= i < ids.len() && ids[i] == v
}

/// The index of `v` in the vertex id column; meaningful when the ids are
/// distinct and `has_id(ids, v)` holds.
pub open spec fn id_index(ids: Seq<u32>, v: u32) -> int {
    choose|i: int| 0 <= i < ids.len() && ids[i] == v
}

/// With distinct ids, any index holding `v` is the index of `v`.
proof fn lemma_id_index_unique(ids: Seq<u32>, v: u32, j: int)
    requires
        ids.no_duplicates(),
        0 <= j < ids.len(),
        ids[j] == v,
    ensures
        id_index(ids, v) == j,
{
    assert(has_id(ids, v));
    let i = id_index(ids, v);
    assert(0 <= i < ids.len() && ids[i] == v);
}

/// Returns the index of the first occurrence of `v` in `ids`.
fn find_index(ids: &Vec<u32>, v: u32) -> (r: Option<usize>)
    ensures
        r matches Some(j) ==> j < ids@.len() && ids@[j as int] == v,
        r is None ==> !has_id(ids@, v),
{
    let mut i: usize = 0;
    while i < ids.len()
        invariant
            i <= ids@.len(),
            forall|k: int| 0 <= k < i ==> ids@[k] != v,
        decreases ids@.len() - i,
    {
        if ids[i] == v {
            return Some(i);
        }
        i = i + 1;
    }
    None
}

/// Returns whether `x` occurs in `v`.
fn contains_u8(v: &Vec<u8>, x: u8) -> (r: bool)
    ensures
        r == v@.contains(x),
{
    let mut i: usize = 0;
    while i < v.len()
        invariant
            i <= v@.len(),
            forall|k: int| 0 <= k < i ==> v@[k] != x,
        decreases v@.len() - i,
    {
        if v[i] == x {
            return true;
        }
        i = i + 1;
    }
    false
}

// ------------------------------------------------------------------
// Send phase
// ------------------------------------------------------------------
/// Whether the shape sends messages over edge rows.
pub open spec fn is_send_shape(s: Shape) -> bool {
    match s {
        Shape::TripleConstraint(_) => true,
        Shape::ShapeReference(_) => true,
        Shape::ShapeLiteral(_) => true,
        _ => false,
    }
}

/// Whether the shape is evaluated per vertex over received messages.
pub open spec fn is_vprog_shape(s: Shape) -> bool {
    match s {
        Shape::ShapeAnd(_) => true,
        Shape::ShapeOr(_) => true,
        Shape::Cardinality(_) => true,
        _ => false,
    }
}

/// Whether a send shape matches the edge row `e`, given the vertex ids and
/// the labels each vertex carried at the start of the superstep.
pub open spec fn send_cond(s: Shape, e: Edge, ids: Seq<u32>, labs: Seq<Seq<u8>>) -> bool {
    match s {
        Shape::TripleConstraint(t) => e.predicate == t.predicate && e.object == t.object,
        Shape::ShapeLiteral(l) => e.predicate == l.predicate && e.dtype == Some(l.dtype.code()),
        Shape::ShapeReference(r) => e.predicate == r.predicate && has_id(ids, e.object) && labs[
            id_index(ids, e.object)
        ].contains(r.reference.label()),
        _ => false,
    }
}

/// The message that the level sends over edge row `e`: the label of the
/// last matching send shape of the level, threaded through the fold of the
/// level's column expressions.
pub open spec fn msg_of_edge(level: Seq<Shape>, e: Edge, ids: Seq<u32>, labs: Seq<Seq<u8>>) -> Option<
    u8,
>
    decreases level.len(),
{
    if level.len() == 0 {
        None
    } else if is_send_shape(level.last()) && send_cond(level.last(), e, ids, labs) {
        Some(level.last().label())
    } else {
        msg_of_edge(level.drop_last(), e, ids, labs)
    }
}

/// The messages delivered to vertex `v`: one per matching outgoing edge,
/// in edge order, duplicates preserved.
pub open spec fn msgs_to(
    level: Seq<Shape>,
    edges: Seq<Edge>,
    ids: Seq<u32>,
    labs: Seq<Seq<u8>>,
    v: u32,
) -> Seq<u8>
    decreases edges.len(),
{
    if edges.len() == 0 {
        Seq::empty()
    } else {
        let rest = msgs_to(level, edges.drop_last(), ids, labs, v);
        if edges.last().subject == v {
            match msg_of_edge(level, edges.last(), ids, labs) {
                Some(m) => rest.push(m),
                None => rest,
            }
        } else {
            rest
        }
    }
}

// ------------------------------------------------------------------
// Vertex-update phase
// ------------------------------------------------------------------
/// The number of occurrences of `x` in `m`.
pub open spec fn count_in(m: Seq<u8>, x: u8) -> nat
    decreases m.len(),
{
    if m.len() == 0 {
        0
    } else {
        count_in(m.drop_last(), x) + if m.last() == x {
            1nat
        } else {
            0nat
        }
    }
}

/// Whether the count satisfies the lower endpoint.
pub open spec fn min_ok(b: Bound, c: nat) -> bool {
    match b {
        Bound::Inclusive(n) => c >= n,
        Bound::Exclusive(n) => c > n,
    }
}

/// Whether the count satisfies the upper endpoint.
pub open spec fn max_ok(b: Bound, c: nat) -> bool {
    match b {
        Bound::Inclusive(n) => c <= n,
        Bound::Exclusive(n) => c < n,
    }
}

/// Whether a composite shape fires on a vertex given the message list `m`
/// of the superstep in which the shape is scheduled.
pub open spec fn vprog_cond(s: Shape, m: Seq<u8>) -> bool {
    match s {
        Shape::ShapeAnd(a) => forall|i: int|
            0 <= i < a.shapes.as_seq().len() ==> m.contains(#[trigger] a.shapes.as_seq()[i].label()),
        Shape::ShapeOr(o) => exists|i: int|
            0 <= i < o.shapes.as_seq().len() && m.contains(#[trigger] o.shapes.as_seq()[i].label()),
        Shape::Cardinality(c) => min_ok(c.min, count_in(m, c.shape.label())) && max_ok(
            c.max,
            count_in(m, c.shape.label()),
        ),
        _ => false,
    }
}

/// The labels that the composite shapes of `level` assign to a vertex with
/// message list `m`, in level order.
pub open spec fn fired_labels(level: Seq<Shape>, m: Seq<u8>) -> Seq<u8>
    decreases level.len(),
{
    if level.len() == 0 {
        Seq::empty()
    } else {
        let rest = fired_labels(level.drop_last(), m);
        if is_vprog_shape(level.last()) && vprog_cond(level.last(), m) {
            rest.push(level.last().label())
        } else {
            rest
        }
    }
}

/// Returns the number of occurrences of `x` in `m`.
fn count_u8(m: &Vec<u8>, x: u8) -> (r: usize)
    ensures
        r == count_in(m@, x),
{
    let mut c: usize = 0;
    let mut i: usize = 0;
    while i < m.len()
        invariant
            i <= m@.len(),
            c == count_in(m@.subrange(0, i as int), x),
            c <= i,
        decreases m@.len() - i,
    {
        proof {
            assert(m@.subrange(0, i + 1 as int).drop_last() =~= m@.subrange(0, i as int));
            assert(m@.subrange(0, i + 1 as int).last() == m@[i as int]);
        }
        if m[i] == x {
            c = c + 1;
        }
        i = i + 1;
    }
    proof {
        assert(m@.subrange(0, m@.len() as int) =~= m@);
    }
    c
}

/// Returns whether the labels of all shapes of `list` occur in `m`.
fn all_labels_in(list: &ShapeList, m: &Vec<u8>) -> (r: bool)
    ensures
        r == forall|i: int|
            0 <= i < list.as_seq().len() ==> m@.contains(#[trigger] list.as_seq()[i].label()),
    decreases *list,
{
    match list {
        ShapeList::Nil => true,
        ShapeList::Cons(head, tail) => {
            let ghost cs = list.as_seq();
            let here = contains_u8(m, head.get_label());
            if !here {
                proof {
                    assert(cs[0] == **head);
                }
                false
            } else {
                let rest = all_labels_in(tail, m);
                proof {
                    let ts = tail.as_seq();
                    assert(forall|i: int| 0 <= i < ts.len() ==> cs[i + 1] == ts[i]);
                    if rest {
                        assert forall|i: int| 0 <= i < cs.len() implies m@.contains(
                            #[trigger] cs[i].label(),
                        ) by {
                            if i == 0 {
                                assert(cs[0] == **head);
                            } else {
                                assert(cs[i] == ts[i - 1]);
                            }
                        }
                    } else {
                        let w = choose|i: int|
                            0 <= i < ts.len() && !m@.contains(#[trigger] ts[i].label());
                        assert(cs[w + 1] == ts[w]);
                    }
                }
                rest
            }
        },
    }
}

/// Returns whether the label of at least one shape of `list` occurs in
/// `m`.
fn any_label_in(list: &ShapeList, m: &Vec<u8>) -> (r: bool)
    ensures
        r == exists|i: int|
            0 <= i < list.as_seq().len() && m@.contains(#[trigger] list.as_seq()[i].label()),
    decreases *list,
{
    match list {
        ShapeList::Nil => false,
        ShapeList::Cons(head, tail) => {
            let ghost cs = list.as_seq();
            let here = contains_u8(m, head.get_label());
            if here {
                proof {
                    assert(cs[0] == **head);
                    assert(m@.contains(cs[0].label()));
                }
                true
            } else {
                let rest = any_label_in(tail, m);
                proof {
                    let ts = tail.as_seq();
                    assert(forall|i: int| 0 <= i < ts.len() ==> cs[i + 1] == ts[i]);
                    if rest {
                        let w = choose|i: int|
                            0 <= i < ts.len() && m@.contains(#[trigger] ts[i].label());
                        assert(cs[w + 1] == ts[w]);
                        assert(m@.contains(cs[w + 1].label()));
                    } else {
                        if exists|i: int|
                            0 <= i < cs.len() && m@.contains(#[trigger] cs[i].label()) {
                            let w = choose|i: int|
                                0 <= i < cs.len() && m@.contains(#[trigger] cs[i].label());
                            if w == 0 {
                                assert(cs[0] == **head);
                            } else {
                                assert(cs[w] == ts[w - 1]);
                            }
                        }
                    }
                }
                rest
            }
        },
    }
}

/// Returns whether the composite shape `s` fires on message list `m`.
fn vprog_fires(s: &Shape, m: &Vec<u8>) -> (r: bool)
    ensures
        r == vprog_cond(*s, m@),
{
    match s {
        Shape::ShapeAnd(a) => all_labels_in(&a.shapes, m),
        Shape::ShapeOr(o) => any_label_in(&o.shapes, m),
        Shape::Cardinality(c) => {
            let target = c.shape.get_label();
            let count = count_u8(m, target);
            let lower = match c.min {
                Bound::Inclusive(n) => count >= n as usize,
                Bound::Exclusive(n) => count > n as usize,
            };
            let upper = match c.max {
                Bound::Inclusive(n) => count <= n as usize,
                Bound::Exclusive(n) => count < n as usize,
            };
            lower && upper
        },
        _ => false,
    }
}

/// Returns the labels that the composite shapes of `level` assign on
/// message list `m`.
fn eval_vprog(level: &Vec<Shape>, m: &Vec<u8>) -> (r: Vec<u8>)
    ensures
        r@ == fired_labels(level@, m@),
{
    let mut r: Vec<u8> = Vec::new();
    let mut i: usize = 0;
    proof {
        assert(level@.subrange(0, 0) =~= Seq::<Shape>::empty());
    }
    while i < level.len()
        invariant
            i <= level@.len(),
            r@ == fired_labels(level@.subrange(0, i as int), m@),
        decreases level@.len() - i,
    {
        proof {
            assert(level@.subrange(0, i + 1 as int).drop_last() =~= level@.subrange(0, i as int));
            assert(level@.subrange(0, i + 1 as int).last() == level@[i as int]);
        }
        let s = &level[i];
        let fires = match s {
            Shape::ShapeAnd(_) => vprog_fires(s, m),
            Shape::ShapeOr(_) => vprog_fires(s, m),
            Shape::Cardinality(_) => vprog_fires(s, m),
            _ => false,
        };
        if fires {
            r.push(s.get_label());
        }
        i = i + 1;
    }
    proof {
        assert(level@.subrange(0, level@.len() as int) =~= level@);
    }
    r
}

/// Returns the message that `level` sends over edge row `e`, reading the
/// vertex labels as they stood at the start of the superstep.
fn msg_for_edge(level: &Vec<Shape>, e: &Edge, ids: &Vec<u32>, labels: &Vec<Vec<u8>>) -> (r: Option<
    u8,
>)
    requires
        ids@.no_duplicates(),
        labels@.len() == ids@.len(),
    ensures
        r == msg_of_edge(level@, *e, ids@, labels@.map_values(|l: Vec<u8>| l@)),
{
    let ghost labs = labels@.map_values(|l: Vec<u8>| l@);
    let mut r: Option<u8> = None;
    let mut i: usize = 0;
    proof {
        assert(level@.subrange(0, 0) =~= Seq::<Shape>::empty());
    }
    while i < level.len()
        invariant
            i <= level@.len(),
            ids@.no_duplicates(),
            labels@.len() == ids@.len(),
            labs == labels@.map_values(|l: Vec<u8>| l@),
            r == msg_of_edge(level@.subrange(0, i as int), *e, ids@, labs),
        decreases level@.len() - i,
    {
        proof {
            assert(level@.subrange(0, i + 1 as int).drop_last() =~= level@.subrange(0, i as int));
            assert(level@.subrange(0, i + 1 as int).last() == level@[i as int]);
        }
        let s = &level[i];
        let matched: bool = match s {
            Shape::TripleConstraint(t) => e.predicate == t.predicate && e.object == t.object,
            Shape::ShapeLiteral(l) => {
                match e.dtype {
                    Some(d) => e.predicate == l.predicate && d == l.dtype.as_code(),
                    None => false,
                }
            },
            Shape::ShapeReference(refshape) => {
                if e.predicate == refshape.predicate {
                    match find_index(ids, e.object) {
                        Some(j) => {
                            proof {
                                lemma_id_index_unique(ids@, e.object, j as int);
                            }
                            contains_u8(&labels[j], refshape.reference.get_label())
                        },
                        None => false,
                    }
                } else {
                    false
                }
            },
            _ => false,
        };
        proof {
            assert(matched == (is_send_shape(level@[i as int]) && send_cond(
                level@[i as int],
                *e,
                ids@,
                labs,
            )));
        }
        if matched {
            r = Some(s.get_label());
        }
        i = i + 1;
    }
    proof {
        assert(level@.subrange(0, level@.len() as int) =~= level@);
    }
    r
}

// ------------------------------------------------------------------
// Superstep state
// ------------------------------------------------------------------
/// The per-vertex state of the engine: the labels gathered so far, and
/// the labels that the vertex-update phase of the previous superstep
/// assigned (they count as messages of the current superstep, so that a
/// composite shape sees the labels of its composite children).
pub struct BspState {
    pub labels: Seq<Seq<u8>>,
    pub recent: Seq<Seq<u8>>,
}

/// The state before the first superstep: no labels anywhere.
pub open spec fn init_state(n: nat) -> BspState {
    BspState { labels: Seq::new(n, |j: int| Seq::empty()), recent: Seq::new(n, |j: int| Seq::empty()) }
}

/// The level of the schedule at position `i`; past the last level every
/// superstep works on an empty level.
pub open spec fn level_at(levels: Seq<Seq<Shape>>, i: int) -> Seq<Shape> {
    if 0 <= i < levels.len() {
        levels[i]
    } else {
        Seq::empty()
    }
}

/// One superstep: the send shapes of `send` deliver messages over the
/// edges; each vertex appends its messages to its labels; the composite
/// shapes of `vprog` are evaluated over the vertex's recent labels and
/// messages, and append what they assign.
pub open spec fn step_state(
    send: Seq<Shape>,
    vprog: Seq<Shape>,
    edges: Seq<Edge>,
    ids: Seq<u32>,
    st: BspState,
) -> BspState {
    BspState {
        labels: Seq::new(
            ids.len(),
            |j: int|
                {
                    let msgs = msgs_to(send, edges, ids, st.labels, ids[j]);
                    st.labels[j] + msgs + fired_labels(vprog, st.recent[j] + msgs)
                },
        ),
        recent: Seq::new(
            ids.len(),
            |j: int|
                {
                    let msgs = msgs_to(send, edges, ids, st.labels, ids[j]);
                    fired_labels(vprog, st.recent[j] + msgs)
                },
        ),
    }
}

/// The state after `n` supersteps.  Superstep `i` sends over level `i`
/// and updates vertices over level `i + 1`: the leaf level has no
/// vertex-update work of its own.
pub open spec fn run_state(levels: Seq<Seq<Shape>>, edges: Seq<Edge>, ids: Seq<u32>, n: nat) -> BspState
    decreases n,
{
    if n == 0 {
        init_state(ids.len())
    } else {
        step_state(
            level_at(levels, n - 1),
            level_at(levels, n as int),
            edges,
            ids,
            run_state(levels, edges, ids, (n - 1) as nat),
        )
    }
}

/// The labels of every vertex after the whole schedule has run.
pub open spec fn final_labels(levels: Seq<Seq<Shape>>, edges: Seq<Edge>, ids: Seq<u32>) -> Seq<
    Seq<u8>,
> {
    run_state(levels, edges, ids, levels.len()).labels
}

/// The state always holds one labels row and one recent row per vertex.
pub proof fn lemma_run_state_len(levels: Seq<Seq<Shape>>, edges: Seq<Edge>, ids: Seq<u32>, n: nat)
    ensures
        run_state(levels, edges, ids, n).labels.len() == ids.len(),
        run_state(levels, edges, ids, n).recent.len() == ids.len(),
    decreases n,
{
    if n > 0 {
        lemma_run_state_len(levels, edges, ids, (n - 1) as nat);
    }
}

// ------------------------------------------------------------------
// Exec phases
// ------------------------------------------------------------------
/// The views of the rows of a vector of label lists.
pub open spec fn rows_view(v: Seq<Vec<u8>>) -> Seq<Seq<u8>> {
    v.map_values(|l: Vec<u8>| l@)
}

/// Appends every element of `src` to `out`.
fn append_u8(out: &mut Vec<u8>, src: &Vec<u8>)
    ensures
        final(out)@ == old(out)@ + src@,
{
    let mut i: usize = 0;
    proof {
        assert(out@ =~= old(out)@ + src@.subrange(0, 0));
    }
    while i < src.len()
        invariant
            i <= src@.len(),
            out@ == old(out)@ + src@.subrange(0, i as int),
        decreases src@.len() - i,
    {
        out.push(src[i]);
        proof {
            assert(out@ =~= old(out)@ + src@.subrange(0, i + 1 as int));
        }
        i = i + 1;
    }
    proof {
        assert(src@.subrange(0, src@.len() as int) =~= src@);
    }
}

/// Returns a copy of a label list.
fn clone_u8(v: &Vec<u8>) -> (r: Vec<u8>)
    ensures
        r@ == v@,
{
    let mut r: Vec<u8> = Vec::new();
    append_u8(&mut r, v);
    proof {
        assert(Seq::<u8>::empty() + v@ =~= v@);
    }
    r
}

/// Returns one empty label list per vertex.
fn make_empty_rows(n: usize) -> (r: Vec<Vec<u8>>)
    ensures
        r@.len() == n,
        forall|j: int| 0 <= j < n ==> #[trigger] r@[j]@ == Seq::<u8>::empty(),
{
    let mut r: Vec<Vec<u8>> = Vec::new();
    let mut i: usize = 0;
    while i < n
        invariant
            i <= n,
            r@.len() == i,
            forall|j: int| 0 <= j < i ==> #[trigger] r@[j]@ == Seq::<u8>::empty(),
        decreases n - i,
    {
        r.push(Vec::new());
        i = i + 1;
    }
    r
}

/// The send and aggregate phases of one superstep: computes, for every
/// vertex, the list of messages it receives from `level` over `edges`,
/// in edge order, duplicates preserved.
fn collect_msgs(level: &Vec<Shape>, edges: &Vec<Edge>, ids: &Vec<u32>, labels: &Vec<Vec<u8>>) -> (
    buf: Vec<Vec<u8>>)
    requires
        ids@.no_duplicates(),
        labels@.len() == ids@.len(),
        forall|k: int| 0 <= k < edges@.len() ==> has_id(ids@, #[trigger] edges@[k].subject),
    ensures
        buf@.len() == ids@.len(),
        forall|j: int|
            0 <= j < ids@.len() ==> #[trigger] buf@[j]@ == msgs_to(
                level@,
                edges@,
                ids@,
                rows_view(labels@),
                ids@[j],
            ),
{
    let ghost labs = rows_view(labels@);
    let mut buf = make_empty_rows(ids.len());
    let mut k: usize = 0;
    proof {
        assert(forall|j: int|
            0 <= j < ids@.len() ==> msgs_to(
                level@,
                edges@.subrange(0, 0),
                ids@,
                labs,
                ids@[j],
            ) =~= Seq::<u8>::empty());
    }
    while k < edges.len()
        invariant
            k <= edges@.len(),
            ids@.no_duplicates(),
            labels@.len() == ids@.len(),
            labs == rows_view(labels@),
            forall|k2: int| 0 <= k2 < edges@.len() ==> has_id(ids@, #[trigger] edges@[k2].subject),
            buf@.len() == ids@.len(),
            forall|j: int|
                0 <= j < ids@.len() ==> #[trigger] buf@[j]@ == msgs_to(
                    level@,
                    edges@.subrange(0, k as int),
                    ids@,
                    labs,
                    ids@[j],
                ),
        decreases edges@.len() - k,
    {
        let ghost prefix = edges@.subrange(0, k as int);
        let ghost prefix1 = edges@.subrange(0, k + 1 as int);
        proof {
            assert(prefix1.drop_last() =~= prefix);
            assert(prefix1.last() == edges@[k as int]);
        }
        let e = edges[k];
        let m = msg_for_edge(level, &e, ids, labels);
        match m {
            Some(mm) => {
                match find_index(ids, e.subject) {
                    Some(idx) => {
                        proof {
                            lemma_id_index_unique(ids@, e.subject, idx as int);
                        }
                        let ghost pre_buf = buf@;
                        let row = &mut buf[idx];
                        row.push(mm);
                        proof {
                            assert(buf@ =~= pre_buf.update(
                                idx as int,
                                buf@[idx as int],
                            ));
                            assert(buf@[idx as int]@ =~= pre_buf[idx as int]@.push(mm));
                            assert forall|j: int| 0 <= j < ids@.len() implies #[trigger] buf@[j]@
                                == msgs_to(level@, prefix1, ids@, labs, ids@[j]) by {
                                if j == idx {
                                } else {
                                    assert(ids@[j] != e.subject);
                                }
                            }
                        }
                    },
                    None => {
                        proof {
                            assert(false);
                        }
                    },
                }
            },
            None => {
                proof {
                    assert forall|j: int| 0 <= j < ids@.len() implies #[trigger] buf@[j]@
                        == msgs_to(level@, prefix1, ids@, labs, ids@[j]) by {}
                }
            },
        }
        k = k + 1;
    }
    proof {
        assert(edges@.subrange(0, edges@.len() as int) =~= edges@);
    }
    buf
}

/// The vertex-update phase of one superstep: every vertex appends its
/// messages, evaluates the composite shapes of `vlevel` over its recent
/// labels and messages, and appends what they assign.
fn update_vertices(
    vlevel: &Vec<Shape>,
    msgsbuf: &Vec<Vec<u8>>,
    labels: &mut Vec<Vec<u8>>,
    recent: &mut Vec<Vec<u8>>,
)
    requires
        old(labels)@.len() == msgsbuf@.len(),
        old(recent)@.len() == msgsbuf@.len(),
    ensures
        final(labels)@.len() == msgsbuf@.len(),
        final(recent)@.len() == msgsbuf@.len(),
        forall|j: int|
            0 <= j < msgsbuf@.len() ==> #[trigger] final(labels)@[j]@ == old(labels)@[j]@
                + msgsbuf@[j]@ + fired_labels(vlevel@, old(recent)@[j]@ + msgsbuf@[j]@),
        forall|j: int|
            0 <= j < msgsbuf@.len() ==> #[trigger] final(recent)@[j]@ == fired_labels(
                vlevel@,
                old(recent)@[j]@ + msgsbuf@[j]@,
            ),
{
    let n = msgsbuf.len();
    let mut j: usize = 0;
    while j < n
        invariant
            j <= n,
            n == msgsbuf@.len(),
            labels@.len() == n,
            recent@.len() == n,
            forall|j2: int| j <= j2 < n ==> #[trigger] labels@[j2] == old(labels)@[j2],
            forall|j2: int| j <= j2 < n ==> #[trigger] recent@[j2] == old(recent)@[j2],
            forall|j2: int|
                0 <= j2 < j ==> #[trigger] labels@[j2]@ == old(labels)@[j2]@ + msgsbuf@[j2]@
                    + fired_labels(vlevel@, old(recent)@[j2]@ + msgsbuf@[j2]@),
            forall|j2: int|
                0 <= j2 < j ==> #[trigger] recent@[j2]@ == fired_labels(
                    vlevel@,
                    old(recent)@[j2]@ + msgsbuf@[j2]@,
                ),
        decreases n - j,
    {
        let mut m: Vec<u8> = clone_u8(&recent[j]);
        append_u8(&mut m, &msgsbuf[j]);
        let fired = eval_vprog(vlevel, &m);
        let mut new_row = clone_u8(&labels[j]);
        append_u8(&mut new_row, &msgsbuf[j]);
        append_u8(&mut new_row, &fired);
        labels.set(j, new_row);
        recent.set(j, fired);
        proof {
            assert(labels@[j as int]@ =~= old(labels)@[j as int]@ + msgsbuf@[j as int]@
                + fired_labels(vlevel@, old(recent)@[j as int]@ + msgsbuf@[j as int]@));
        }
        j = j + 1;
    }
}

/// Runs one superstep per level of the schedule and returns every
/// vertex's labels.
fn run_pregel(levels: &Vec<crate::shape::shape_tree::ShapeTreeItem>, edges: &Vec<Edge>, ids: &Vec<
    u32,
>) -> (labels: Vec<Vec<u8>>)
    requires
        ids@.no_duplicates(),
        forall|k: int| 0 <= k < edges@.len() ==> has_id(ids@, #[trigger] edges@[k].subject),
    ensures
        labels@.len() == ids@.len(),
        rows_view(labels@) == final_labels(
            levels@.map_values(|l: Vec<Shape>| l@),
            edges@,
            ids@,
        ),
{
    let ghost lv = levels@.map_values(|l: Vec<Shape>| l@);
    let mut labels = make_empty_rows(ids.len());
    let mut recent = make_empty_rows(ids.len());
    let empty_level: Vec<Shape> = Vec::new();
    proof {
        assert(rows_view(labels@) =~~= init_state(ids@.len()).labels);
        assert(rows_view(recent@) =~~= init_state(ids@.len()).recent);
    }
    let mut i: usize = 0;
    while i < levels.len()
        invariant
            i <= levels@.len(),
            ids@.no_duplicates(),
            forall|k: int| 0 <= k < edges@.len() ==> has_id(ids@, #[trigger] edges@[k].subject),
            lv == levels@.map_values(|l: Vec<Shape>| l@),
            empty_level@.len() == 0,
            labels@.len() == ids@.len(),
            recent@.len() == ids@.len(),
            rows_view(labels@) == run_state(lv, edges@, ids@, i as nat).labels,
            rows_view(recent@) == run_state(lv, edges@, ids@, i as nat).recent,
        decreases levels@.len() - i,
    {
        let ghost st = run_state(lv, edges@, ids@, i as nat);
        proof {
            lemma_run_state_len(lv, edges@, ids@, i as nat);
        }
        let send_level = &levels[i];
        let msgsbuf = collect_msgs(send_level, edges, ids, &labels);
        let ghost pre_labels_view = rows_view(labels@);
        let ghost pre_recent_view = rows_view(recent@);
        if i + 1 < levels.len() {
            update_vertices(&levels[i + 1], &msgsbuf, &mut labels, &mut recent);
        } else {
            update_vertices(&empty_level, &msgsbuf, &mut labels, &mut recent);
        }
        proof {
            let ghost next = run_state(lv, edges@, ids@, (i + 1) as nat);
            let ghost vlv = level_at(lv, i + 1 as int);
            assert(level_at(lv, i as int) == send_level@);
            if i + 1 < levels@.len() {
                assert(vlv == levels@[i + 1 as int]@);
            } else {
                assert(vlv =~= empty_level@);
            }
            assert(rows_view(labels@) =~~= next.labels);
            assert(rows_view(recent@) =~~= next.recent);
        }
        i = i + 1;
    }
    labels
}

// ------------------------------------------------------------------
// Vertex synthesis
// ------------------------------------------------------------------
/// `acc` extended with every element of `xs` not yet present, in order of
/// first appearance.
pub open spec fn add_unique(acc: Seq<u32>, xs: Seq<u32>) -> Seq<u32>
    decreases xs.len(),
{
    if xs.len() == 0 {
        acc
    } else {
        let prev = add_unique(acc, xs.drop_last());
        if prev.contains(xs.last()) {
            prev
        } else {
            prev.push(xs.last())
        }
    }
}

/// The subject column of a row sequence.
pub open spec fn subjects_of(edges: Seq<Edge>) -> Seq<u32> {
    edges.map_values(|e: Edge| e.subject)
}

/// The object column of a row sequence.
pub open spec fn objects_of(edges: Seq<Edge>) -> Seq<u32> {
    edges.map_values(|e: Edge| e.object)
}

/// The vertex ids of an edge table: every distinct subject, followed by
/// every distinct object not already seen, in order of first appearance.
pub open spec fn vertex_ids_spec(edges: Seq<Edge>) -> Seq<u32> {
    add_unique(add_unique(Seq::empty(), subjects_of(edges)), objects_of(edges))
}

/// `add_unique` adds no duplicate.
proof fn lemma_add_unique_no_dup(acc: Seq<u32>, xs: Seq<u32>)
    requires
        acc.no_duplicates(),
    ensures
        add_unique(acc, xs).no_duplicates(),
    decreases xs.len(),
{
    if xs.len() > 0 {
        lemma_add_unique_no_dup(acc, xs.drop_last());
        let prev = add_unique(acc, xs.drop_last());
        let x = xs.last();
        if !prev.contains(x) {
            let r = prev.push(x);
            assert forall|i: int, j: int| 0 <= i < r.len() && 0 <= j < r.len() && i != j implies r[i]
                != r[j] by {
                if i < prev.len() && j < prev.len() {
                } else if i == prev.len() {
                    assert(r[j] == prev[j]);
                    assert(!prev.contains(x));
                } else {
                    assert(r[i] == prev[i]);
                    assert(!prev.contains(x));
                }
            }
        }
    }
}

/// `add_unique` holds exactly the elements of `acc` and `xs`.
proof fn lemma_add_unique_contains(acc: Seq<u32>, xs: Seq<u32>, v: u32)
    ensures
        add_unique(acc, xs).contains(v) <==> acc.contains(v) || xs.contains(v),
    decreases xs.len(),
{
    if xs.len() == 0 {
        assert(!xs.contains(v));
    } else {
        lemma_add_unique_contains(acc, xs.drop_last(), v);
        let prev = add_unique(acc, xs.drop_last());
        let x = xs.last();
        assert(xs.contains(v) <==> xs.drop_last().contains(v) || v == x) by {
            if xs.contains(v) {
                let w = choose|i: int| 0 <= i < xs.len() && xs[i] == v;
                if w < xs.len() - 1 {
                    assert(xs.drop_last()[w] == v);
                }
            }
            if xs.drop_last().contains(v) {
                let w = choose|i: int| 0 <= i < xs.drop_last().len() && xs.drop_last()[i] == v;
                assert(xs[w] == v);
            }
            assert(xs[xs.len() - 1] == x);
        }
        if !prev.contains(x) {
            assert(prev.push(x).contains(v) <==> prev.contains(v) || v == x) by {
                if prev.contains(v) {
                    let w = choose|i: int| 0 <= i < prev.len() && prev[i] == v;
                    assert(prev.push(x)[w] == v);
                }
                assert(prev.push(x)[prev.len() as int] == x);
                if prev.push(x).contains(v) {
                    let w = choose|i: int| 0 <= i < prev.push(x).len() && prev.push(x)[i] == v;
                    if w < prev.len() {
                        assert(prev[w] == v);
                    }
                }
            }
        }
    }
}

/// Returns the distinct vertex ids of the edge rows: subjects first, in
/// order of first appearance, followed by objects not already seen.
fn vertex_ids(edges: &Vec<Edge>) -> (r: Vec<u32>)
    ensures
        r@ == vertex_ids_spec(edges@),
        r@.no_duplicates(),
        forall|k: int| 0 <= k < edges@.len() ==> has_id(r@, #[trigger] edges@[k].subject),
        forall|k: int| 0 <= k < edges@.len() ==> has_id(r@, #[trigger] edges@[k].object),
{
    let ghost subjects = subjects_of(edges@);
    let ghost objects = objects_of(edges@);
    let mut r: Vec<u32> = Vec::new();
    let mut k: usize = 0;
    proof {
        assert(r@ =~= add_unique(Seq::empty(), subjects.subrange(0, 0)));
    }
    while k < edges.len()
        invariant
            k <= edges@.len(),
            subjects == subjects_of(edges@),
            r@ == add_unique(Seq::empty(), subjects.subrange(0, k as int)),
        decreases edges@.len() - k,
    {
        proof {
            assert(subjects.subrange(0, k + 1 as int).drop_last() =~= subjects.subrange(
                0,
                k as int,
            ));
            assert(subjects.subrange(0, k + 1 as int).last() == subjects[k as int]);
            assert(subjects[k as int] == edges@[k as int].subject);
        }
        let v = edges[k].subject;
        match find_index(&r, v) {
            Some(_) => {
                proof {
                    assert(r@.contains(v));
                }
            },
            None => {
                r.push(v);
            },
        }
        k = k + 1;
    }
    proof {
        assert(subjects.subrange(0, subjects.len() as int) =~= subjects);
    }
    let ghost after_subjects = r@;
    let mut k: usize = 0;
    proof {
        assert(r@ =~= add_unique(after_subjects, objects.subrange(0, 0)));
    }
    while k < edges.len()
        invariant
            k <= edges@.len(),
            objects == objects_of(edges@),
            after_subjects == add_unique(Seq::empty(), subjects_of(edges@)),
            r@ == add_unique(after_subjects, objects.subrange(0, k as int)),
        decreases edges@.len() - k,
    {
        proof {
            assert(objects.subrange(0, k + 1 as int).drop_last() =~= objects.subrange(0, k as int));
            assert(objects.subrange(0, k + 1 as int).last() == objects[k as int]);
            assert(objects[k as int] == edges@[k as int].object);
        }
        let v = edges[k].object;
        match find_index(&r, v) {
            Some(_) => {
                proof {
                    assert(r@.contains(v));
                }
            },
            None => {
                r.push(v);
            },
        }
        k = k + 1;
    }
    proof {
        assert(objects.subrange(0, objects.len() as int) =~= objects);
        assert(r@ == vertex_ids_spec(edges@));
        assert(Seq::<u32>::empty().no_duplicates());
        lemma_add_unique_no_dup(Seq::empty(), subjects);
        lemma_add_unique_no_dup(after_subjects, objects);
        assert forall|k2: int| 0 <= k2 < edges@.len() implies has_id(
            r@,
            #[trigger] edges@[k2].subject,
        ) by {
            let v = edges@[k2].subject;
            assert(subjects[k2] == v);
            assert(subjects.contains(v));
            lemma_add_unique_contains(Seq::empty(), subjects, v);
            lemma_add_unique_contains(after_subjects, objects, v);
            assert(r@.contains(v));
            let w = choose|i: int| 0 <= i < r@.len() && r@[i] == v;
            assert(has_id(r@, v));
        }
        assert forall|k2: int| 0 <= k2 < edges@.len() implies has_id(
            r@,
            #[trigger] edges@[k2].object,
        ) by {
            let v = edges@[k2].object;
            assert(objects[k2] == v);
            assert(objects.contains(v));
            lemma_add_unique_contains(after_subjects, objects, v);
            assert(r@.contains(v));
            let w = choose|i: int| 0 <= i < r@.len() && r@[i] == v;
            assert(has_id(r@, v));
        }
    }
    r
}

// ------------------------------------------------------------------
// Result materialisation
// ------------------------------------------------------------------
/// The validated subset: one row per edge whose subject carries at least
/// one label, annotated with the subject's labels, in edge order.
pub open spec fn materialise(edges: Seq<Edge>, ids: Seq<u32>, labs: Seq<Seq<u8>>) -> Seq<ResultRow>
    decreases edges.len(),
{
    if edges.len() == 0 {
        Seq::empty()
    } else {
        let rest = materialise(edges.drop_last(), ids, labs);
        let e = edges.last();
        if has_id(ids, e.subject) && labs[id_index(ids, e.subject)].len() > 0 {
            rest.push(
                ResultRow {
                    subject: e.subject,
                    predicate: e.predicate,
                    object: e.object,
                    labels: labs[id_index(ids, e.subject)],
                },
            )
        } else {
            rest
        }
    }
}

/// Filters and projects the labelled vertex state back onto the edges.
fn build_result(edges: &Vec<Edge>, ids: &Vec<u32>, labels: &Vec<Vec<u8>>) -> (rt: ResultTable)
    requires
        ids@.no_duplicates(),
        labels@.len() == ids@.len(),
        forall|k: int| 0 <= k < edges@.len() ==> has_id(ids@, #[trigger] edges@[k].subject),
    ensures
        rt.wf(),
        rt.rows() == materialise(edges@, ids@, rows_view(labels@)),
{
    let ghost labs = rows_view(labels@);
    let mut subject: Vec<u32> = Vec::new();
    let mut predicate: Vec<u32> = Vec::new();
    let mut object: Vec<u32> = Vec::new();
    let mut out_labels: Vec<Vec<u8>> = Vec::new();
    let mut k: usize = 0;
    proof {
        assert(Seq::new(0, |i: int| ResultRow {
            subject: subject@[i],
            predicate: predicate@[i],
            object: object@[i],
            labels: out_labels@[i]@,
        }) =~= materialise(edges@.subrange(0, 0), ids@, labs));
    }
    while k < edges.len()
        invariant
            k <= edges@.len(),
            ids@.no_duplicates(),
            labels@.len() == ids@.len(),
            labs == rows_view(labels@),
            forall|k2: int| 0 <= k2 < edges@.len() ==> has_id(ids@, #[trigger] edges@[k2].subject),
            subject@.len() == predicate@.len(),
            subject@.len() == object@.len(),
            subject@.len() == out_labels@.len(),
            Seq::new(
                subject@.len(),
                |i: int|
                    ResultRow {
                        subject: subject@[i],
                        predicate: predicate@[i],
                        object: object@[i],
                        labels: out_labels@[i]@,
                    },
            ) == materialise(edges@.subrange(0, k as int), ids@, labs),
        decreases edges@.len() - k,
    {
        let ghost prefix = edges@.subrange(0, k as int);
        let ghost prefix1 = edges@.subrange(0, k + 1 as int);
        let ghost pre_rows = Seq::new(
            subject@.len(),
            |i: int|
                ResultRow {
                    subject: subject@[i],
                    predicate: predicate@[i],
                    object: object@[i],
                    labels: out_labels@[i]@,
                },
        );
        proof {
            assert(prefix1.drop_last() =~= prefix);
            assert(prefix1.last() == edges@[k as int]);
        }
        let e = edges[k];
        match find_index(ids, e.subject) {
            Some(idx) => {
                proof {
                    lemma_id_index_unique(ids@, e.subject, idx as int);
                }
                if labels[idx].len() > 0 {
                    subject.push(e.subject);
                    predicate.push(e.predicate);
                    object.push(e.object);
                    out_labels.push(clone_u8(&labels[idx]));
                }
            },
            None => {
                proof {
                    assert(false);
                }
            },
        }
        proof {
            assert(Seq::new(
                subject@.len(),
                |i: int|
                    ResultRow {
                        subject: subject@[i],
                        predicate: predicate@[i],
                        object: object@[i],
                        labels: out_labels@[i]@,
                    },
            ) =~= materialise(prefix1, ids@, labs));
        }
        k = k + 1;
    }
    let rt = ResultTable { subject, predicate, object, labels: out_labels };
    proof {
        assert(edges@.subrange(0, edges@.len() as int) =~= edges@);
        assert(rt.rows() =~= materialise(edges@, ids@, labs));
    }
    rt
}

// ------------------------------------------------------------------
// Duplicate-label detection
// ------------------------------------------------------------------
/// The first label that repeats an earlier one in `s`, scanning left to
/// right; `None` when all labels are distinct.
pub open spec fn first_dup(s: Seq<u8>) -> Option<u8>
    decreases s.len(),
{
    if s.len() == 0 {
        None
    } else {
        match first_dup(s.drop_last()) {
            Some(l) => Some(l),
            None => if s.drop_last().contains(s.last()) {
                Some(s.last())
            } else {
                None
            },
        }
    }
}

/// A duplicate found in a prefix stays the first duplicate of the whole.
proof fn lemma_first_dup_prefix(s: Seq<u8>, k: int, l: u8)
    requires
        0 <= k <= s.len(),
        first_dup(s.subrange(0, k)) == Some(l),
    ensures
        first_dup(s) == Some(l),
    decreases s.len() - k,
{
    if k == s.len() {
        assert(s.subrange(0, k) =~= s);
    } else {
        assert(s.subrange(0, k + 1).drop_last() =~= s.subrange(0, k));
        lemma_first_dup_prefix(s, k + 1, l);
    }
}

/// All labels are distinct exactly when no first duplicate exists.
proof fn lemma_first_dup_none(s: Seq<u8>)
    ensures
        first_dup(s) is None <==> s.no_duplicates(),
    decreases s.len(),
{
    if s.len() == 0 {
    } else {
        lemma_first_dup_none(s.drop_last());
        let head = s.drop_last();
        let x = s.last();
        if head.no_duplicates() && !head.contains(x) {
            assert forall|i: int, j: int|
                0 <= i < s.len() && 0 <= j < s.len() && i != j implies s[i] != s[j] by {
                if i < head.len() && j < head.len() {
                    assert(head[i] == s[i] && head[j] == s[j]);
                } else if i == head.len() {
                    assert(s[j] == head[j]);
                    assert(!head.contains(x));
                } else {
                    assert(s[i] == head[i]);
                    assert(!head.contains(x));
                }
            }
        }
        if s.no_duplicates() {
            assert forall|i: int, j: int|
                0 <= i < head.len() && 0 <= j < head.len() && i != j implies head[i] != head[j] by {
                assert(head[i] == s[i] && head[j] == s[j]);
            }
            assert(!head.contains(x)) by {
                if head.contains(x) {
                    let w = choose|i: int| 0 <= i < head.len() && head[i] == x;
                    assert(s[w] == s[s.len() - 1]);
                }
            }
        }
    }
}

/// Returns the first label of `v` that repeats an earlier one.
fn find_first_dup(v: &Vec<u8>) -> (r: Option<u8>)
    ensures
        r == first_dup(v@),
{
    let mut j: usize = 0;
    while j < v.len()
        invariant
            j <= v@.len(),
            first_dup(v@.subrange(0, j as int)) is None,
        decreases v@.len() - j,
    {
        let ghost prefix = v@.subrange(0, j as int);
        let ghost prefix1 = v@.subrange(0, j + 1 as int);
        proof {
            assert(prefix1.drop_last() =~= prefix);
            assert(prefix1.last() == v@[j as int]);
        }
        let x = v[j];
        let mut i: usize = 0;
        let mut seen = false;
        while i < j
            invariant
                i <= j,
                j < v@.len(),
                x == v@[j as int],
                prefix == v@.subrange(0, j as int),
                seen <==> exists|k: int| 0 <= k < i && v@[k] == x,
            decreases j - i,
        {
            if v[i] == x {
                seen = true;
            }
            i = i + 1;
        }
        proof {
            assert(seen <==> prefix.contains(x)) by {
                if seen {
                    let w = choose|k: int| 0 <= k < j && v@[k] == x;
                    assert(prefix[w] == x);
                }
                if prefix.contains(x) {
                    let w = choose|k: int| 0 <= k < prefix.len() && prefix[k] == x;
                    assert(v@[w] == x);
                }
            }
        }
        if seen {
            proof {
                assert(first_dup(prefix1) == Some(x));
                lemma_first_dup_prefix(v@, j + 1 as int, x);
            }
            return Some(x);
        }
        j = j + 1;
    }
    proof {
        assert(v@.subrange(0, v@.len() as int) =~= v@);
    }
    None
}

// ------------------------------------------------------------------
// The validator
// ------------------------------------------------------------------
/// The error that validation reports for the given table and schema, or
/// `None` when validation runs: first the field checks on the required
/// columns, in order, and last the duplicate-label check on the schema.
pub open spec fn validate_error(table: EdgeTable, start: Shape) -> Option<ValidationError> {
    if field_error(table, Column::Subject) is Some {
        field_error(table, Column::Subject)
    } else if field_error(table, Column::Predicate) is Some {
        field_error(table, Column::Predicate)
    } else if field_error(table, Column::Object) is Some {
        field_error(table, Column::Object)
    } else {
        match first_dup(start.all_labels()) {
            Some(l) => Some(ValidationError::DuplicateLabel(l)),
            None => None,
        }
    }
}

/// The rows of the validated subset of `table` under the schema `start`.
pub open spec fn validated_rows(table: EdgeTable, start: Shape) -> Seq<ResultRow> {
    let edges = table.rows();
    let ids = vertex_ids_spec(edges);
    materialise(edges, ids, final_labels(spec_levels(start), edges, ids))
}

/// A schema together with the machinery to validate edge tables against
/// it.
pub struct PSchema {
    start: Shape,
}

impl PSchema {
    /// The root shape of the schema.
    pub closed spec fn spec_start(&self) -> Shape {
        self.start
    }

    /// Wraps the root shape of a schema.
    pub fn new(start: Shape) -> (s: PSchema)
        ensures
            s.spec_start() == start,
    {
        PSchema { start }
    }

    /// Validates `table` against the schema: checks the required columns,
    /// refuses duplicate labels, runs one superstep per level of the
    /// shape tree, and returns the subset of edges whose subject carries
    /// at least one label, annotated with the subject's labels.
    pub fn validate(self, table: &EdgeTable) -> (r: Result<ResultTable, ValidationError>)
        ensures
            match validate_error(*table, self.spec_start()) {
                Some(e) => r == Err::<ResultTable, ValidationError>(e),
                None => match r {
                    Ok(rt) => rt.wf() && rt.rows() == validated_rows(*table, self.spec_start()),
                    Err(_) => false,
                },
            },
    {
        match check_field(table, Column::Subject) {
            Err(e) => {
                return Err(e);
            },
            Ok(()) => {},
        }
        match check_field(table, Column::Predicate) {
            Err(e) => {
                return Err(e);
            },
            Ok(()) => {},
        }
        match check_field(table, Column::Object) {
            Err(e) => {
                return Err(e);
            },
            Ok(()) => {},
        }
        let mut schema_labels: Vec<u8> = Vec::new();
        self.start.push_labels(&mut schema_labels);
        proof {
            assert(Seq::<u8>::empty() + self.start.all_labels() =~= self.start.all_labels());
        }
        match find_first_dup(&schema_labels) {
            Some(l) => {
                return Err(ValidationError::DuplicateLabel(l));
            },
            None => {},
        }
        let edges = table.to_rows();
        let ids = vertex_ids(&edges);
        let tree = ShapeTree::new(self.start);
        let labels = run_pregel(&tree.shapes, &edges, &ids);
        let rt = build_result(&edges, &ids, &labels);
        Ok(rt)
    }
}

// ------------------------------------------------------------------
// Laws of the engine
// ------------------------------------------------------------------
/// Membership survives appending on the right.
proof fn lemma_add_contains_left(a: Seq<u8>, b: Seq<u8>, l: u8)
    requires
        a.contains(l),
    ensures
        (a + b).contains(l),
{
    let w = choose|i: int| 0 <= i < a.len() && a[i] == l;
    assert((a + b)[w] == l);
}

/// Membership in a concatenation comes from one of the parts.
proof fn lemma_add_contains_split(a: Seq<u8>, b: Seq<u8>, l: u8)
    requires
        (a + b).contains(l),
    ensures
        a.contains(l) || b.contains(l),
{
    let w = choose|i: int| 0 <= i < (a + b).len() && (a + b)[i] == l;
    if w < a.len() {
        assert(a[w] == l);
    } else {
        assert(b[w - a.len()] == l);
    }
}

/// Monotone labelling, one superstep: a label present on a vertex stays
/// present after the next superstep.
pub proof fn lemma_monotone_step(
    levels: Seq<Seq<Shape>>,
    edges: Seq<Edge>,
    ids: Seq<u32>,
    n: nat,
    j: int,
    l: u8,
)
    requires
        0 <= j < ids.len(),
        run_state(levels, edges, ids, n).labels[j].contains(l),
    ensures
        run_state(levels, edges, ids, (n + 1) as nat).labels[j].contains(l),
{
    lemma_run_state_len(levels, edges, ids, n);
    let st = run_state(levels, edges, ids, n);
    let send = level_at(levels, n as int);
    let vprog = level_at(levels, n as int + 1);
    let msgs = msgs_to(send, edges, ids, st.labels, ids[j]);
    let fired = fired_labels(vprog, st.recent[j] + msgs);
    lemma_add_contains_left(st.labels[j], msgs, l);
    lemma_add_contains_left(st.labels[j] + msgs, fired, l);
    assert(run_state(levels, edges, ids, (n + 1) as nat).labels[j] == st.labels[j] + msgs + fired);
}

/// Monotone labelling: across supersteps, for every vertex and label, a
/// label present at superstep `n1` is present at every later superstep.
pub proof fn lemma_monotone_labels(
    levels: Seq<Seq<Shape>>,
    edges: Seq<Edge>,
    ids: Seq<u32>,
    n1: nat,
    n2: nat,
    j: int,
    l: u8,
)
    requires
        n1 <= n2,
        0 <= j < ids.len(),
        run_state(levels, edges, ids, n1).labels[j].contains(l),
    ensures
        run_state(levels, edges, ids, n2).labels[j].contains(l),
    decreases n2 - n1,
{
    if n2 > n1 {
        lemma_monotone_labels(levels, edges, ids, n1, (n2 - 1) as nat, j, l);
        lemma_monotone_step(levels, edges, ids, (n2 - 1) as nat, j, l);
    }
}

/// An empty level sends no message over any edge.
proof fn lemma_msgs_to_empty(edges: Seq<Edge>, ids: Seq<u32>, labs: Seq<Seq<u8>>, v: u32)
    ensures
        msgs_to(Seq::empty(), edges, ids, labs, v) == Seq::<u8>::empty(),
    decreases edges.len(),
{
    if edges.len() > 0 {
        lemma_msgs_to_empty(edges.drop_last(), ids, labs, v);
    }
}

/// A superstep over empty levels leaves every vertex's labels unchanged.
proof fn lemma_step_empty(edges: Seq<Edge>, ids: Seq<u32>, st: BspState)
    requires
        st.labels.len() == ids.len(),
    ensures
        step_state(Seq::empty(), Seq::empty(), edges, ids, st).labels == st.labels,
{
    let next = step_state(Seq::empty(), Seq::empty(), edges, ids, st);
    assert forall|j: int| 0 <= j < ids.len() implies next.labels[j] == st.labels[j] by {
        lemma_msgs_to_empty(edges, ids, st.labels, ids[j]);
        assert(st.labels[j] + Seq::<u8>::empty() + Seq::<u8>::empty() =~= st.labels[j]);
    }
    assert(next.labels =~= st.labels);
}

/// Termination: after the whole schedule has run, further supersteps
/// produce no new labels.  Running `levels.len() + k` supersteps yields
/// the same labels as running exactly `levels.len()`.
pub proof fn lemma_fixpoint(levels: Seq<Seq<Shape>>, edges: Seq<Edge>, ids: Seq<u32>, n: nat)
    requires
        n >= levels.len(),
    ensures
        run_state(levels, edges, ids, n).labels == final_labels(levels, edges, ids),
    decreases n,
{
    if n > levels.len() {
        lemma_fixpoint(levels, edges, ids, (n - 1) as nat);
        lemma_run_state_len(levels, edges, ids, (n - 1) as nat);
        assert(level_at(levels, n - 1) =~= Seq::<Shape>::empty());
        assert(level_at(levels, n as int) =~= Seq::<Shape>::empty());
        lemma_step_empty(edges, ids, run_state(levels, edges, ids, (n - 1) as nat));
    }
}

/// Whether some shape of some level of the schedule assigns `l`.
pub open spec fn level_label(levels: Seq<Seq<Shape>>, l: u8) -> bool {
    exists|k: int, i: int|
        0 <= k < levels.len() && 0 <= i < levels[k].len() && #[trigger] levels[k][i].label() == l
}

/// A message always carries the label of a shape of the sending level.
proof fn lemma_msg_label(level: Seq<Shape>, e: Edge, ids: Seq<u32>, labs: Seq<Seq<u8>>, m: u8)
    requires
        msg_of_edge(level, e, ids, labs) == Some(m),
    ensures
        exists|i: int| 0 <= i < level.len() && #[trigger] level[i].label() == m,
    decreases level.len(),
{
    if level.len() > 0 {
        if is_send_shape(level.last()) && send_cond(level.last(), e, ids, labs) {
            assert(level[level.len() - 1].label() == m);
        } else {
            lemma_msg_label(level.drop_last(), e, ids, labs, m);
            let w = choose|i: int|
                0 <= i < level.drop_last().len() && #[trigger] level.drop_last()[i].label() == m;
            assert(level[w].label() == m);
        }
    }
}

/// Every delivered message carries the label of a shape of the level.
proof fn lemma_msgs_to_label(
    level: Seq<Shape>,
    edges: Seq<Edge>,
    ids: Seq<u32>,
    labs: Seq<Seq<u8>>,
    v: u32,
    l: u8,
)
    requires
        msgs_to(level, edges, ids, labs, v).contains(l),
    ensures
        exists|i: int| 0 <= i < level.len() && #[trigger] level[i].label() == l,
    decreases edges.len(),
{
    if edges.len() > 0 {
        let rest = msgs_to(level, edges.drop_last(), ids, labs, v);
        let e = edges.last();
        if e.subject == v && msg_of_edge(level, e, ids, labs) is Some {
            let m = msg_of_edge(level, e, ids, labs)->Some_0;
            let cur = msgs_to(level, edges, ids, labs, v);
            assert(cur == rest.push(m));
            let w = choose|i: int| 0 <= i < cur.len() && cur[i] == l;
            if w < rest.len() {
                assert(rest[w] == l);
                lemma_msgs_to_label(level, edges.drop_last(), ids, labs, v, l);
            } else {
                assert(m == l);
                lemma_msg_label(level, e, ids, labs, l);
            }
        } else {
            lemma_msgs_to_label(level, edges.drop_last(), ids, labs, v, l);
        }
    }
}

/// What the vertex-update phase assigns: a label stands among the fired
/// labels exactly when some composite shape of the level carries it and
/// fires on the message list.
pub proof fn lemma_fired_labels_exact(level: Seq<Shape>, m: Seq<u8>, l: u8)
    ensures
        fired_labels(level, m).contains(l) <==> exists|i: int|
            0 <= i < level.len() && is_vprog_shape(#[trigger] level[i]) && vprog_cond(level[i], m)
                && level[i].label() == l,
    decreases level.len(),
{
    if level.len() == 0 {
    } else {
        let head = level.drop_last();
        lemma_fired_labels_exact(head, m, l);
        let rest = fired_labels(head, m);
        let s = level.last();
        if is_vprog_shape(s) && vprog_cond(s, m) {
            let cur = rest.push(s.label());
            if cur.contains(l) {
                let w = choose|i: int| 0 <= i < cur.len() && cur[i] == l;
                if w < rest.len() {
                    assert(rest[w] == l);
                    let w2 = choose|i: int|
                        0 <= i < head.len() && is_vprog_shape(#[trigger] head[i]) && vprog_cond(
                            head[i],
                            m,
                        ) && head[i].label() == l;
                    assert(level[w2] == head[w2]);
                } else {
                    assert(level[level.len() - 1] == s);
                }
            }
            if exists|i: int|
                0 <= i < level.len() && is_vprog_shape(#[trigger] level[i]) && vprog_cond(
                    level[i],
                    m,
                ) && level[i].label() == l {
                let w = choose|i: int|
                    0 <= i < level.len() && is_vprog_shape(#[trigger] level[i]) && vprog_cond(
                        level[i],
                        m,
                    ) && level[i].label() == l;
                if w < head.len() {
                    assert(head[w] == level[w]);
                    let w3 = choose|i: int| 0 <= i < rest.len() && rest[i] == l;
                    assert(cur[w3] == l);
                } else {
                    assert(cur[rest.len() as int] == l);
                }
            }
        } else {
            if rest.contains(l) {
                let w2 = choose|i: int|
                    0 <= i < head.len() && is_vprog_shape(#[trigger] head[i]) && vprog_cond(
                        head[i],
                        m,
                    ) && head[i].label() == l;
                assert(level[w2] == head[w2]);
            }
            if exists|i: int|
                0 <= i < level.len() && is_vprog_shape(#[trigger] level[i]) && vprog_cond(
                    level[i],
                    m,
                ) && level[i].label() == l {
                let w = choose|i: int|
                    0 <= i < level.len() && is_vprog_shape(#[trigger] level[i]) && vprog_cond(
                        level[i],
                        m,
                    ) && level[i].label() == l;
                assert(w < head.len());
                assert(head[w] == level[w]);
            }
        }
    }
}

/// Conjunction: a `ShapeAnd` fires on a message list exactly when the
/// labels of all of its children stand in it.  Together with
/// `lemma_fired_labels_exact` this says when the vertex-update phase
/// assigns the conjunction's label.
pub proof fn lemma_shape_and_fires(a: crate::shape::shex::ShapeAnd, m: Seq<u8>)
    ensures
        vprog_cond(Shape::ShapeAnd(a), m) <==> forall|i: int|
            0 <= i < a.shapes.as_seq().len() ==> m.contains(#[trigger] a.shapes.as_seq()[i].label()),
{
}

/// Label universe: every label a vertex ever carries is the label of a
/// shape of some level of the schedule.
pub proof fn lemma_label_universe(
    levels: Seq<Seq<Shape>>,
    edges: Seq<Edge>,
    ids: Seq<u32>,
    n: nat,
    j: int,
    l: u8,
)
    requires
        0 <= j < ids.len(),
        run_state(levels, edges, ids, n).labels[j].contains(l),
    ensures
        level_label(levels, l),
    decreases n,
{
    lemma_run_state_len(levels, edges, ids, n);
    if n == 0 {
        assert(false);
    } else {
        let st = run_state(levels, edges, ids, (n - 1) as nat);
        lemma_run_state_len(levels, edges, ids, (n - 1) as nat);
        let send = level_at(levels, n - 1);
        let vprog = level_at(levels, n as int);
        let msgs = msgs_to(send, edges, ids, st.labels, ids[j]);
        let fired = fired_labels(vprog, st.recent[j] + msgs);
        assert(run_state(levels, edges, ids, n).labels[j] == st.labels[j] + msgs + fired);
        lemma_add_contains_split(st.labels[j] + msgs, fired, l);
        if (st.labels[j] + msgs).contains(l) {
            lemma_add_contains_split(st.labels[j], msgs, l);
            if st.labels[j].contains(l) {
                lemma_label_universe(levels, edges, ids, (n - 1) as nat, j, l);
            } else {
                lemma_msgs_to_label(send, edges, ids, st.labels, ids[j], l);
                if 0 <= n - 1 < levels.len() {
                    let w = choose|i: int| 0 <= i < send.len() && #[trigger] send[i].label() == l;
                    assert(levels[n - 1][w].label() == l);
                } else {
                    assert(send.len() == 0);
                    assert(false);
                }
            }
        } else {
            lemma_fired_labels_exact(vprog, st.recent[j] + msgs, l);
            let w = choose|i: int|
                0 <= i < vprog.len() && is_vprog_shape(#[trigger] vprog[i]) && vprog_cond(
                    vprog[i],
                    st.recent[j] + msgs,
                ) && vprog[i].label() == l;
            if 0 <= n < levels.len() {
                assert(levels[n as int][w].label() == l);
            } else {
                assert(vprog.len() == 0);
                assert(false);
            }
        }
    }
}

/// Label universe, stated against the schema: under the schedule of
/// `root`, every label a vertex ever carries is a label of the schema.
pub proof fn lemma_labels_subset_of_schema(
    root: Shape,
    edges: Seq<Edge>,
    ids: Seq<u32>,
    n: nat,
    j: int,
    l: u8,
)
    requires
        0 <= j < ids.len(),
        run_state(spec_levels(root), edges, ids, n).labels[j].contains(l),
    ensures
        root.all_labels().contains(l),
{
    lemma_label_universe(spec_levels(root), edges, ids, n, j, l);
    crate::shape::shape_tree::lemma_schedule_labels(root, l);
}

} // verus!
