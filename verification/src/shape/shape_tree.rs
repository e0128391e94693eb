//! Level-ordered schedule of a shape tree.
//!
//! `ShapeTree::new` partitions the nodes of a shape tree into levels:
//! the deepest nodes stand at level 0 and the root stands at the last
//! level.  The validator consumes one level per superstep, so a node is
//! always evaluated after all of its descendants.

use vstd::prelude::*;

use crate::shape::shex::{Shape, ShapeList};

verus! {

/// One level of the schedule: the shapes evaluated in a single superstep.
pub type ShapeTreeItem = Vec<Shape>;

/// The total number of nodes in a forest of shapes.
pub open spec fn seq_size(ss: Seq<Shape>) -> nat
    decreases ss,
{
    if ss.len() == 0 {
        0
    } else {
        seq_size(ss.drop_last()) + ss.last().size()
    }
}

/// Node counts of a children list agree with those of its sequence view.
proof fn lemma_list_size(l: ShapeList)
    ensures
        seq_size(l.as_seq()) == l.tree_size(),
    decreases l,
{
    match l {
        ShapeList::Nil => {},
        ShapeList::Cons(head, tail) => {
            lemma_list_size(*tail);
            let single = seq![*head];
            assert(single.drop_last() =~= Seq::<Shape>::empty());
            assert(seq_size(single.drop_last()) == 0);
            assert(seq_size(single) == head.size());
            lemma_seq_size_add(single, tail.as_seq());
        },
    }
}

/// The rounds of a breadth-first traversal of a forest: the forest itself,
/// followed by the rounds of the concatenation of all children.
pub open spec fn rounds_from(ss: Seq<Shape>) -> Seq<Seq<Shape>>
    decreases seq_size(ss),
    via rounds_from_decreases
{
    if ss.len() == 0 {
        Seq::empty()
    } else {
        seq![ss] + rounds_from(children_round(ss))
    }
}

#[via_fn]
proof fn rounds_from_decreases(ss: Seq<Shape>) {
    if ss.len() != 0 {
        lemma_children_round_size(ss);
    }
}

/// The concatenation of the children of all shapes of a round, in order.
pub open spec fn children_round(ss: Seq<Shape>) -> Seq<Shape>
    decreases ss,
{
    if ss.len() == 0 {
        Seq::empty()
    } else {
        children_round(ss.drop_last()) + ss.last().spec_children()
    }
}

/// A shape is one node bigger than the forest of its children.
proof fn lemma_shape_size(s: Shape)
    ensures
        s.size() == 1 + seq_size(s.spec_children()),
{
    match s {
        Shape::TripleConstraint(_) => {
            assert(seq_size(Seq::<Shape>::empty()) == 0);
        },
        Shape::ShapeReference(r) => {
            let cs = seq![r.reference];
            assert(cs.drop_last() =~= Seq::<Shape>::empty());
            assert(seq_size(cs.drop_last()) == 0);
        },
        Shape::ShapeAnd(a) => {
            lemma_list_size(a.shapes);
        },
        Shape::ShapeOr(o) => {
            lemma_list_size(o.shapes);
        },
        Shape::Cardinality(c) => {
            let cs = seq![c.shape];
            assert(cs.drop_last() =~= Seq::<Shape>::empty());
            assert(seq_size(cs.drop_last()) == 0);
        },
        Shape::ShapeLiteral(_) => {
            assert(seq_size(Seq::<Shape>::empty()) == 0);
        },
    }
}

/// Dropping one round of shapes loses exactly one node per shape.
proof fn lemma_children_round_size(ss: Seq<Shape>)
    ensures
        seq_size(children_round(ss)) + ss.len() == seq_size(ss),
    decreases ss,
{
    if ss.len() == 0 {
    } else {
        lemma_children_round_size(ss.drop_last());
        lemma_shape_size(ss.last());
        lemma_seq_size_add(children_round(ss.drop_last()), ss.last().spec_children());
    }
}

/// Node counts add over concatenation of forests.
proof fn lemma_seq_size_add(a: Seq<Shape>, b: Seq<Shape>)
    ensures
        seq_size(a + b) == seq_size(a) + seq_size(b),
    decreases b,
{
    if b.len() == 0 {
        assert(a + b =~= a);
    } else {
        lemma_seq_size_add(a, b.drop_last());
        assert((a + b).drop_last() =~= a + b.drop_last());
        assert((a + b).last() == b.last());
    }
}

/// The level partition of a shape tree: the levels of `rounds_from` on the
/// root alone, deepest round first.
pub open spec fn spec_levels(root: Shape) -> Seq<Seq<Shape>> {
    rounds_from(seq![root]).reverse()
}

/// The level-ordered schedule of a shape tree.  `shapes[0]` holds the
/// deepest nodes; the last level holds the root.
pub struct ShapeTree {
    pub shapes: Vec<ShapeTreeItem>,
}

impl ShapeTree {
    /// The levels as a sequence of sequences of shapes.
    pub open spec fn levels(&self) -> Seq<Seq<Shape>> {
        self.shapes@.map_values(|l: ShapeTreeItem| l@)
    }

    /// Builds the schedule of `shape` by reverse level-order traversal:
    /// rounds of a breadth-first walk from the root, reversed so that the
    /// deepest round comes first.
    pub fn new(shape: Shape) -> (t: ShapeTree)
        ensures
            t.levels() == spec_levels(shape),
    {
        let ghost root = shape;
        let mut rounds: Vec<ShapeTreeItem> = Vec::new();
        let mut current: Vec<Shape> = Vec::new();
        current.push(shape);
        proof {
            assert(current@ =~= seq![root]);
            assert(rounds@.map_values(|l: ShapeTreeItem| l@) =~= Seq::<Seq<Shape>>::empty());
        }
        while current.len() > 0
            invariant
                rounds@.map_values(|l: ShapeTreeItem| l@) + rounds_from(current@) == rounds_from(
                    seq![root],
                ),
            decreases seq_size(current@),
        {
            let next = children_of_round(&current);
            let ghost prev_rounds = rounds@.map_values(|l: ShapeTreeItem| l@);
            let ghost cur_view = current@;
            rounds.push(current);
            proof {
                lemma_children_round_size(cur_view);
                assert(rounds@.map_values(|l: ShapeTreeItem| l@) =~= prev_rounds.push(cur_view));
                assert(rounds_from(cur_view) == seq![cur_view] + rounds_from(
                    children_round(cur_view),
                ));
                assert(prev_rounds.push(cur_view) + rounds_from(children_round(cur_view)) =~= (
                prev_rounds + rounds_from(cur_view)));
            }
            current = next;
        }
        proof {
            assert(rounds_from(current@) =~= Seq::<Seq<Shape>>::empty());
            assert(rounds@.map_values(|l: ShapeTreeItem| l@) =~= rounds_from(seq![root]));
        }
        // Reverse the rounds so that the deepest one comes first.
        let mut levels: Vec<ShapeTreeItem> = Vec::new();
        while rounds.len() > 0
            invariant
                rounds@.map_values(|l: ShapeTreeItem| l@) + levels@.map_values(
                    |l: ShapeTreeItem| l@,
                ).reverse() == rounds_from(seq![root]),
            decreases rounds.len(),
        {
            let ghost pre_rounds = rounds@.map_values(|l: ShapeTreeItem| l@);
            let ghost pre_levels = levels@.map_values(|l: ShapeTreeItem| l@);
            match rounds.pop() {
                Some(last) => {
                    levels.push(last);
                    proof {
                        assert(rounds@.map_values(|l: ShapeTreeItem| l@) =~= pre_rounds.drop_last());
                        assert(levels@.map_values(|l: ShapeTreeItem| l@) =~= pre_levels.push(
                            pre_rounds.last(),
                        ));
                        assert(pre_rounds.drop_last() + pre_levels.push(
                            pre_rounds.last(),
                        ).reverse() =~= pre_rounds + pre_levels.reverse());
                    }
                },
                None => {
                    proof {
                        assert(false);
                    }
                },
            }
        }
        let t = ShapeTree { shapes: levels };
        proof {
            assert(rounds@.map_values(|l: ShapeTreeItem| l@) =~= Seq::<Seq<Shape>>::empty());
            assert(t.levels().reverse().reverse() =~= t.levels());
            assert(t.levels() =~= rounds_from(seq![root]).reverse());
        }
        t
    }

    /// The number of supersteps the validator must run: one per level.
    pub fn iterations(self) -> (r: u8)
        requires
            self.levels().len() <= 255,
        ensures
            r == self.levels().len(),
    {
        self.shapes.len() as u8
    }
}

/// The concatenated children of all shapes of `current`, cloned in order.
fn children_of_round(current: &Vec<Shape>) -> (next: Vec<Shape>)
    ensures
        next@ == children_round(current@),
{
    let mut next: Vec<Shape> = Vec::new();
    let mut i: usize = 0;
    while i < current.len()
        invariant
            i <= current.len(),
            next@ == children_round(current@.subrange(0, i as int)),
        decreases current.len() - i,
    {
        let ghost pre = next@;
        match &current[i] {
            Shape::TripleConstraint(_) => {},
            Shape::ShapeReference(r) => {
                next.push(r.reference.clone());
            },
            Shape::ShapeAnd(a) => {
                a.shapes.append_to(&mut next);
            },
            Shape::ShapeOr(o) => {
                o.shapes.append_to(&mut next);
            },
            Shape::Cardinality(c) => {
                next.push(c.shape.clone());
            },
            Shape::ShapeLiteral(_) => {},
        }
        proof {
            let prefix = current@.subrange(0, i as int);
            let prefix1 = current@.subrange(0, i + 1 as int);
            assert(prefix1.drop_last() =~= prefix);
            assert(prefix1.last() == current@[i as int]);
            assert(next@ =~= pre + current@[i as int].spec_children());
        }
        i = i + 1;
    }
    proof {
        assert(current@.subrange(0, current@.len() as int) =~= current@);
    }
    next
}

// ------------------------------------------------------------------
// The schedule's length is the tree's height
// ------------------------------------------------------------------
/// The greatest height among the shapes of a forest.
pub open spec fn forest_height(ss: Seq<Shape>) -> nat
    decreases ss,
{
    if ss.len() == 0 {
        0
    } else {
        let rest = forest_height(ss.drop_last());
        if ss.last().height() > rest {
            ss.last().height()
        } else {
            rest
        }
    }
}

/// A children list's height agrees with its sequence view's.
proof fn lemma_list_height(l: ShapeList)
    ensures
        forest_height(l.as_seq()) == l.list_height(),
    decreases l,
{
    match l {
        ShapeList::Nil => {},
        ShapeList::Cons(head, tail) => {
            lemma_list_height(*tail);
            let single = seq![*head];
            assert(single.drop_last() =~= Seq::<Shape>::empty());
            assert(forest_height(single.drop_last()) == 0);
            assert(forest_height(single) == head.height());
            lemma_forest_height_add(single, tail.as_seq());
            assert(l.as_seq() == single + tail.as_seq());
        },
    }
}

/// Forest heights take the maximum over concatenation.
proof fn lemma_forest_height_add(a: Seq<Shape>, b: Seq<Shape>)
    ensures
        forest_height(a + b) == if forest_height(a) > forest_height(b) {
            forest_height(a)
        } else {
            forest_height(b)
        },
    decreases b,
{
    if b.len() == 0 {
        assert(a + b =~= a);
    } else {
        lemma_forest_height_add(a, b.drop_last());
        assert((a + b).drop_last() =~= a + b.drop_last());
        assert((a + b).last() == b.last());
    }
}

/// A shape is one level taller than the forest of its children.
proof fn lemma_shape_height(s: Shape)
    ensures
        s.height() == 1 + forest_height(s.spec_children()),
{
    match s {
        Shape::TripleConstraint(_) => {
            assert(forest_height(Seq::<Shape>::empty()) == 0);
        },
        Shape::ShapeReference(r) => {
            let cs = seq![r.reference];
            assert(cs.drop_last() =~= Seq::<Shape>::empty());
            assert(forest_height(cs.drop_last()) == 0);
        },
        Shape::ShapeAnd(a) => {
            lemma_list_height(a.shapes);
        },
        Shape::ShapeOr(o) => {
            lemma_list_height(o.shapes);
        },
        Shape::Cardinality(c) => {
            let cs = seq![c.shape];
            assert(cs.drop_last() =~= Seq::<Shape>::empty());
            assert(forest_height(cs.drop_last()) == 0);
        },
        Shape::ShapeLiteral(_) => {
            assert(forest_height(Seq::<Shape>::empty()) == 0);
        },
    }
}

/// Every shape stands at least one level tall.
proof fn lemma_height_pos(ss: Seq<Shape>)
    requires
        ss.len() > 0,
    ensures
        forest_height(ss) >= 1,
    decreases ss,
{
    if ss.len() == 1 {
        lemma_shape_height(ss.last());
    } else {
        lemma_height_pos(ss.drop_last());
    }
}

/// Dropping to the children round lowers the forest height by one.
proof fn lemma_children_round_height(ss: Seq<Shape>)
    requires
        ss.len() > 0,
    ensures
        forest_height(ss) == 1 + forest_height(children_round(ss)),
    decreases ss,
{
    let head = ss.drop_last();
    let t = ss.last();
    lemma_shape_height(t);
    assert(children_round(ss) == children_round(head) + t.spec_children());
    lemma_forest_height_add(children_round(head), t.spec_children());
    assert(forest_height(ss) == if t.height() > forest_height(head) {
        t.height()
    } else {
        forest_height(head)
    });
    if head.len() == 0 {
        assert(children_round(head) =~= Seq::<Shape>::empty());
        assert(forest_height(children_round(head)) == 0);
        assert(forest_height(head) == 0);
    } else {
        lemma_children_round_height(head);
        lemma_height_pos(head);
    }
}

/// The number of rounds of a forest is its height.
proof fn lemma_rounds_height(ss: Seq<Shape>)
    ensures
        rounds_from(ss).len() == forest_height(ss),
    decreases seq_size(ss),
{
    if ss.len() == 0 {
    } else {
        lemma_children_round_size(ss);
        lemma_rounds_height(children_round(ss));
        lemma_children_round_height(ss);
        assert(rounds_from(ss) == seq![ss] + rounds_from(children_round(ss)));
    }
}

/// Termination bound of the schedule: the number of levels, and so the
/// number of supersteps the validator runs, is exactly the height of the
/// shape tree.
pub proof fn lemma_iterations_is_height(root: Shape)
    ensures
        spec_levels(root).len() == root.height(),
{
    lemma_rounds_height(seq![root]);
    let single = seq![root];
    assert(single.drop_last() =~= Seq::<Shape>::empty());
    assert(forest_height(single.drop_last()) == 0);
}

// ------------------------------------------------------------------
// Laws of the schedule
// ------------------------------------------------------------------
/// Whether `s` occurs somewhere in a sequence of levels.
pub open spec fn in_schedule(rs: Seq<Seq<Shape>>, s: Shape) -> bool {
    exists|k: int| 0 <= k < rs.len() && #[trigger] rs[k].contains(s)
}

/// Whether `s` is an element of the forest `ss` or a proper descendant of
/// one.
pub open spec fn in_forest(ss: Seq<Shape>, s: Shape) -> bool {
    exists|i: int| 0 <= i < ss.len() && (#[trigger] ss[i] == s || ss[i].has_descendant(s))
}

/// A list holds a descendant exactly when one of its elements equals it
/// or has it as a descendant.
proof fn lemma_any_descendant(l: ShapeList, s: Shape)
    ensures
        l.any_descendant(s) <==> exists|i: int|
            0 <= i < l.as_seq().len() && (#[trigger] l.as_seq()[i] == s
                || l.as_seq()[i].has_descendant(s)),
    decreases l,
{
    match l {
        ShapeList::Nil => {},
        ShapeList::Cons(head, tail) => {
            lemma_any_descendant(*tail, s);
            let cs = l.as_seq();
            let ts = tail.as_seq();
            assert(cs[0] == *head);
            assert(forall|i: int| 0 <= i < ts.len() ==> cs[i + 1] == #[trigger] ts[i]);
            if l.any_descendant(s) {
                if *head == s || head.has_descendant(s) {
                    assert(cs[0] == s || cs[0].has_descendant(s));
                } else {
                    let w = choose|i: int|
                        0 <= i < ts.len() && (#[trigger] ts[i] == s || ts[i].has_descendant(s));
                    assert(cs[w + 1] == s || cs[w + 1].has_descendant(s));
                }
            }
            if exists|i: int|
                0 <= i < cs.len() && (#[trigger] cs[i] == s || cs[i].has_descendant(s)) {
                let w = choose|i: int|
                    0 <= i < cs.len() && (#[trigger] cs[i] == s || cs[i].has_descendant(s));
                if w == 0 {
                } else {
                    assert(cs[w] == ts[w - 1]);
                }
            }
        },
    }
}

/// A shape has `s` as a descendant exactly when one of its children
/// equals `s` or has it as a descendant.
proof fn lemma_descendant_unfold(t: Shape, s: Shape)
    ensures
        t.has_descendant(s) <==> in_forest(t.spec_children(), s),
{
    match t {
        Shape::TripleConstraint(_) => {},
        Shape::ShapeLiteral(_) => {},
        Shape::ShapeReference(r) => {
            let cs = t.spec_children();
            assert(cs[0] == r.reference);
            if t.has_descendant(s) {
                assert(cs[0] == s || cs[0].has_descendant(s));
            }
        },
        Shape::Cardinality(c) => {
            let cs = t.spec_children();
            assert(cs[0] == c.shape);
            if t.has_descendant(s) {
                assert(cs[0] == s || cs[0].has_descendant(s));
            }
        },
        Shape::ShapeAnd(a) => {
            lemma_any_descendant(a.shapes, s);
        },
        Shape::ShapeOr(o) => {
            lemma_any_descendant(o.shapes, s);
        },
    }
}

/// A shape stands in the children round of a forest exactly when it is a
/// child of one of the forest's shapes.
proof fn lemma_children_round_membership(ss: Seq<Shape>, c: Shape)
    ensures
        children_round(ss).contains(c) <==> exists|i: int|
            0 <= i < ss.len() && #[trigger] ss[i].spec_children().contains(c),
    decreases ss,
{
    if ss.len() == 0 {
    } else {
        let head = ss.drop_last();
        lemma_children_round_membership(head, c);
        let t = ss.last();
        let cr = children_round(ss);
        assert(cr == children_round(head) + t.spec_children());
        if cr.contains(c) {
            let w = choose|i: int| 0 <= i < cr.len() && cr[i] == c;
            if w < children_round(head).len() {
                assert(children_round(head)[w] == c);
                let w2 = choose|i: int|
                    0 <= i < head.len() && #[trigger] head[i].spec_children().contains(c);
                assert(ss[w2] == head[w2]);
            } else {
                assert(t.spec_children()[w - children_round(head).len()] == c);
                assert(ss[ss.len() - 1].spec_children().contains(c));
            }
        }
        if exists|i: int| 0 <= i < ss.len() && #[trigger] ss[i].spec_children().contains(c) {
            let w = choose|i: int| 0 <= i < ss.len() && #[trigger] ss[i].spec_children().contains(c);
            if w < head.len() {
                assert(head[w] == ss[w]);
                let w3 = choose|i: int|
                    0 <= i < children_round(head).len() && children_round(head)[i] == c;
                assert(cr[w3] == c);
            } else {
                let w4 = choose|i: int|
                    0 <= i < t.spec_children().len() && t.spec_children()[i] == c;
                assert(cr[children_round(head).len() + w4] == c);
            }
        }
    }
}

/// The rounds of a forest hold exactly the forest's shapes and their
/// descendants.
proof fn lemma_rounds_membership(ss: Seq<Shape>, s: Shape)
    ensures
        in_schedule(rounds_from(ss), s) <==> in_forest(ss, s),
    decreases seq_size(ss),
{
    if ss.len() == 0 {
    } else {
        lemma_children_round_size(ss);
        lemma_rounds_membership(children_round(ss), s);
        let rs = rounds_from(ss);
        assert(rs == seq![ss] + rounds_from(children_round(ss)));
        assert(rs[0] == ss);
        assert(forall|k: int|
            0 <= k < rounds_from(children_round(ss)).len() ==> rs[k + 1] == #[trigger] rounds_from(
                children_round(ss),
            )[k]);
        if in_schedule(rs, s) {
            let k = choose|k: int| 0 <= k < rs.len() && #[trigger] rs[k].contains(s);
            if k == 0 {
                let w = choose|i: int| 0 <= i < ss.len() && ss[i] == s;
                assert(ss[w] == s || ss[w].has_descendant(s));
            } else {
                assert(rounds_from(children_round(ss))[k - 1].contains(s));
                assert(in_forest(children_round(ss), s));
                let w = choose|i: int|
                    0 <= i < children_round(ss).len() && (#[trigger] children_round(ss)[i] == s
                        || children_round(ss)[i].has_descendant(s));
                let c = children_round(ss)[w];
                assert(children_round(ss).contains(c));
                lemma_children_round_membership(ss, c);
                let w2 = choose|i: int|
                    0 <= i < ss.len() && #[trigger] ss[i].spec_children().contains(c);
                lemma_descendant_unfold(ss[w2], s);
                let cs = ss[w2].spec_children();
                let w3 = choose|i: int| 0 <= i < cs.len() && cs[i] == c;
                assert(cs[w3] == s || cs[w3].has_descendant(s));
                assert(in_forest(cs, s));
                assert(ss[w2].has_descendant(s));
            }
        }
        if in_forest(ss, s) {
            let w = choose|i: int|
                0 <= i < ss.len() && (#[trigger] ss[i] == s || ss[i].has_descendant(s));
            if ss[w] == s {
                assert(rs[0].contains(s));
            } else {
                lemma_descendant_unfold(ss[w], s);
                let cs = ss[w].spec_children();
                let w2 = choose|i: int|
                    0 <= i < cs.len() && (#[trigger] cs[i] == s || cs[i].has_descendant(s));
                let c = cs[w2];
                lemma_children_round_membership(ss, c);
                assert(ss[w].spec_children().contains(c));
                assert(children_round(ss).contains(c));
                let cw = choose|i: int|
                    0 <= i < children_round(ss).len() && children_round(ss)[i] == c;
                assert(children_round(ss)[cw] == s || children_round(ss)[cw].has_descendant(s));
                assert(in_forest(children_round(ss), s));
                let k = choose|k: int|
                    0 <= k < rounds_from(children_round(ss)).len() && #[trigger] rounds_from(
                        children_round(ss),
                    )[k].contains(s);
                assert(rs[k + 1].contains(s));
            }
        }
    }
}

/// The schedule of a shape holds exactly the shape and its descendants.
pub proof fn lemma_schedule_nodes(root: Shape, s: Shape)
    ensures
        in_schedule(spec_levels(root), s) <==> (s == root || root.has_descendant(s)),
{
    lemma_rounds_membership(seq![root], s);
    let rs = rounds_from(seq![root]);
    let ls = spec_levels(root);
    assert(seq![root][0] == root);
    assert forall|k: int| 0 <= k < rs.len() implies ls[rs.len() - 1 - k] == #[trigger] rs[k] by {}
    assert forall|k: int| 0 <= k < ls.len() implies rs[ls.len() - 1 - k] == #[trigger] ls[k] by {}
    if in_schedule(rs, s) {
        let k = choose|k: int| 0 <= k < rs.len() && #[trigger] rs[k].contains(s);
        assert(ls[rs.len() - 1 - k].contains(s));
    }
    if in_schedule(ls, s) {
        let k = choose|k: int| 0 <= k < ls.len() && #[trigger] ls[k].contains(s);
        assert(rs[ls.len() - 1 - k].contains(s));
    }
    if in_forest(seq![root], s) {
        let w = choose|i: int|
            0 <= i < 1 && (#[trigger] seq![root][i] == s || seq![root][i].has_descendant(s));
        assert(w == 0);
    }
}

/// Level correctness, one step down: the children of a shape scheduled at
/// level `k` are scheduled at level `k - 1`.  Read upward: every shape
/// that constrains another stands at a strictly higher level, so it is
/// evaluated at a later superstep.
pub proof fn lemma_child_level(root: Shape, k: int, t: Shape, c: Shape)
    requires
        0 <= k < spec_levels(root).len(),
        spec_levels(root)[k].contains(t),
        t.spec_children().contains(c),
    ensures
        k >= 1,
        spec_levels(root)[k - 1].contains(c),
{
    let rs = rounds_from(seq![root]);
    let ls = spec_levels(root);
    assert(rs[ls.len() - 1 - k] == ls[k]);
    lemma_round_child(seq![root], rs.len() - 1 - k, t, c);
    assert(ls[k - 1] == rs[rs.len() - k]);
}

/// In the rounds of a forest, the children of a shape of round `k` stand
/// in round `k + 1`.
proof fn lemma_round_child(ss: Seq<Shape>, k: int, t: Shape, c: Shape)
    requires
        0 <= k < rounds_from(ss).len(),
        rounds_from(ss)[k].contains(t),
        t.spec_children().contains(c),
    ensures
        k + 1 < rounds_from(ss).len(),
        rounds_from(ss)[k + 1].contains(c),
    decreases k,
{
    assert(ss.len() > 0);
    lemma_children_round_size(ss);
    let rs = rounds_from(ss);
    let sub = rounds_from(children_round(ss));
    assert(rs == seq![ss] + sub);
    assert(rs[0] == ss);
    assert(forall|k2: int| 0 <= k2 < sub.len() ==> rs[k2 + 1] == #[trigger] sub[k2]);
    if k == 0 {
        assert(ss.contains(t));
        let w = choose|i: int| 0 <= i < ss.len() && ss[i] == t;
        lemma_children_round_membership(ss, c);
        assert(ss[w].spec_children().contains(c));
        assert(children_round(ss).contains(c));
        assert(children_round(ss).len() > 0);
        assert(sub[0] == children_round(ss));
        assert(rs[1].contains(c));
    } else {
        assert(sub[k - 1].contains(t));
        lemma_round_child(children_round(ss), k - 1, t, c);
        assert(rs[k + 1] == sub[k]);
    }
}

/// Level correctness: every proper descendant of a shape scheduled at
/// level `k` is scheduled at some level strictly below `k`; equivalently,
/// every ancestor constraint of a shape appears at a strictly higher
/// level than the shapes it constrains.
pub proof fn lemma_ancestor_level(root: Shape, k: int, t: Shape, s: Shape)
    requires
        0 <= k < spec_levels(root).len(),
        spec_levels(root)[k].contains(t),
        t.has_descendant(s),
    ensures
        exists|k2: int|
            0 <= k2 < k && #[trigger] spec_levels(root)[k2].contains(s),
    decreases t.size(),
{
    lemma_descendant_unfold(t, s);
    let cs = t.spec_children();
    let w = choose|i: int| 0 <= i < cs.len() && (#[trigger] cs[i] == s || cs[i].has_descendant(s));
    let c = cs[w];
    assert(cs.contains(c));
    lemma_child_level(root, k, t, c);
    if c == s {
        assert(spec_levels(root)[k - 1].contains(s));
    } else {
        lemma_child_size(t, c);
        lemma_ancestor_level(root, k - 1, c, s);
        let k2 = choose|k2: int| 0 <= k2 < k - 1 && #[trigger] spec_levels(root)[k2].contains(s);
        assert(0 <= k2 < k && spec_levels(root)[k2].contains(s));
    }
}

/// Level correctness, read upward: where a shape is scheduled at one
/// level only, every shape of the tree that constrains it, directly or
/// transitively, appears at some strictly higher level.  (A shape value
/// recurs at two levels only when the schema repeats a whole subtree,
/// which duplicates its labels.)
pub proof fn lemma_ancestor_above(root: Shape, k: int, t: Shape, s: Shape)
    requires
        0 <= k < spec_levels(root).len(),
        spec_levels(root)[k].contains(s),
        forall|k2: int|
            0 <= k2 < spec_levels(root).len() && #[trigger] spec_levels(root)[k2].contains(s)
                ==> k2 == k,
        t == root || root.has_descendant(t),
        t.has_descendant(s),
    ensures
        exists|k2: int| k < k2 < spec_levels(root).len() && #[trigger] spec_levels(root)[k2].contains(t),
{
    lemma_schedule_nodes(root, t);
    let kt = choose|k2: int| 0 <= k2 < spec_levels(root).len() && #[trigger] spec_levels(root)[k2].contains(t);
    lemma_ancestor_level(root, kt, t, s);
    let ks = choose|k2: int| 0 <= k2 < kt && #[trigger] spec_levels(root)[k2].contains(s);
    assert(ks == k);
}

/// A child is strictly smaller than its parent.
proof fn lemma_child_size(t: Shape, c: Shape)
    requires
        t.spec_children().contains(c),
    ensures
        c.size() < t.size(),
{
    lemma_shape_size(t);
    let cs = t.spec_children();
    let w = choose|i: int| 0 <= i < cs.len() && cs[i] == c;
    lemma_member_size(cs, w);
}

/// Every member of a forest counts toward the forest's node count.
proof fn lemma_member_size(ss: Seq<Shape>, w: int)
    requires
        0 <= w < ss.len(),
    ensures
        ss[w].size() <= seq_size(ss),
    decreases ss,
{
    if w == ss.len() - 1 {
        assert(ss.last() == ss[w]);
    } else {
        lemma_member_size(ss.drop_last(), w);
        assert(ss.drop_last()[w] == ss[w]);
    }
}

/// Label coverage of the schedule: a label stands on some shape of some
/// level exactly when it stands in the schema's label sequence.  No level
/// assigns a label from outside the schema, and no schema label is left
/// out of the schedule.
pub proof fn lemma_schedule_labels(root: Shape, l: u8)
    ensures
        (exists|k: int, i: int|
            0 <= k < spec_levels(root).len() && 0 <= i < spec_levels(root)[k].len()
                && #[trigger] spec_levels(root)[k][i].label() == l) <==> root.all_labels().contains(
            l,
        ),
{
    lemma_tree_labels(root, l);
    let ls = spec_levels(root);
    if exists|k: int, i: int|
        0 <= k < ls.len() && 0 <= i < ls[k].len() && #[trigger] ls[k][i].label() == l {
        let (k, i) = choose|k: int, i: int|
            0 <= k < ls.len() && 0 <= i < ls[k].len() && #[trigger] ls[k][i].label() == l;
        let s = ls[k][i];
        assert(ls[k].contains(s));
        assert(in_schedule(ls, s));
        lemma_schedule_nodes(root, s);
    }
    if root.all_labels().contains(l) {
        let s = choose|s: Shape| (s == root || root.has_descendant(s)) && s.label() == l;
        lemma_schedule_nodes(root, s);
        let k = choose|k: int| 0 <= k < ls.len() && #[trigger] ls[k].contains(s);
        let i = choose|i: int| 0 <= i < ls[k].len() && ls[k][i] == s;
        assert(ls[k][i].label() == l);
    }
}

/// The label sequence of a shape holds exactly the labels of the shape's
/// nodes.
proof fn lemma_tree_labels(root: Shape, l: u8)
    ensures
        root.all_labels().contains(l) <==> exists|s: Shape|
            (s == root || root.has_descendant(s)) && (#[trigger] s.label()) == l,
    decreases root.size(),
{
    lemma_tree_labels_helper(root, l);
}

/// Bridge between a node's label sequence and its descendants' labels.
proof fn lemma_tree_labels_helper(root: Shape, l: u8)
    ensures
        root.all_labels().contains(l) <==> exists|s: Shape|
            (s == root || root.has_descendant(s)) && (#[trigger] s.label()) == l,
    decreases root.size(),
{
    let cs = root.spec_children();
    lemma_shape_size(root);
    lemma_labels_via_children(root, l);
    if root.all_labels().contains(l) {
        if root.label() == l {
            assert((root == root || root.has_descendant(root)) && root.label() == l);
        } else {
            let w = choose|i: int|
                0 <= i < cs.len() && #[trigger] cs[i].all_labels().contains(l);
            lemma_member_size(cs, w);
            lemma_tree_labels_helper(cs[w], l);
            let s = choose|s: Shape|
                (s == cs[w] || cs[w].has_descendant(s)) && (#[trigger] s.label()) == l;
            lemma_descendant_unfold(root, s);
            assert(cs[w] == s || cs[w].has_descendant(s));
            assert(in_forest(cs, s));
            assert(root.has_descendant(s));
        }
    }
    if exists|s: Shape| (s == root || root.has_descendant(s)) && (#[trigger] s.label()) == l {
        let s = choose|s: Shape| (s == root || root.has_descendant(s)) && (#[trigger] s.label()) == l;
        if s == root {
            lemma_own_label(root);
        } else {
            lemma_descendant_unfold(root, s);
            let w = choose|i: int|
                0 <= i < cs.len() && (#[trigger] cs[i] == s || cs[i].has_descendant(s));
            lemma_member_size(cs, w);
            lemma_tree_labels_helper(cs[w], l);
            assert(cs[w].all_labels().contains(l));
        }
    }
}

/// A node's own label stands in its label sequence.
proof fn lemma_own_label(s: Shape)
    ensures
        s.all_labels().contains(s.label()),
    decreases s,
{
    match s {
        Shape::TripleConstraint(t) => {
            assert(s.all_labels()[0] == t.label);
        },
        Shape::ShapeReference(r) => {
            assert(s.all_labels()[0] == r.label);
        },
        Shape::ShapeAnd(a) => {
            assert(s.all_labels()[0] == a.label);
        },
        Shape::ShapeOr(o) => {
            assert(s.all_labels()[0] == o.label);
        },
        Shape::Cardinality(c) => {
            lemma_own_label(c.shape);
        },
        Shape::ShapeLiteral(lit) => {
            assert(s.all_labels()[0] == lit.label);
        },
    }
}

/// A label stands in a node's label sequence exactly when it is the
/// node's own label or stands in a child's label sequence.
proof fn lemma_labels_via_children(root: Shape, l: u8)
    ensures
        root.all_labels().contains(l) <==> (root.label() == l || exists|i: int|
            0 <= i < root.spec_children().len()
                && #[trigger] root.spec_children()[i].all_labels().contains(l)),
{
    let cs = root.spec_children();
    match root {
        Shape::TripleConstraint(t) => {
            assert(root.all_labels() =~= seq![t.label]);
            if root.all_labels().contains(l) {
                let w = choose|i: int| 0 <= i < 1 && root.all_labels()[i] == l;
                assert(w == 0);
            }
            if root.label() == l {
                assert(root.all_labels()[0] == l);
            }
        },
        Shape::ShapeLiteral(lit) => {
            assert(root.all_labels() =~= seq![lit.label]);
            if root.all_labels().contains(l) {
                let w = choose|i: int| 0 <= i < 1 && root.all_labels()[i] == l;
                assert(w == 0);
            }
            if root.label() == l {
                assert(root.all_labels()[0] == l);
            }
        },
        Shape::ShapeReference(r) => {
            let al = root.all_labels();
            assert(al == seq![r.label] + r.reference.all_labels());
            assert(cs[0] == r.reference);
            if al.contains(l) {
                let w = choose|i: int| 0 <= i < al.len() && al[i] == l;
                if w == 0 {
                    assert(al[0] == r.label);
                } else {
                    assert(r.reference.all_labels()[w - 1] == l);
                    assert(r.reference.all_labels().contains(l));
                    assert(cs[0].all_labels().contains(l));
                }
            }
            if root.label() == l {
                assert(al[0] == l);
            }
            if exists|i: int| 0 <= i < cs.len() && #[trigger] cs[i].all_labels().contains(l) {
                let w = choose|i: int| 0 <= i < cs.len() && #[trigger] cs[i].all_labels().contains(l);
                assert(w == 0);
                let w2 = choose|i: int|
                    0 <= i < r.reference.all_labels().len() && r.reference.all_labels()[i] == l;
                assert(al[w2 + 1] == l);
            }
        },
        Shape::Cardinality(c) => {
            assert(root.all_labels() == c.shape.all_labels());
            assert(cs[0] == c.shape);
            assert(root.label() == c.shape.label());
            if root.all_labels().contains(l) {
                assert(cs[0].all_labels().contains(l));
            }
            if root.label() == l {
                lemma_own_label(c.shape);
            }
            if exists|i: int| 0 <= i < cs.len() && #[trigger] cs[i].all_labels().contains(l) {
                let w = choose|i: int| 0 <= i < cs.len() && #[trigger] cs[i].all_labels().contains(l);
                assert(w == 0);
            }
        },
        Shape::ShapeAnd(a) => {
            lemma_list_labels(a.shapes, l);
            let al = root.all_labels();
            assert(al == seq![a.label] + a.shapes.labels_seq());
            if al.contains(l) {
                let w = choose|i: int| 0 <= i < al.len() && al[i] == l;
                if w == 0 {
                    assert(al[0] == a.label);
                } else {
                    assert(a.shapes.labels_seq()[w - 1] == l);
                    assert(a.shapes.labels_seq().contains(l));
                    let wc = choose|i: int|
                        0 <= i < a.shapes.as_seq().len()
                            && #[trigger] a.shapes.as_seq()[i].all_labels().contains(l);
                    assert(cs[wc].all_labels().contains(l));
                }
            }
            if root.label() == l {
                assert(al[0] == l);
            }
            if exists|i: int| 0 <= i < cs.len() && #[trigger] cs[i].all_labels().contains(l) {
                let w2 = choose|i: int|
                    0 <= i < a.shapes.labels_seq().len() && a.shapes.labels_seq()[i] == l;
                assert(al[w2 + 1] == l);
            }
        },
        Shape::ShapeOr(o) => {
            lemma_list_labels(o.shapes, l);
            let al = root.all_labels();
            assert(al == seq![o.label] + o.shapes.labels_seq());
            if al.contains(l) {
                let w = choose|i: int| 0 <= i < al.len() && al[i] == l;
                if w == 0 {
                    assert(al[0] == o.label);
                } else {
                    assert(o.shapes.labels_seq()[w - 1] == l);
                    assert(o.shapes.labels_seq().contains(l));
                    let wc = choose|i: int|
                        0 <= i < o.shapes.as_seq().len()
                            && #[trigger] o.shapes.as_seq()[i].all_labels().contains(l);
                    assert(cs[wc].all_labels().contains(l));
                }
            }
            if root.label() == l {
                assert(al[0] == l);
            }
            if exists|i: int| 0 <= i < cs.len() && #[trigger] cs[i].all_labels().contains(l) {
                let w2 = choose|i: int|
                    0 <= i < o.shapes.labels_seq().len() && o.shapes.labels_seq()[i] == l;
                assert(al[w2 + 1] == l);
            }
        },
    }
}

/// A label stands in a list's label sequence exactly when it stands in
/// the label sequence of one of the list's trees.
proof fn lemma_list_labels(l: ShapeList, x: u8)
    ensures
        l.labels_seq().contains(x) <==> exists|i: int|
            0 <= i < l.as_seq().len() && #[trigger] l.as_seq()[i].all_labels().contains(x),
    decreases l,
{
    match l {
        ShapeList::Nil => {},
        ShapeList::Cons(head, tail) => {
            lemma_list_labels(*tail, x);
            let cs = l.as_seq();
            let ts = tail.as_seq();
            let hl = head.all_labels();
            assert(cs[0] == *head);
            assert(forall|i: int| 0 <= i < ts.len() ==> cs[i + 1] == #[trigger] ts[i]);
            assert(l.labels_seq() == hl + tail.labels_seq());
            if l.labels_seq().contains(x) {
                let w = choose|i: int| 0 <= i < l.labels_seq().len() && l.labels_seq()[i] == x;
                if w < hl.len() {
                    assert(hl[w] == x);
                    assert(cs[0].all_labels().contains(x));
                } else {
                    assert(tail.labels_seq()[w - hl.len()] == x);
                    assert(tail.labels_seq().contains(x));
                    let w2 = choose|i: int|
                        0 <= i < ts.len() && #[trigger] ts[i].all_labels().contains(x);
                    assert(cs[w2 + 1].all_labels().contains(x));
                }
            }
            if exists|i: int| 0 <= i < cs.len() && #[trigger] cs[i].all_labels().contains(x) {
                let w = choose|i: int| 0 <= i < cs.len() && #[trigger] cs[i].all_labels().contains(x);
                if w == 0 {
                    let w2 = choose|i: int| 0 <= i < hl.len() && hl[i] == x;
                    assert(l.labels_seq()[w2] == x);
                } else {
                    assert(ts[w - 1].all_labels().contains(x));
                    let w3 = choose|i: int|
                        0 <= i < tail.labels_seq().len() && tail.labels_seq()[i] == x;
                    assert(l.labels_seq()[hl.len() + w3] == x);
                }
            }
        },
    }
}

} // verus!
