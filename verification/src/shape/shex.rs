//! The shape algebra: a tagged tree of constraint nodes.
//!
//! Every node carries a small integer label.  A vertex of the graph that
//! satisfies a node's constraint receives that node's label during
//! validation.  Leaf-style nodes (`TripleConstraint`, `ShapeReference`,
//! `ShapeLiteral`) are evaluated over edge rows in the send phase of a
//! superstep; composite nodes (`ShapeAnd`, `ShapeOr`, `Cardinality`) are
//! evaluated per vertex in the vertex-update phase.

use vstd::prelude::*;

use crate::dtype::DataType;

verus! {

/// A shape-expression node.
#[derive(Debug)]
pub enum Shape {
    TripleConstraint(TripleConstraint),
    ShapeReference(Box<ShapeReference>),
    ShapeAnd(ShapeAnd),
    ShapeOr(ShapeOr),
    Cardinality(Box<Cardinality>),
    ShapeLiteral(ShapeLiteral),
}

/// The children of a composite shape, as a cons list so that shape values
/// have structural equality in specifications.
#[derive(Debug)]
pub enum ShapeList {
    Nil,
    Cons(Box<Shape>, Box<ShapeList>),
}

/// An endpoint of a cardinality interval.
#[derive(Clone, Copy, Debug, PartialEq, Eq, Structural)]
pub enum Bound {
    Inclusive(u8),
    Exclusive(u8),
}

/// A vertex conforms iff it has an outgoing edge with the given predicate
/// and object.
#[derive(Debug)]
pub struct TripleConstraint {
    pub label: u8,
    pub predicate: u32,
    pub object: u32,
}

/// A vertex conforms iff it has an outgoing edge with the given predicate
/// whose destination already carries the label of the referenced shape.
#[derive(Debug)]
pub struct ShapeReference {
    pub label: u8,
    pub predicate: u32,
    pub reference: Shape,
}

/// A vertex conforms iff the labels of all child shapes are present on it.
#[derive(Debug)]
pub struct ShapeAnd {
    pub label: u8,
    pub shapes: ShapeList,
}

/// A vertex conforms iff the label of at least one child shape is present
/// on it.
#[derive(Debug)]
pub struct ShapeOr {
    pub label: u8,
    pub shapes: ShapeList,
}

/// A vertex conforms iff the number of occurrences of the inner shape's
/// label among the messages it received lies within `[min, max]`.  The node
/// relabels the vertex with the inner shape's own label.
#[derive(Debug)]
pub struct Cardinality {
    pub shape: Shape,
    pub min: Bound,
    pub max: Bound,
}

/// A vertex conforms iff it has an outgoing edge with the given predicate
/// whose object carries the given datatype tag.
#[derive(Debug)]
pub struct ShapeLiteral {
    pub label: u8,
    pub predicate: u32,
    pub dtype: DataType,
}

impl ShapeList {
    /// The children as a sequence, in declaration order.
    pub open spec fn as_seq(self) -> Seq<Shape>
        decreases self,
    {
        match self {
            ShapeList::Nil => Seq::empty(),
            ShapeList::Cons(head, tail) => seq![*head] + tail.as_seq(),
        }
    }

    /// The total number of nodes in the trees of this list.
    pub open spec fn tree_size(self) -> nat
        decreases self,
    {
        match self {
            ShapeList::Nil => 0,
            ShapeList::Cons(head, tail) => head.size() + tail.tree_size(),
        }
    }

    /// The greatest height among the trees of this list.
    pub open spec fn list_height(self) -> nat
        decreases self,
    {
        match self {
            ShapeList::Nil => 0,
            ShapeList::Cons(head, tail) => if head.height() > tail.list_height() {
                head.height()
            } else {
                tail.list_height()
            },
        }
    }

    /// The concatenated preorder label sequences of the trees of this list.
    pub open spec fn labels_seq(self) -> Seq<u8>
        decreases self,
    {
        match self {
            ShapeList::Nil => Seq::empty(),
            ShapeList::Cons(head, tail) => head.all_labels() + tail.labels_seq(),
        }
    }

    /// Whether `other` is an element of this list or a proper descendant of
    /// one.
    pub open spec fn any_descendant(self, other: Shape) -> bool
        decreases self,
    {
        match self {
            ShapeList::Nil => false,
            ShapeList::Cons(head, tail) => *head == other || head.has_descendant(other)
                || tail.any_descendant(other),
        }
    }
}

impl Shape {
    /// The label that this node assigns.  A `Cardinality` node assigns the
    /// label of its inner shape.
    pub open spec fn label(self) -> u8
        decreases self,
    {
        match self {
            Shape::TripleConstraint(t) => t.label,
            Shape::ShapeReference(r) => r.label,
            Shape::ShapeAnd(a) => a.label,
            Shape::ShapeOr(o) => o.label,
            Shape::Cardinality(c) => c.shape.label(),
            Shape::ShapeLiteral(l) => l.label,
        }
    }

    /// The direct children of this node, in declaration order.
    pub open spec fn spec_children(self) -> Seq<Shape> {
        match self {
            Shape::TripleConstraint(_) => Seq::empty(),
            Shape::ShapeReference(r) => seq![r.reference],
            Shape::ShapeAnd(a) => a.shapes.as_seq(),
            Shape::ShapeOr(o) => o.shapes.as_seq(),
            Shape::Cardinality(c) => seq![c.shape],
            Shape::ShapeLiteral(_) => Seq::empty(),
        }
    }

    /// The number of nodes in this shape tree.
    pub open spec fn size(self) -> nat
        decreases self,
    {
        match self {
            Shape::TripleConstraint(_) => 1,
            Shape::ShapeReference(r) => 1 + r.reference.size(),
            Shape::ShapeAnd(a) => 1 + a.shapes.tree_size(),
            Shape::ShapeOr(o) => 1 + o.shapes.tree_size(),
            Shape::Cardinality(c) => 1 + c.shape.size(),
            Shape::ShapeLiteral(_) => 1,
        }
    }

    /// The height of this shape tree: the number of nodes on the longest
    /// path from this node to a leaf.
    pub open spec fn height(self) -> nat
        decreases self,
    {
        match self {
            Shape::TripleConstraint(_) => 1,
            Shape::ShapeReference(r) => 1 + r.reference.height(),
            Shape::ShapeAnd(a) => 1 + a.shapes.list_height(),
            Shape::ShapeOr(o) => 1 + o.shapes.list_height(),
            Shape::Cardinality(c) => 1 + c.shape.height(),
            Shape::ShapeLiteral(_) => 1,
        }
    }

    /// The labels of the nodes of this tree, in preorder.  A `Cardinality`
    /// node contributes no label of its own: it assigns its inner shape's.
    pub open spec fn all_labels(self) -> Seq<u8>
        decreases self,
    {
        match self {
            Shape::TripleConstraint(t) => seq![t.label],
            Shape::ShapeReference(r) => seq![r.label] + r.reference.all_labels(),
            Shape::ShapeAnd(a) => seq![a.label] + a.shapes.labels_seq(),
            Shape::ShapeOr(o) => seq![o.label] + o.shapes.labels_seq(),
            Shape::Cardinality(c) => c.shape.all_labels(),
            Shape::ShapeLiteral(l) => seq![l.label],
        }
    }

    /// Whether `other` is a proper descendant of this node.
    pub open spec fn has_descendant(self, other: Shape) -> bool
        decreases self,
    {
        match self {
            Shape::TripleConstraint(_) => false,
            Shape::ShapeReference(r) => r.reference == other || r.reference.has_descendant(
                other,
            ),
            Shape::ShapeAnd(a) => a.shapes.any_descendant(other),
            Shape::ShapeOr(o) => o.shapes.any_descendant(other),
            Shape::Cardinality(c) => c.shape == other || c.shape.has_descendant(other),
            Shape::ShapeLiteral(_) => false,
        }
    }

    /// Appends the preorder label sequence of this tree to `out`.
    pub fn push_labels(&self, out: &mut Vec<u8>)
        ensures
            final(out)@ == old(out)@ + self.all_labels(),
        decreases *self,
    {
        match self {
            Shape::TripleConstraint(t) => {
                out.push(t.label);
                proof {
                    assert(out@ =~= old(out)@ + self.all_labels());
                }
            },
            Shape::ShapeReference(r) => {
                out.push(r.label);
                r.reference.push_labels(out);
                proof {
                    assert(out@ =~= old(out)@ + self.all_labels());
                }
            },
            Shape::ShapeAnd(a) => {
                out.push(a.label);
                a.shapes.push_labels(out);
                proof {
                    assert(out@ =~= old(out)@ + self.all_labels());
                }
            },
            Shape::ShapeOr(o) => {
                out.push(o.label);
                o.shapes.push_labels(out);
                proof {
                    assert(out@ =~= old(out)@ + self.all_labels());
                }
            },
            Shape::Cardinality(c) => {
                c.shape.push_labels(out);
            },
            Shape::ShapeLiteral(l) => {
                out.push(l.label);
                proof {
                    assert(out@ =~= old(out)@ + self.all_labels());
                }
            },
        }
    }

    /// Returns the label that this node assigns.
    pub fn get_label(&self) -> (r: u8)
        ensures
            r == self.label(),
        decreases *self,
    {
        match self {
            Shape::TripleConstraint(t) => t.label,
            Shape::ShapeReference(r) => r.label,
            Shape::ShapeAnd(a) => a.label,
            Shape::ShapeOr(o) => o.label,
            Shape::Cardinality(c) => c.shape.get_label(),
            Shape::ShapeLiteral(l) => l.label,
        }
    }
}

impl Clone for Shape {
    /// Structurally equal copy of the node and all its descendants.
    fn clone(&self) -> (r: Self)
        ensures
            r == *self,
        decreases *self,
    {
        match self {
            Shape::TripleConstraint(t) => Shape::TripleConstraint(
                TripleConstraint { label: t.label, predicate: t.predicate, object: t.object },
            ),
            Shape::ShapeReference(r) => Shape::ShapeReference(
                Box::new(
                    ShapeReference {
                        label: r.label,
                        predicate: r.predicate,
                        reference: r.reference.clone(),
                    },
                ),
            ),
            Shape::ShapeAnd(a) => Shape::ShapeAnd(
                ShapeAnd { label: a.label, shapes: a.shapes.clone() },
            ),
            Shape::ShapeOr(o) => Shape::ShapeOr(
                ShapeOr { label: o.label, shapes: o.shapes.clone() },
            ),
            Shape::Cardinality(c) => Shape::Cardinality(
                Box::new(Cardinality { shape: c.shape.clone(), min: c.min, max: c.max }),
            ),
            Shape::ShapeLiteral(l) => Shape::ShapeLiteral(
                ShapeLiteral { label: l.label, predicate: l.predicate, dtype: l.dtype },
            ),
        }
    }
}

impl Clone for ShapeList {
    /// Structurally equal copy of the list and all its trees.
    fn clone(&self) -> (r: Self)
        ensures
            r == *self,
        decreases *self,
    {
        match self {
            ShapeList::Nil => ShapeList::Nil,
            ShapeList::Cons(head, tail) => ShapeList::Cons(
                Box::new((**head).clone()),
                Box::new((**tail).clone()),
            ),
        }
    }
}

impl ShapeList {
    /// Builds the list of the shapes of `shapes`, in order.
    pub fn from_vec(shapes: Vec<Shape>) -> (r: ShapeList)
        ensures
            r.as_seq() == shapes@,
    {
        let ghost all = shapes@;
        let mut rest = shapes;
        let mut r = ShapeList::Nil;
        proof {
            assert(r.as_seq() + Seq::<Shape>::empty() =~= r.as_seq());
        }
        while rest.len() > 0
            invariant
                rest@.len() <= all.len(),
                rest@ == all.subrange(0, rest@.len() as int),
                r.as_seq() == all.subrange(rest@.len() as int, all.len() as int),
            decreases rest.len(),
        {
            let ghost pre = rest@;
            match rest.pop() {
                Some(s) => {
                    r = ShapeList::Cons(Box::new(s), Box::new(r));
                    proof {
                        assert(rest@ =~= all.subrange(0, rest@.len() as int));
                        assert(r.as_seq() =~= all.subrange(rest@.len() as int, all.len() as int));
                    }
                },
                None => {
                    proof {
                        assert(false);
                    }
                },
            }
        }
        proof {
            assert(r.as_seq() =~= all);
        }
        r
    }

    /// Appends a copy of every shape of the list to `out`, in order.
    pub fn append_to(&self, out: &mut Vec<Shape>)
        ensures
            final(out)@ == old(out)@ + self.as_seq(),
        decreases *self,
    {
        match self {
            ShapeList::Nil => {
                proof {
                    assert(out@ + self.as_seq() =~= out@);
                }
            },
            ShapeList::Cons(head, tail) => {
                out.push((**head).clone());
                let ghost mid = out@;
                tail.append_to(out);
                proof {
                    assert(out@ =~= old(out)@ + self.as_seq());
                }
            },
        }
    }

    /// Appends the concatenated preorder label sequences of the trees of
    /// this list to `out`.
    pub fn push_labels(&self, out: &mut Vec<u8>)
        ensures
            final(out)@ == old(out)@ + self.labels_seq(),
        decreases *self,
    {
        match self {
            ShapeList::Nil => {
                proof {
                    assert(out@ =~= old(out)@ + self.labels_seq());
                }
            },
            ShapeList::Cons(head, tail) => {
                head.push_labels(out);
                tail.push_labels(out);
                proof {
                    assert(out@ =~= old(out)@ + self.labels_seq());
                }
            },
        }
    }

    /// Returns a copy of the list as a vector, in order.
    pub fn to_vec(&self) -> (r: Vec<Shape>)
        ensures
            r@ == self.as_seq(),
    {
        let mut r: Vec<Shape> = Vec::new();
        self.append_to(&mut r);
        proof {
            assert(Seq::<Shape>::empty() + self.as_seq() =~= self.as_seq());
        }
        r
    }
}

impl TripleConstraint {
    /// Constructs the constraint from its label, predicate and object.
    pub fn new(label: u8, predicate: u32, object: u32) -> (r: Self)
        ensures
            r == (TripleConstraint { label, predicate, object }),
    {
        TripleConstraint { label, predicate, object }
    }
}

impl ShapeReference {
    /// Constructs the constraint from its label, predicate and referenced
    /// shape.
    pub fn new(label: u8, predicate: u32, reference: Shape) -> (r: Self)
        ensures
            r == (ShapeReference { label, predicate, reference }),
    {
        ShapeReference { label, predicate, reference }
    }

    /// Consumes the node and returns the referenced shape.
    pub fn get_reference(self) -> (r: Shape)
        ensures
            r == self.reference,
    {
        self.reference
    }
}

impl ShapeAnd {
    /// Constructs the conjunction of the given child shapes.
    pub fn new(label: u8, shapes: Vec<Shape>) -> (r: Self)
        ensures
            r.label == label,
            r.shapes.as_seq() == shapes@,
    {
        ShapeAnd { label, shapes: ShapeList::from_vec(shapes) }
    }

    /// Returns a copy of the child shapes.
    pub fn get_shapes(&self) -> (r: Vec<Shape>)
        ensures
            r@ == self.shapes.as_seq(),
    {
        self.shapes.to_vec()
    }
}

impl ShapeOr {
    /// Constructs the disjunction of the given child shapes.
    pub fn new(label: u8, shapes: Vec<Shape>) -> (r: Self)
        ensures
            r.label == label,
            r.shapes.as_seq() == shapes@,
    {
        ShapeOr { label, shapes: ShapeList::from_vec(shapes) }
    }

    /// Returns a copy of the child shapes.
    pub fn get_shapes(&self) -> (r: Vec<Shape>)
        ensures
            r@ == self.shapes.as_seq(),
    {
        self.shapes.to_vec()
    }
}

impl Cardinality {
    /// Constructs the constraint from its inner shape and interval.
    pub fn new(shape: Shape, min: Bound, max: Bound) -> (r: Self)
        ensures
            r == (Cardinality { shape, min, max }),
    {
        Cardinality { shape, min, max }
    }

    /// Consumes the node and returns the inner shape.
    pub fn get_shape(self) -> (r: Shape)
        ensures
            r == self.shape,
    {
        self.shape
    }
}

impl ShapeLiteral {
    /// Constructs the constraint from its label, predicate and datatype tag.
    pub fn new(label: u8, predicate: u32, dtype: DataType) -> (r: Self)
        ensures
            r == (ShapeLiteral { label, predicate, dtype }),
    {
        ShapeLiteral { label, predicate, dtype }
    }
}

impl From<TripleConstraint> for Shape {
    fn from(value: TripleConstraint) -> (r: Shape) {
        Shape::TripleConstraint(value)
    }
}

impl vstd::std_specs::convert::FromSpecImpl<TripleConstraint> for Shape {
    open spec fn obeys_from_spec() -> bool {
        true
    }

    open spec fn from_spec(value: TripleConstraint) -> Shape {
        Shape::TripleConstraint(value)
    }
}

impl From<ShapeReference> for Shape {
    fn from(value: ShapeReference) -> (r: Shape) {
        Shape::ShapeReference(Box::new(value))
    }
}

impl vstd::std_specs::convert::FromSpecImpl<ShapeReference> for Shape {
    open spec fn obeys_from_spec() -> bool {
        true
    }

    open spec fn from_spec(value: ShapeReference) -> Shape {
        Shape::ShapeReference(Box::new(value))
    }
}

impl From<ShapeAnd> for Shape {
    fn from(value: ShapeAnd) -> (r: Shape) {
        Shape::ShapeAnd(value)
    }
}

impl vstd::std_specs::convert::FromSpecImpl<ShapeAnd> for Shape {
    open spec fn obeys_from_spec() -> bool {
        true
    }

    open spec fn from_spec(value: ShapeAnd) -> Shape {
        Shape::ShapeAnd(value)
    }
}

impl From<ShapeOr> for Shape {
    fn from(value: ShapeOr) -> (r: Shape) {
        Shape::ShapeOr(value)
    }
}

impl vstd::std_specs::convert::FromSpecImpl<ShapeOr> for Shape {
    open spec fn obeys_from_spec() -> bool {
        true
    }

    open spec fn from_spec(value: ShapeOr) -> Shape {
        Shape::ShapeOr(value)
    }
}

impl From<Cardinality> for Shape {
    fn from(value: Cardinality) -> (r: Shape) {
        Shape::Cardinality(Box::new(value))
    }
}

impl vstd::std_specs::convert::FromSpecImpl<Cardinality> for Shape {
    open spec fn obeys_from_spec() -> bool {
        true
    }

    open spec fn from_spec(value: Cardinality) -> Shape {
        Shape::Cardinality(Box::new(value))
    }
}

impl From<ShapeLiteral> for Shape {
    fn from(value: ShapeLiteral) -> (r: Shape) {
        Shape::ShapeLiteral(value)
    }
}

impl vstd::std_specs::convert::FromSpecImpl<ShapeLiteral> for Shape {
    open spec fn obeys_from_spec() -> bool {
        true
    }

    open spec fn from_spec(value: ShapeLiteral) -> Shape {
        Shape::ShapeLiteral(value)
    }
}

} // verus!
