//! A small knowledge graph and schemas over it, for tests and examples.
//!
//! The graph describes a researcher born in London who works at CERN and
//! received an award; a second person; and the award itself.  All
//! identifiers use the packing of `crate::id`.

use vstd::prelude::*;

use crate::dtype::DataType;
use crate::id::Id;
use crate::shape::shex::{Bound, Cardinality, Shape, ShapeAnd, ShapeOr, ShapeReference,
    TripleConstraint};
use crate::table::EdgeTable;

verus! {

/// The entities and properties of the example graph.
#[derive(Clone, Copy, Debug, PartialEq, Eq, Structural)]
pub enum Value {
    Human,
    TimBernersLee,
    VintCerf,
    InstanceOf,
    CERN,
    Award,
    Spain,
    Country,
    Employer,
    BirthPlace,
    BirthDate,
    London,
    AwardReceived,
    UnitedKingdom,
    ScienceAward,
    DateTime,
}

impl Value {
    /// The identifier of the entity or property.
    pub open spec fn spec_id(self) -> Id {
        match self {
            Value::Human => Id::Qid(5),
            Value::TimBernersLee => Id::Qid(80),
            Value::VintCerf => Id::Qid(92743),
            Value::InstanceOf => Id::Pid(31),
            Value::CERN => Id::Qid(42944),
            Value::Award => Id::Qid(3320352),
            Value::Spain => Id::Qid(29),
            Value::Country => Id::Pid(17),
            Value::Employer => Id::Pid(108),
            Value::BirthPlace => Id::Pid(19),
            Value::BirthDate => Id::Pid(569),
            Value::London => Id::Qid(84),
            Value::AwardReceived => Id::Pid(166),
            Value::UnitedKingdom => Id::Qid(145),
            Value::ScienceAward => Id::Qid(11448906),
            Value::DateTime => Id::DataType(DataType::DateTime),
        }
    }

    /// Returns the packed identifier of the entity or property.
    pub fn id(&self) -> (r: u32)
        ensures
            r == self.spec_id().encoding(),
    {
        let id = match self {
            Value::Human => Id::Qid(5),
            Value::TimBernersLee => Id::Qid(80),
            Value::VintCerf => Id::Qid(92743),
            Value::InstanceOf => Id::Pid(31),
            Value::CERN => Id::Qid(42944),
            Value::Award => Id::Qid(3320352),
            Value::Spain => Id::Qid(29),
            Value::Country => Id::Pid(17),
            Value::Employer => Id::Pid(108),
            Value::BirthPlace => Id::Pid(19),
            Value::BirthDate => Id::Pid(569),
            Value::London => Id::Qid(84),
            Value::AwardReceived => Id::Pid(166),
            Value::UnitedKingdom => Id::Qid(145),
            Value::ScienceAward => Id::Qid(11448906),
            Value::DateTime => Id::DataType(DataType::DateTime),
        };
        proof {
            assert(id.encoding() <= u32::MAX);
        }
        id.to_u64() as u32
    }
}

/// The subjects of the example graph's edges, in order.
pub open spec fn paper_subjects() -> Seq<u32> {
    seq![
        80u32,
        80u32,
        84u32,
        80u32,
        80u32,
        3320352u32,
        92743u32,
        42944u32,
        80u32,
        3320352u32,
    ]
}

/// The predicates of the example graph's edges, in order.
pub open spec fn paper_predicates() -> Seq<u32> {
    seq![
        1000000031u32,
        1000000019u32,
        1000000017u32,
        1000000108u32,
        1000000166u32,
        1000000017u32,
        1000000031u32,
        1000000166u32,
        1000000569u32,
        1000000031u32,
    ]
}

/// The objects of the example graph's edges, in order.
pub open spec fn paper_objects() -> Seq<u32> {
    seq![
        5u32,
        84u32,
        145u32,
        42944u32,
        3320352u32,
        29u32,
        5u32,
        3320352u32,
        3000000004u32,
        11448906u32,
    ]
}

/// Builds the example graph's edge table.
pub fn paper_graph() -> (r: EdgeTable)
    ensures
        r.col_subject() == Some(paper_subjects()),
        r.col_predicate() == Some(paper_predicates()),
        r.col_object() == Some(paper_objects()),
        r.col_dtype() is None,
{
    let mut subject: Vec<u32> = Vec::new();
    let mut predicate: Vec<u32> = Vec::new();
    let mut object: Vec<u32> = Vec::new();
    push_edge(&mut subject, &mut predicate, &mut object, Value::TimBernersLee, Value::InstanceOf,
        Value::Human);
    push_edge(&mut subject, &mut predicate, &mut object, Value::TimBernersLee, Value::BirthPlace,
        Value::London);
    push_edge(&mut subject, &mut predicate, &mut object, Value::London, Value::Country,
        Value::UnitedKingdom);
    push_edge(&mut subject, &mut predicate, &mut object, Value::TimBernersLee, Value::Employer,
        Value::CERN);
    push_edge(&mut subject, &mut predicate, &mut object, Value::TimBernersLee,
        Value::AwardReceived, Value::Award);
    push_edge(&mut subject, &mut predicate, &mut object, Value::Award, Value::Country,
        Value::Spain);
    push_edge(&mut subject, &mut predicate, &mut object, Value::VintCerf, Value::InstanceOf,
        Value::Human);
    push_edge(&mut subject, &mut predicate, &mut object, Value::CERN, Value::AwardReceived,
        Value::Award);
    push_edge(&mut subject, &mut predicate, &mut object, Value::TimBernersLee, Value::BirthDate,
        Value::DateTime);
    push_edge(&mut subject, &mut predicate, &mut object, Value::Award, Value::InstanceOf,
        Value::ScienceAward);
    proof {
        assert(subject@ =~= paper_subjects());
        assert(predicate@ =~= paper_predicates());
        assert(object@ =~= paper_objects());
    }
    match EdgeTable::from_edges(subject, predicate, object) {
        Some(t) => t,
        None => vstd::pervasive::unreached(),
    }
}

/// Appends one edge to the three columns.
fn push_edge(
    subject: &mut Vec<u32>,
    predicate: &mut Vec<u32>,
    object: &mut Vec<u32>,
    s: Value,
    p: Value,
    o: Value,
)
    ensures
        final(subject)@ == old(subject)@.push(s.spec_id().encoding() as u32),
        final(predicate)@ == old(predicate)@.push(p.spec_id().encoding() as u32),
        final(object)@ == old(object)@.push(o.spec_id().encoding() as u32),
{
    subject.push(s.id());
    predicate.push(p.id());
    object.push(o.id());
}

/// One constraint: an instance of Human.
pub open spec fn simple_schema_spec() -> Shape {
    Shape::TripleConstraint(TripleConstraint { label: 1, predicate: 1000000031, object: 5 })
}

/// Builds the one-constraint schema.
pub fn simple_schema() -> (r: Shape)
    ensures
        r == simple_schema_spec(),
{
    Shape::TripleConstraint(TripleConstraint::new(1, Value::InstanceOf.id(), Value::Human.id()))
}

/// A researcher: a Human, born in London, with a typed birth date.
pub open spec fn paper_schema_children() -> Seq<Shape> {
    seq![
        Shape::TripleConstraint(TripleConstraint { label: 2, predicate: 1000000031, object: 5 }),
        Shape::TripleConstraint(TripleConstraint { label: 3, predicate: 1000000019, object: 84 }),
        Shape::TripleConstraint(
            TripleConstraint { label: 4, predicate: 1000000569, object: 3000000004 },
        ),
    ]
}

/// Builds the conjunction of the three researcher constraints.
pub fn paper_schema() -> (r: Shape)
    ensures
        r matches Shape::ShapeAnd(a) && a.label == 1 && a.shapes.as_seq()
            == paper_schema_children(),
{
    let mut children: Vec<Shape> = Vec::new();
    children.push(
        Shape::TripleConstraint(
            TripleConstraint::new(2, Value::InstanceOf.id(), Value::Human.id()),
        ),
    );
    children.push(
        Shape::TripleConstraint(
            TripleConstraint::new(3, Value::BirthPlace.id(), Value::London.id()),
        ),
    );
    children.push(
        Shape::TripleConstraint(
            TripleConstraint::new(4, Value::BirthDate.id(), Value::DateTime.id()),
        ),
    );
    proof {
        assert(children@ =~= paper_schema_children());
    }
    Shape::ShapeAnd(ShapeAnd::new(1, children))
}

/// A researcher whose birth place lies in the United Kingdom, through a
/// reference to the birth-place shape.
pub open spec fn complex_schema_children() -> Seq<Shape> {
    seq![
        Shape::TripleConstraint(TripleConstraint { label: 2, predicate: 1000000031, object: 5 }),
        Shape::ShapeReference(
            Box::new(
                ShapeReference {
                    label: 3,
                    predicate: 1000000019,
                    reference: Shape::TripleConstraint(
                        TripleConstraint { label: 4, predicate: 1000000017, object: 145 },
                    ),
                },
            ),
        ),
        Shape::TripleConstraint(
            TripleConstraint { label: 5, predicate: 1000000569, object: 3000000004 },
        ),
    ]
}

/// Builds the conjunction with a nested reference.
pub fn complex_schema() -> (r: Shape)
    ensures
        r matches Shape::ShapeAnd(a) && a.label == 1 && a.shapes.as_seq()
            == complex_schema_children(),
{
    let mut children: Vec<Shape> = Vec::new();
    children.push(
        Shape::TripleConstraint(
            TripleConstraint::new(2, Value::InstanceOf.id(), Value::Human.id()),
        ),
    );
    children.push(
        Shape::ShapeReference(
            Box::new(
                ShapeReference::new(
                    3,
                    Value::BirthPlace.id(),
                    Shape::TripleConstraint(
                        TripleConstraint::new(4, Value::Country.id(), Value::UnitedKingdom.id()),
                    ),
                ),
            ),
        ),
    );
    children.push(
        Shape::TripleConstraint(
            TripleConstraint::new(5, Value::BirthDate.id(), Value::DateTime.id()),
        ),
    );
    proof {
        assert(children@ =~= complex_schema_children());
    }
    Shape::ShapeAnd(ShapeAnd::new(1, children))
}

/// An employer whose award was received for science, through two nested
/// references.
pub open spec fn reference_schema_spec() -> Shape {
    Shape::ShapeReference(
        Box::new(
            ShapeReference {
                label: 1,
                predicate: 1000000108,
                reference: Shape::ShapeReference(
                    Box::new(
                        ShapeReference {
                            label: 2,
                            predicate: 1000000166,
                            reference: Shape::TripleConstraint(
                                TripleConstraint {
                                    label: 3,
                                    predicate: 1000000031,
                                    object: 11448906,
                                },
                            ),
                        },
                    ),
                ),
            },
        ),
    )
}

/// Builds the two nested references.
pub fn reference_schema() -> (r: Shape)
    ensures
        r == reference_schema_spec(),
{
    Shape::ShapeReference(
        Box::new(
            ShapeReference::new(
                1,
                Value::Employer.id(),
                Shape::ShapeReference(
                    Box::new(
                        ShapeReference::new(
                            2,
                            Value::AwardReceived.id(),
                            Shape::TripleConstraint(
                                TripleConstraint::new(
                                    3,
                                    Value::InstanceOf.id(),
                                    Value::ScienceAward.id(),
                                ),
                            ),
                        ),
                    ),
                ),
            ),
        ),
    )
}

/// A Human with at most one award.
pub open spec fn optional_schema_children() -> Seq<Shape> {
    seq![
        Shape::TripleConstraint(TripleConstraint { label: 2, predicate: 1000000031, object: 5 }),
        Shape::Cardinality(
            Box::new(
                Cardinality {
                    shape: Shape::TripleConstraint(
                        TripleConstraint { label: 3, predicate: 1000000166, object: 3320352 },
                    ),
                    min: Bound::Inclusive(0),
                    max: Bound::Inclusive(1),
                },
            ),
        ),
    ]
}

/// Builds the conjunction with an optional cardinality.
pub fn optional_schema() -> (r: Shape)
    ensures
        r matches Shape::ShapeAnd(a) && a.label == 1 && a.shapes.as_seq()
            == optional_schema_children(),
{
    let mut children: Vec<Shape> = Vec::new();
    children.push(
        Shape::TripleConstraint(
            TripleConstraint::new(2, Value::InstanceOf.id(), Value::Human.id()),
        ),
    );
    children.push(
        Shape::Cardinality(
            Box::new(
                Cardinality::new(
                    Shape::TripleConstraint(
                        TripleConstraint::new(3, Value::AwardReceived.id(), Value::Award.id()),
                    ),
                    Bound::Inclusive(0),
                    Bound::Inclusive(1),
                ),
            ),
        ),
    );
    proof {
        assert(children@ =~= optional_schema_children());
    }
    Shape::ShapeAnd(ShapeAnd::new(1, children))
}

/// An instance of Human, or an instance of a science award.
pub open spec fn conditional_schema_children() -> Seq<Shape> {
    seq![
        Shape::TripleConstraint(TripleConstraint { label: 2, predicate: 1000000031, object: 5 }),
        Shape::TripleConstraint(
            TripleConstraint { label: 3, predicate: 1000000031, object: 11448906 },
        ),
    ]
}

/// Builds the disjunction of the two instance constraints.
pub fn conditional_schema() -> (r: Shape)
    ensures
        r matches Shape::ShapeOr(o) && o.label == 1 && o.shapes.as_seq()
            == conditional_schema_children(),
{
    let mut children: Vec<Shape> = Vec::new();
    children.push(
        Shape::TripleConstraint(
            TripleConstraint::new(2, Value::InstanceOf.id(), Value::Human.id()),
        ),
    );
    children.push(
        Shape::TripleConstraint(
            TripleConstraint::new(3, Value::InstanceOf.id(), Value::ScienceAward.id()),
        ),
    );
    proof {
        assert(children@ =~= conditional_schema_children());
    }
    Shape::ShapeOr(ShapeOr::new(1, children))
}

} // verus!
