//! Level counts of the schedule for each example schema.

use pschema::shape::shape_tree::ShapeTree;
use pschema::shape::shex::{Shape, ShapeAnd, ShapeOr, ShapeReference, TripleConstraint};
use pschema::utils::examples::{
    complex_schema, optional_schema, paper_schema, reference_schema, simple_schema,
};
use pschema::utils::examples::Value;

#[test]
fn simple_schema_test() {
    assert_eq!(1, ShapeTree::new(simple_schema()).shapes.len());
}

#[test]
fn paper_schema_test() {
    assert_eq!(2, ShapeTree::new(paper_schema()).shapes.len());
}

#[test]
fn complex_schema_test() {
    assert_eq!(3, ShapeTree::new(complex_schema()).shapes.len());
}

#[test]
fn reference_schema_test() {
    assert_eq!(3, ShapeTree::new(reference_schema()).shapes.len());
}

#[test]
fn optional_schema_test() {
    assert_eq!(3, ShapeTree::new(optional_schema()).shapes.len());
}

#[test]
fn nested_or_levels() {
    // A conjunction whose second child is itself a disjunction: two
    // composite levels above the leaves.
    let inner = Shape::ShapeOr(ShapeOr::new(
        3,
        vec![
            Shape::TripleConstraint(TripleConstraint::new(
                4,
                Value::InstanceOf.id(),
                Value::Human.id(),
            )),
            Shape::TripleConstraint(TripleConstraint::new(
                5,
                Value::InstanceOf.id(),
                Value::ScienceAward.id(),
            )),
        ],
    ));
    let schema = Shape::ShapeAnd(ShapeAnd::new(
        1,
        vec![
            Shape::TripleConstraint(TripleConstraint::new(
                2,
                Value::InstanceOf.id(),
                Value::Human.id(),
            )),
            inner,
        ],
    ));
    assert_eq!(3, ShapeTree::new(schema).shapes.len());
}

#[test]
fn and_reference_levels() {
    // A conjunction holding a reference: the referenced leaf stands one
    // level below the reference, which stands below the conjunction.
    let schema = Shape::ShapeAnd(ShapeAnd::new(
        1,
        vec![
            Shape::TripleConstraint(TripleConstraint::new(
                2,
                Value::InstanceOf.id(),
                Value::Human.id(),
            )),
            Shape::ShapeReference(Box::new(ShapeReference::new(
                3,
                Value::BirthPlace.id(),
                Shape::TripleConstraint(TripleConstraint::new(
                    4,
                    Value::Country.id(),
                    Value::UnitedKingdom.id(),
                )),
            ))),
        ],
    ));
    assert_eq!(3, ShapeTree::new(schema).shapes.len());
}

#[test]
fn iterations_counts_levels() {
    assert_eq!(2u8, ShapeTree::new(paper_schema()).iterations());
}

#[test]
fn levels_hold_children_below_parents() {
    // The root stands at the top level, its children one below, and the
    // referenced leaf at the bottom.
    let tree = ShapeTree::new(complex_schema());
    let labels_at = |k: usize| -> Vec<u8> {
        tree.shapes[k].iter().map(|s| s.get_label()).collect()
    };
    assert_eq!(labels_at(2), vec![1]);
    assert_eq!(labels_at(1), vec![2, 3, 5]);
    assert_eq!(labels_at(0), vec![4]);
}
