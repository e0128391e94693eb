//! Concrete validation scenarios: small graphs with known labellings,
//! the error surface, and the behaviour of the supporting modules.

use pschema::dtype::DataType;
use pschema::id::Id;
use pschema::pschema::PSchema;
use pschema::shape::shex::{Bound, Cardinality, Shape, ShapeAnd, ShapeOr, ShapeReference,
    TripleConstraint};
use pschema::table::{Column, EdgeTable, ResultTable, ValidationError};
use pschema::utils::symbol_table::SymbolTable;

/// The labels of vertex `v` in the result, where `v` has an edge.
fn labels_of(rt: &ResultTable, v: u32) -> Option<Vec<u8>> {
    rt.subject
        .iter()
        .position(|s| *s == v)
        .map(|row| rt.labels[row].clone())
}

fn table_of(edges: &[(u32, u32, u32)]) -> EdgeTable {
    let subjects = edges.iter().map(|e| e.0).collect();
    let predicates = edges.iter().map(|e| e.1).collect();
    let objects = edges.iter().map(|e| e.2).collect();
    EdgeTable::from_edges(subjects, predicates, objects).unwrap()
}

#[test]
fn simple_constraint_labels_humans() {
    // One triple constraint: vertices with an outgoing (31, 5) edge are
    // labelled 1; others stay unlabelled.
    let schema = Shape::TripleConstraint(TripleConstraint::new(1, 31, 5));
    let table = table_of(&[(80, 31, 5), (92743, 31, 5), (84, 17, 145)]);
    let result = PSchema::new(schema).validate(&table).unwrap();
    assert_eq!(labels_of(&result, 80), Some(vec![1]));
    assert_eq!(labels_of(&result, 92743), Some(vec![1]));
    assert_eq!(labels_of(&result, 84), None);
}

#[test]
fn composite_and_needs_all_children() {
    let schema = Shape::ShapeAnd(ShapeAnd::new(
        1,
        vec![
            Shape::TripleConstraint(TripleConstraint::new(2, 31, 5)),
            Shape::TripleConstraint(TripleConstraint::new(3, 19, 84)),
        ],
    ));
    let table = table_of(&[(80, 31, 5), (80, 19, 84), (92743, 31, 5)]);
    let result = PSchema::new(schema).validate(&table).unwrap();
    let eighty = labels_of(&result, 80).unwrap();
    assert!(eighty.contains(&2) && eighty.contains(&3) && eighty.contains(&1));
    assert_eq!(labels_of(&result, 92743), Some(vec![2]));
}

#[test]
fn reference_follows_object_labels() {
    let schema = Shape::ShapeReference(Box::new(ShapeReference::new(
        1,
        19,
        Shape::TripleConstraint(TripleConstraint::new(2, 17, 145)),
    )));
    let table = table_of(&[(80, 19, 84), (84, 17, 145)]);
    let result = PSchema::new(schema).validate(&table).unwrap();
    assert_eq!(labels_of(&result, 80), Some(vec![1]));
    assert_eq!(labels_of(&result, 84), Some(vec![2]));
    // Vertex 145 has no outgoing edge and no label: it is absent.
    assert_eq!(labels_of(&result, 145), None);
}

#[test]
fn cardinality_bounds_award_count() {
    // A Human with zero or one awards is labelled 1; one with two is
    // not.
    let award = 166;
    let schema = Shape::ShapeAnd(ShapeAnd::new(
        1,
        vec![
            Shape::TripleConstraint(TripleConstraint::new(2, 31, 5)),
            Shape::Cardinality(Box::new(Cardinality::new(
                Shape::TripleConstraint(TripleConstraint::new(3, award, 900)),
                Bound::Inclusive(0),
                Bound::Inclusive(1),
            ))),
        ],
    ));
    let table = table_of(&[
        (10, 31, 5),
        (11, 31, 5),
        (11, award, 900),
        (12, 31, 5),
        (12, award, 900),
        (12, award, 900),
    ]);
    let result = PSchema::new(schema).validate(&table).unwrap();
    assert!(labels_of(&result, 10).unwrap().contains(&1));
    assert!(labels_of(&result, 11).unwrap().contains(&1));
    assert!(!labels_of(&result, 12).unwrap().contains(&1));
}

#[test]
fn disjunction_accepts_either_child() {
    let schema = Shape::ShapeOr(ShapeOr::new(
        1,
        vec![
            Shape::TripleConstraint(TripleConstraint::new(2, 31, 5)),
            Shape::TripleConstraint(TripleConstraint::new(3, 31, 11448906)),
        ],
    ));
    let table = table_of(&[(80, 31, 5), (3320352, 31, 11448906)]);
    let result = PSchema::new(schema).validate(&table).unwrap();
    assert!(labels_of(&result, 80).unwrap().contains(&1));
    assert!(labels_of(&result, 3320352).unwrap().contains(&1));
}

#[test]
fn reference_to_composite_sees_its_label() {
    // The conjunction fires on the destination vertex one superstep
    // before the reference reads the destination's labels.
    let schema = Shape::ShapeReference(Box::new(ShapeReference::new(
        1,
        19,
        Shape::ShapeAnd(ShapeAnd::new(
            2,
            vec![
                Shape::TripleConstraint(TripleConstraint::new(3, 31, 5)),
                Shape::TripleConstraint(TripleConstraint::new(4, 17, 145)),
            ],
        )),
    )));
    let table = table_of(&[(7, 19, 8), (8, 31, 5), (8, 17, 145)]);
    let result = PSchema::new(schema).validate(&table).unwrap();
    assert_eq!(labels_of(&result, 7), Some(vec![1]));
    assert_eq!(labels_of(&result, 8), Some(vec![3, 4, 2]));
}

#[test]
fn exclusive_bounds_need_a_strict_count() {
    // An exclusive zero lower bound asks for at least one occurrence;
    // an inclusive upper bound of two allows at most two.
    let schema = Shape::Cardinality(Box::new(Cardinality::new(
        Shape::TripleConstraint(TripleConstraint::new(2, 166, 900)),
        Bound::Exclusive(0),
        Bound::Inclusive(2),
    )));
    let table = table_of(&[
        (10, 31, 5),
        (11, 166, 900),
        (12, 166, 900),
        (12, 166, 900),
        (12, 166, 900),
    ]);
    let result = PSchema::new(schema).validate(&table).unwrap();
    // No award: no label at all, so vertex 10 is left out.
    assert_eq!(labels_of(&result, 10), None);
    // One award: the constraint's label from the edge, and once more
    // from the cardinality node.
    assert_eq!(labels_of(&result, 11), Some(vec![2, 2]));
    // Three awards: over the upper bound, so only the per-edge labels.
    assert_eq!(labels_of(&result, 12), Some(vec![2, 2, 2]));
}

#[test]
fn missing_predicate_column_is_reported() {
    let table =
        EdgeTable::from_columns(Some(vec![80, 84]), None, Some(vec![5, 145]), None).unwrap();
    let schema = Shape::TripleConstraint(TripleConstraint::new(1, 31, 5));
    let result = PSchema::new(schema).validate(&table);
    assert_eq!(
        result.unwrap_err(),
        ValidationError::SchemaFieldMissing(Column::Predicate)
    );
}

#[test]
fn empty_object_column_is_reported() {
    let table = EdgeTable::from_columns(
        Some(vec![80]),
        Some(vec![31]),
        Some(Vec::new()),
        None,
    );
    // Unequal column lengths are refused at construction already.
    assert!(table.is_none());
    let empty = EdgeTable::from_edges(Vec::new(), Vec::new(), Vec::new()).unwrap();
    let schema = Shape::TripleConstraint(TripleConstraint::new(1, 31, 5));
    let result = PSchema::new(schema).validate(&empty);
    assert_eq!(result.unwrap_err(), ValidationError::EmptyColumn(Column::Subject));
}

#[test]
fn duplicate_labels_are_refused() {
    let schema = Shape::ShapeAnd(ShapeAnd::new(
        1,
        vec![
            Shape::TripleConstraint(TripleConstraint::new(2, 31, 5)),
            Shape::TripleConstraint(TripleConstraint::new(2, 19, 84)),
        ],
    ));
    let table = table_of(&[(80, 31, 5)]);
    let result = PSchema::new(schema).validate(&table);
    assert_eq!(result.unwrap_err(), ValidationError::DuplicateLabel(2));
}

#[test]
fn typed_literal_constraint_reads_dtype() {
    let schema = Shape::ShapeAnd(ShapeAnd::new(
        1,
        vec![
            Shape::TripleConstraint(TripleConstraint::new(2, 31, 5)),
            Shape::ShapeLiteral(pschema::shape::shex::ShapeLiteral::new(
                3,
                569,
                DataType::DateTime,
            )),
        ],
    ));
    let table = EdgeTable::from_typed_edges(
        vec![80, 80, 92743],
        vec![31, 569, 31],
        vec![5, 4000, 5],
        vec![DataType::Entity.as_code(), DataType::DateTime.as_code(), DataType::Entity.as_code()],
    )
    .unwrap();
    let result = PSchema::new(schema).validate(&table).unwrap();
    let eighty = labels_of(&result, 80).unwrap();
    assert!(eighty.contains(&2) && eighty.contains(&3) && eighty.contains(&1));
    let cerf = labels_of(&result, 92743).unwrap();
    assert!(cerf.contains(&2) && !cerf.contains(&1));
}

#[test]
fn assigned_labels_stay_in_schema_universe() {
    // Every label of the result is a label of the schema, and on this
    // input every schema label is assigned somewhere.
    let result = PSchema::new(pschema::utils::examples::complex_schema())
        .validate(&pschema::utils::examples::paper_graph())
        .unwrap();
    let mut seen = [false; 6];
    for row in &result.labels {
        for l in row {
            assert!((1..=5).contains(l));
            seen[*l as usize] = true;
        }
    }
    for l in 1..=5 {
        assert!(seen[l]);
    }
}

#[test]
fn result_height_counts_rows() {
    let schema = Shape::TripleConstraint(TripleConstraint::new(1, 31, 5));
    let table = table_of(&[(80, 31, 5), (80, 17, 84), (84, 17, 145)]);
    let result = PSchema::new(schema).validate(&table).unwrap();
    // Vertex 80 carries a label and has two outgoing edges; vertex 84
    // carries none.
    assert_eq!(2, result.height());
}

#[test]
fn mismatched_columns_are_refused() {
    assert!(EdgeTable::from_edges(vec![80], vec![31, 17], vec![5]).is_none());
}

#[test]
fn id_parse_entities_and_properties() {
    assert_eq!(Id::parse("Q80"), Some(Id::Qid(80)));
    assert_eq!(Id::parse("P31"), Some(Id::Pid(31)));
    assert_eq!(Id::parse("L99"), Some(Id::Lid(99)));
    assert_eq!(Id::parse("F3-F2"), Some(Id::Fid(3, 2)));
    assert_eq!(Id::parse("S3-S1"), Some(Id::Sid(3, 1)));
    assert_eq!(Id::parse(""), None);
    assert_eq!(Id::parse("Q"), None);
    assert_eq!(Id::parse("Q12a"), None);
    assert_eq!(Id::parse("X5"), None);
    assert_eq!(Id::parse("F3"), None);
}

#[test]
fn id_packing_bands() {
    assert_eq!(Id::Qid(80).to_u64(), 80);
    assert_eq!(Id::Pid(31).to_u64(), 1_000_000_031);
    assert_eq!(Id::Lid(7).to_u64(), 2_000_000_007);
    assert_eq!(Id::DataType(DataType::DateTime).to_u64(), 3_000_000_004);
    assert_eq!(Id::Fid(3, 2).to_u64(), 202_000_000_003);
    assert_eq!(Id::Sid(3, 1).to_u64(), 112_000_000_003);
}

#[test]
fn dtype_codes_are_stable() {
    assert_eq!(DataType::Quantity.as_code(), 1);
    assert_eq!(DataType::Coordinate.as_code(), 2);
    assert_eq!(DataType::String.as_code(), 3);
    assert_eq!(DataType::DateTime.as_code(), 4);
    assert_eq!(DataType::Entity.as_code(), 5);
}

#[test]
fn symbol_table_round_trip() {
    let mut table = SymbolTable::new();
    assert_eq!(table.insert("Human"), 0);
    assert_eq!(table.insert("Researcher"), 1);
    assert_eq!(table.get(0), "Human");
    assert_eq!(table.get(1), "Researcher");
    assert_eq!(table.get(7), "");
}

#[test]
fn symbol_table_insert_overwrites() {
    let mut table = SymbolTable::new();
    table.insert("Human");
    table.insert("Human");
    // The second insertion moved the label to id 1.
    assert_eq!(table.get(1), "Human");
    assert_eq!(table.get(0), "");
}

#[test]
fn shape_getters_round_trip() {
    let inner = Shape::TripleConstraint(TripleConstraint::new(2, 17, 145));
    let reference = ShapeReference::new(1, 19, inner.clone());
    assert_eq!(reference.get_reference().get_label(), 2);
    let and = ShapeAnd::new(1, vec![inner.clone()]);
    assert_eq!(and.get_shapes().len(), 1);
    let card = Cardinality::new(inner, Bound::Inclusive(0), Bound::Exclusive(2));
    assert_eq!(card.get_shape().get_label(), 2);
}
