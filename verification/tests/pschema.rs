//! End-to-end validation over the example graph, one test per schema.

use pschema::pschema::PSchema;
use pschema::table::{Column, EdgeTable, ResultTable, ValidationError};
use pschema::utils::examples::{
    complex_schema, conditional_schema, optional_schema, paper_graph, paper_schema, simple_schema,
};
use pschema::utils::examples::Value;

/// The number of labels of each distinct subject of the result, subjects
/// in ascending order.
fn label_counts(rt: &ResultTable) -> Vec<u32> {
    let mut subjects: Vec<u32> = rt.subject.clone();
    subjects.sort();
    subjects.dedup();
    subjects
        .iter()
        .map(|s| {
            let row = rt.subject.iter().position(|x| x == s).unwrap();
            rt.labels[row].len() as u32
        })
        .collect()
}

#[test]
fn simple_test() {
    let result = PSchema::new(simple_schema()).validate(&paper_graph()).unwrap();
    assert_eq!(vec![1u32, 1u32], label_counts(&result));
}

#[test]
fn paper_test() {
    let result = PSchema::new(paper_schema()).validate(&paper_graph()).unwrap();
    assert_eq!(vec![4u32, 1u32], label_counts(&result));
}

#[test]
fn complex_test() {
    let result = PSchema::new(complex_schema()).validate(&paper_graph()).unwrap();
    assert_eq!(vec![4u32, 1u32, 1u32], label_counts(&result));
}

#[test]
fn reference_test() {
    let result = PSchema::new(pschema::utils::examples::reference_schema())
        .validate(&paper_graph())
        .unwrap();
    assert_eq!(vec![2u32, 1u32, 1u32], label_counts(&result));
}

#[test]
fn optional_test() {
    let result = PSchema::new(optional_schema()).validate(&paper_graph()).unwrap();
    assert_eq!(vec![4u32, 1u32, 2u32, 3u32, 1u32], label_counts(&result));
}

#[test]
fn conditional_test() {
    let result = PSchema::new(conditional_schema()).validate(&paper_graph()).unwrap();
    assert_eq!(vec![2u32, 2u32, 2u32], label_counts(&result));
}

#[test]
fn invalid_graph() {
    let subjects: Vec<u32> = [
        Value::TimBernersLee,
        Value::TimBernersLee,
        Value::London,
        Value::TimBernersLee,
        Value::TimBernersLee,
        Value::Award,
        Value::VintCerf,
        Value::CERN,
        Value::TimBernersLee,
    ]
    .iter()
    .map(Value::id)
    .collect();
    let objects: Vec<u32> = [
        Value::Human,
        Value::London,
        Value::UnitedKingdom,
        Value::CERN,
        Value::Award,
        Value::Spain,
        Value::Human,
        Value::Award,
        Value::TimBernersLee,
    ]
    .iter()
    .map(Value::id)
    .collect();
    let table = EdgeTable::from_columns(Some(subjects), None, Some(objects), None).unwrap();
    let result = PSchema::new(simple_schema()).validate(&table);
    assert_eq!(
        result.unwrap_err(),
        ValidationError::SchemaFieldMissing(Column::Predicate)
    );
}

#[test]
fn empty_graph() {
    let table = EdgeTable::from_edges(Vec::new(), Vec::new(), Vec::new()).unwrap();
    let result = PSchema::new(simple_schema()).validate(&table);
    assert_eq!(result.unwrap_err(), ValidationError::EmptyColumn(Column::Subject));
}
