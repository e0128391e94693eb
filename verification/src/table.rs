//! Columnar edge tables, the validated result table, and the error surface.
//!
//! An `EdgeTable` holds up to four columns: `subject`, `predicate` and
//! `object` (vertex and predicate identifiers) and an optional `dtype`
//! column tagging the object's datatype.  A column may be absent
//! altogether, which the field checks report before validation starts.

use vstd::prelude::*;

verus! {

/// Name of a column of an edge table.
#[derive(Clone, Copy, Debug, PartialEq, Eq, Structural)]
pub enum Column {
    Subject,
    Predicate,
    Object,
    Dtype,
}

/// An error returned by validation.  No partial result accompanies one.
#[derive(Clone, Copy, Debug, PartialEq, Eq, Structural)]
pub enum ValidationError {
    /// The edge table lacks the required column.
    SchemaFieldMissing(Column),
    /// The required column is present but holds no rows.
    EmptyColumn(Column),
    /// Two shapes of the schema carry the same label.
    DuplicateLabel(u8),
}

/// One edge row: a subject, a predicate, an object, and the object's
/// datatype tag where the table carries one.
#[derive(Clone, Copy, Debug, PartialEq, Eq)]
pub struct Edge {
    pub subject: u32,
    pub predicate: u32,
    pub object: u32,
    pub dtype: Option<u8>,
}

/// A columnar edge table.  All present columns have the same number of
/// rows.
pub struct EdgeTable {
    pub(crate) subject: Option<Vec<u32>>,
    pub(crate) predicate: Option<Vec<u32>>,
    pub(crate) object: Option<Vec<u32>>,
    pub(crate) dtype: Option<Vec<u8>>,
}

impl EdgeTable {
    /// All present columns hold the same number of rows.
    #[verifier::type_invariant]
    pub closed spec fn wf(self) -> bool {
        &&& match (self.subject, self.predicate) {
            (Some(s), Some(p)) => s@.len() == p@.len(),
            _ => true,
        }
        &&& match (self.subject, self.object) {
            (Some(s), Some(o)) => s@.len() == o@.len(),
            _ => true,
        }
        &&& match (self.subject, self.dtype) {
            (Some(s), Some(d)) => s@.len() == d@.len(),
            _ => true,
        }
        &&& match (self.predicate, self.object) {
            (Some(p), Some(o)) => p@.len() == o@.len(),
            _ => true,
        }
        &&& match (self.predicate, self.dtype) {
            (Some(p), Some(d)) => p@.len() == d@.len(),
            _ => true,
        }
        &&& match (self.object, self.dtype) {
            (Some(o), Some(d)) => o@.len() == d@.len(),
            _ => true,
        }
    }

    /// The subject column, where present.
    pub closed spec fn col_subject(self) -> Option<Seq<u32>> {
        match self.subject {
            Some(s) => Some(s@),
            None => None,
        }
    }

    /// The predicate column, where present.
    pub closed spec fn col_predicate(self) -> Option<Seq<u32>> {
        match self.predicate {
            Some(p) => Some(p@),
            None => None,
        }
    }

    /// The object column, where present.
    pub closed spec fn col_object(self) -> Option<Seq<u32>> {
        match self.object {
            Some(o) => Some(o@),
            None => None,
        }
    }

    /// The datatype column, where present.
    pub closed spec fn col_dtype(self) -> Option<Seq<u8>> {
        match self.dtype {
            Some(d) => Some(d@),
            None => None,
        }
    }

    /// Whether the given column is present.
    pub open spec fn has_column(self, column: Column) -> bool {
        match column {
            Column::Subject => self.col_subject() is Some,
            Column::Predicate => self.col_predicate() is Some,
            Column::Object => self.col_object() is Some,
            Column::Dtype => self.col_dtype() is Some,
        }
    }

    /// The number of rows of the given column; zero where it is absent.
    pub open spec fn column_len(self, column: Column) -> nat {
        match column {
            Column::Subject => match self.col_subject() {
                Some(s) => s.len(),
                None => 0,
            },
            Column::Predicate => match self.col_predicate() {
                Some(p) => p.len(),
                None => 0,
            },
            Column::Object => match self.col_object() {
                Some(o) => o.len(),
                None => 0,
            },
            Column::Dtype => match self.col_dtype() {
                Some(d) => d.len(),
                None => 0,
            },
        }
    }

    /// The rows of the table, defined when the three required columns are
    /// present.  The datatype tag of a row is taken from the `dtype`
    /// column where the table has one.
    pub open spec fn rows(self) -> Seq<Edge> {
        match (self.col_subject(), self.col_predicate(), self.col_object()) {
            (Some(s), Some(p), Some(o)) => Seq::new(
                s.len(),
                |i: int|
                    Edge {
                        subject: s[i],
                        predicate: p[i],
                        object: o[i],
                        dtype: match self.col_dtype() {
                            Some(d) => Some(d[i]),
                            None => None,
                        },
                    },
            ),
            _ => Seq::empty(),
        }
    }

    /// The number of rows of the given column, or `None` where the column
    /// is absent.
    pub fn column_state(&self, column: Column) -> (r: Option<usize>)
        ensures
            r is Some <==> self.has_column(column),
            r matches Some(n) ==> n == self.column_len(column),
    {
        match column {
            Column::Subject => match &self.subject {
                Some(c) => Some(c.len()),
                None => None,
            },
            Column::Predicate => match &self.predicate {
                Some(c) => Some(c.len()),
                None => None,
            },
            Column::Object => match &self.object {
                Some(c) => Some(c.len()),
                None => None,
            },
            Column::Dtype => match &self.dtype {
                Some(c) => Some(c.len()),
                None => None,
            },
        }
    }

    /// The rows of the table as a vector, available once the three
    /// required columns are known to be present.
    pub fn to_rows(&self) -> (r: Vec<Edge>)
        requires
            self.has_column(Column::Subject),
            self.has_column(Column::Predicate),
            self.has_column(Column::Object),
        ensures
            r@ == self.rows(),
    {
        proof {
            use_type_invariant(self);
        }
        let subject_col = match &self.subject {
            Some(c) => c,
            None => {
                proof {
                    assert(false);
                }
                return Vec::new();
            },
        };
        let predicate_col = match &self.predicate {
            Some(c) => c,
            None => {
                proof {
                    assert(false);
                }
                return Vec::new();
            },
        };
        let object_col = match &self.object {
            Some(c) => c,
            None => {
                proof {
                    assert(false);
                }
                return Vec::new();
            },
        };
        let mut out: Vec<Edge> = Vec::new();
        let mut i: usize = 0;
        proof {
            assert(self.rows().subrange(0, 0) =~= Seq::<Edge>::empty());
        }
        while i < subject_col.len()
            invariant
                i <= subject_col@.len(),
                self.wf(),
                self.col_subject() == Some(subject_col@),
                self.col_predicate() == Some(predicate_col@),
                self.col_object() == Some(object_col@),
                out@ == self.rows().subrange(0, i as int),
            decreases subject_col@.len() - i,
        {
            let dtype_val: Option<u8> = match &self.dtype {
                Some(d) => Some(d[i]),
                None => None,
            };
            out.push(
                Edge {
                    subject: subject_col[i],
                    predicate: predicate_col[i],
                    object: object_col[i],
                    dtype: dtype_val,
                },
            );
            proof {
                assert(out@ =~= self.rows().subrange(0, i + 1 as int));
            }
            i = i + 1;
        }
        proof {
            assert(self.rows().subrange(0, self.rows().len() as int) =~= self.rows());
        }
        out
    }

    /// Builds a table from the three required columns.  Returns `None`
    /// when the columns differ in length.
    pub fn from_edges(subject: Vec<u32>, predicate: Vec<u32>, object: Vec<u32>) -> (r: Option<
        EdgeTable,
    >)
        ensures
            r is Some <==> subject@.len() == predicate@.len() && subject@.len() == object@.len(),
            r matches Some(t) ==> {
                &&& t.col_subject() == Some(subject@)
                &&& t.col_predicate() == Some(predicate@)
                &&& t.col_object() == Some(object@)
                &&& t.col_dtype() is None
            },
    {
        if subject.len() == predicate.len() && subject.len() == object.len() {
            Some(
                EdgeTable {
                    subject: Some(subject),
                    predicate: Some(predicate),
                    object: Some(object),
                    dtype: None,
                },
            )
        } else {
            None
        }
    }

    /// Builds a table from all four columns.  Returns `None` when the
    /// columns differ in length.
    pub fn from_typed_edges(
        subject: Vec<u32>,
        predicate: Vec<u32>,
        object: Vec<u32>,
        dtype: Vec<u8>,
    ) -> (r: Option<EdgeTable>)
        ensures
            r is Some <==> subject@.len() == predicate@.len() && subject@.len() == object@.len()
                && subject@.len() == dtype@.len(),
            r matches Some(t) ==> {
                &&& t.col_subject() == Some(subject@)
                &&& t.col_predicate() == Some(predicate@)
                &&& t.col_object() == Some(object@)
                &&& t.col_dtype() == Some(dtype@)
            },
    {
        if subject.len() == predicate.len() && subject.len() == object.len() && subject.len()
            == dtype.len() {
            Some(
                EdgeTable {
                    subject: Some(subject),
                    predicate: Some(predicate),
                    object: Some(object),
                    dtype: Some(dtype),
                },
            )
        } else {
            None
        }
    }

    /// Builds a table from any subset of columns.  Returns `None` when two
    /// present columns differ in length.
    pub fn from_columns(
        subject: Option<Vec<u32>>,
        predicate: Option<Vec<u32>>,
        object: Option<Vec<u32>>,
        dtype: Option<Vec<u8>>,
    ) -> (r: Option<EdgeTable>)
        ensures
            r matches Some(t) ==> {
                &&& t.col_subject() == match subject {
                    Some(s) => Some(s@),
                    None => None::<Seq<u32>>,
                }
                &&& t.col_predicate() == match predicate {
                    Some(p) => Some(p@),
                    None => None::<Seq<u32>>,
                }
                &&& t.col_object() == match object {
                    Some(o) => Some(o@),
                    None => None::<Seq<u32>>,
                }
                &&& t.col_dtype() == match dtype {
                    Some(d) => Some(d@),
                    None => None::<Seq<u8>>,
                }
            },
            r is None <==> !columns_consistent(
                match subject {
                    Some(s) => Some(s@),
                    None => None,
                },
                match predicate {
                    Some(p) => Some(p@),
                    None => None,
                },
                match object {
                    Some(o) => Some(o@),
                    None => None,
                },
                match dtype {
                    Some(d) => Some(d@),
                    None => None,
                },
            ),
    {
        let mut len: Option<usize> = None;
        let mut consistent = true;
        match &subject {
            Some(c) => {
                len = Some(c.len());
            },
            None => {},
        }
        match &predicate {
            Some(c) => {
                match len {
                    Some(n) => {
                        if n != c.len() {
                            consistent = false;
                        }
                    },
                    None => {
                        len = Some(c.len());
                    },
                }
            },
            None => {},
        }
        match &object {
            Some(c) => {
                match len {
                    Some(n) => {
                        if n != c.len() {
                            consistent = false;
                        }
                    },
                    None => {
                        len = Some(c.len());
                    },
                }
            },
            None => {},
        }
        match &dtype {
            Some(c) => {
                match len {
                    Some(n) => {
                        if n != c.len() {
                            consistent = false;
                        }
                    },
                    None => {},
                }
            },
            None => {},
        }
        if consistent {
            Some(EdgeTable { subject, predicate, object, dtype })
        } else {
            None
        }
    }
}

/// Whether every pair of present columns has the same length.
pub open spec fn columns_consistent(
    subject: Option<Seq<u32>>,
    predicate: Option<Seq<u32>>,
    object: Option<Seq<u32>>,
    dtype: Option<Seq<u8>>,
) -> bool {
    &&& match (subject, predicate) {
        (Some(s), Some(p)) => s.len() == p.len(),
        _ => true,
    }
    &&& match (subject, object) {
        (Some(s), Some(o)) => s.len() == o.len(),
        _ => true,
    }
    &&& match (subject, dtype) {
        (Some(s), Some(d)) => s.len() == d.len(),
        _ => true,
    }
    &&& match (predicate, object) {
        (Some(p), Some(o)) => p.len() == o.len(),
        _ => true,
    }
    &&& match (predicate, dtype) {
        (Some(p), Some(d)) => p.len() == d.len(),
        _ => true,
    }
    &&& match (object, dtype) {
        (Some(o), Some(d)) => o.len() == d.len(),
        _ => true,
    }
}

/// One row of the validated subset, at the specification level.
pub struct ResultRow {
    pub subject: u32,
    pub predicate: u32,
    pub object: u32,
    pub labels: Seq<u8>,
}

/// The validated subset of the edge table: one row per edge whose subject
/// carries at least one label, annotated with the subject's labels.
#[derive(Debug)]
pub struct ResultTable {
    pub subject: Vec<u32>,
    pub predicate: Vec<u32>,
    pub object: Vec<u32>,
    pub labels: Vec<Vec<u8>>,
}

impl ResultTable {
    /// The four columns are equally long.
    pub open spec fn wf(self) -> bool {
        self.subject@.len() == self.predicate@.len() && self.subject@.len() == self.object@.len()
            && self.subject@.len() == self.labels@.len()
    }

    /// The rows of the table.
    pub open spec fn rows(self) -> Seq<ResultRow> {
        Seq::new(
            self.subject@.len(),
            |i: int|
                ResultRow {
                    subject: self.subject@[i],
                    predicate: self.predicate@[i],
                    object: self.object@[i],
                    labels: self.labels@[i]@,
                },
        )
    }

    /// The number of rows.
    pub fn height(&self) -> (r: usize)
        ensures
            r == self.rows().len(),
    {
        self.subject.len()
    }
}

} // verus!
