//! Predicates, queries and the units that a scan consumes and produces.

use crate::seqs::{first_where, lemma_first_where};
use crate::text::{chars_of, contains_chars, enclosed, has_infix, is_less, lex_less};
use crate::types::error::ZenithError;
use crate::types::grammar::{parse, parse_predicate};
use vstd::prelude::*;

verus! {

/// Operations on a query predicate.
#[derive(Clone, Copy, Debug, PartialEq, Eq, Structural)]
pub enum PredOp {
    EQ,
    NE,
    LT,
    GT,
    LE,
    GE,
    CONTAINS,
}

/// What `op` decides for a cell `candidate` against the comparison value `value`.
/// The four order comparisons follow dictionary order on the text, never numeric
/// value. Dictionary order is total, so "not after" stands for "before or equal".
pub open spec fn holds(op: PredOp, candidate: Seq<char>, value: Seq<char>) -> bool {
    match op {
        PredOp::EQ => candidate == value,
        PredOp::NE => candidate != value,
        PredOp::LT => lex_less(candidate, value),
        PredOp::GT => lex_less(value, candidate),
        PredOp::LE => !lex_less(value, candidate),
        PredOp::GE => !lex_less(candidate, value),
        PredOp::CONTAINS => has_infix(candidate, value),
    }
}

/// A predicate as a mathematical value.
pub struct PredicateView {
    pub field: Seq<char>,
    pub op: PredOp,
    pub value: Seq<char>,
}

impl PredicateView {
    /// Whether `candidate` satisfies the predicate.
    pub open spec fn satisfied_by(self, candidate: Seq<char>) -> bool {
        holds(self.op, candidate, self.value)
    }
}

/// Used for evaluating values in rows, or names of files.
#[derive(Debug)]
pub struct Predicate {
    pub field: String,
    op: PredOp,
    value: String,
}

impl View for Predicate {
    type V = PredicateView;

    closed spec fn view(&self) -> PredicateView {
        PredicateView { field: self.field@, op: self.op, value: self.value@ }
    }
}

impl DeepView for Predicate {
    type V = PredicateView;

    open spec fn deep_view(&self) -> PredicateView {
        self@
    }
}

impl Predicate {
    /// A predicate that holds `field` against `value` by `op`.
    pub fn new(field: String, op: PredOp, value: String) -> (p: Predicate)
        ensures
            p@ == (PredicateView { field: field@, op, value: value@ }),
    {
        Predicate { field, op, value }
    }

    /// The operator of the predicate.
    pub fn op(&self) -> (op: PredOp)
        ensures
            op == self@.op,
    {
        self.op
    }

    /// The comparison value of the predicate.
    pub fn value(&self) -> (value: &String)
        ensures
            value@ == self@.value,
    {
        &self.value
    }

    /// The name of the field that the predicate reads, or the pattern that it applies
    /// to a filename.
    pub fn field(&self) -> (field: &String)
        ensures
            field@ == self@.field,
    {
        &self.field
    }

    /// Whether `value` satisfies the predicate.
    pub fn satisfied_by(&self, value: &String) -> (r: bool)
        ensures
            r == self@.satisfied_by(value@),
    {
        match self.op {
            PredOp::EQ => *value == self.value,
            PredOp::NE => !(*value == self.value),
            PredOp::LT => is_less(&chars_of(value.as_str()), &chars_of(self.value.as_str())),
            PredOp::GT => is_less(&chars_of(self.value.as_str()), &chars_of(value.as_str())),
            PredOp::LE => !is_less(&chars_of(self.value.as_str()), &chars_of(value.as_str())),
            PredOp::GE => !is_less(&chars_of(value.as_str()), &chars_of(self.value.as_str())),
            PredOp::CONTAINS => contains_chars(
                &chars_of(value.as_str()),
                &chars_of(self.value.as_str()),
            ),
        }
    }
}

/// `std::path::PathBuf`, carried as an opaque value.
#[verifier::external_type_specification]
#[verifier::external_body]
pub struct ExPathBuf(std::path::PathBuf);

/// Metadata for a file in a collection.
pub struct FileMetadata {
    pub filename: String,
    pub collection: String,
    pub filepath: std::path::PathBuf,
    pub size: u64,
}

/// A row of cells as a mathematical value.
pub type Row = Seq<Seq<char>>;

/// A header and its records as a mathematical value.
pub struct CSVDataView {
    pub header: Row,
    pub records: Seq<Row>,
}

impl CSVDataView {
    /// Every record has one cell for each name of the header.
    pub open spec fn wf(self) -> bool {
        forall|i: int| 0 <= i < self.records.len() ==> (#[trigger] self.records[i]).len()
            == self.header.len()
    }

    /// There are records only under a header.
    pub open spec fn headed(self) -> bool {
        self.header.len() == 0 ==> self.records.len() == 0
    }
}

/// A header with the records that belong to it.
pub struct CSVData {
    pub header: Vec<String>,
    pub records: Vec<Vec<String>>,
}

impl View for CSVData {
    type V = CSVDataView;

    open spec fn view(&self) -> CSVDataView {
        CSVDataView { header: self.header.deep_view(), records: self.records.deep_view() }
    }
}

impl DeepView for CSVData {
    type V = CSVDataView;

    open spec fn deep_view(&self) -> CSVDataView {
        self@
    }
}

/// A query as a mathematical value.
pub struct DataQueryView {
    pub fields: Seq<Seq<char>>,
    pub predicates: Seq<PredicateView>,
    pub filename_regex_predicates: Seq<PredicateView>,
}

/// A query description: the fields to return (none stands for all of them), the
/// predicates on rows, and the predicates on filenames, whose `field` is a regular
/// expression.
pub struct DataQuery {
    pub fields: Vec<String>,
    pub predicates: Vec<Predicate>,
    pub filename_regex_predicates: Vec<Predicate>,
}

impl View for DataQuery {
    type V = DataQueryView;

    open spec fn view(&self) -> DataQueryView {
        DataQueryView {
            fields: self.fields.deep_view(),
            predicates: self.predicates.deep_view(),
            filename_regex_predicates: self.filename_regex_predicates.deep_view(),
        }
    }
}

/// Whether a string fails the grammar of predicates, as a test on the string.
pub open spec fn malformed() -> spec_fn(Seq<char>) -> bool {
    |s: Seq<char>| parse_predicate(s) is None
}

/// The predicate on rows that a string stands for, if it stands for one.
pub open spec fn on_rows() -> spec_fn(Seq<char>) -> Option<PredicateView> {
    |s: Seq<char>|
        match parse_predicate(s) {
            Some(parsed) => if parsed.on_filename {
                None
            } else {
                Some(parsed.predicate)
            },
            None => None,
        }
}

/// The predicate on filenames that a string stands for, if it stands for one.
pub open spec fn on_filenames() -> spec_fn(Seq<char>) -> Option<PredicateView> {
    |s: Seq<char>|
        match parse_predicate(s) {
            Some(parsed) => if parsed.on_filename {
                Some(parsed.predicate)
            } else {
                None
            },
            None => None,
        }
}

/// The message for a string that does not follow the grammar.
pub open spec fn malformed_text(s: Seq<char>) -> Seq<char> {
    "Incorrect format on predicate '"@ + s + "'"@
}

/// The query that fields and predicate strings make, where every string follows the
/// grammar.
pub open spec fn query_of(fields: Seq<Seq<char>>, texts: Seq<Seq<char>>) -> DataQueryView {
    DataQueryView {
        fields,
        predicates: texts.filter_map(on_rows()),
        filename_regex_predicates: texts.filter_map(on_filenames()),
    }
}

impl DataQuery {
    /// Creates a query. The fields are taken as they are. Each of the strings is
    /// parsed as `field OP value` into a predicate on rows, or as `HAS regex OP value`
    /// into a predicate on filenames; both lists keep the order of the strings. The
    /// value may be empty. The first string that does not follow the grammar fails
    /// the query with a `PredicateError` that quotes it.
    pub fn new(fields: Vec<String>, string_predicates: Vec<String>) -> (r: Result<
        DataQuery,
        ZenithError,
    >)
        ensures
            match r {
                Ok(query) => {
                    &&& first_where(string_predicates.deep_view(), malformed())
                        == string_predicates.len()
                    &&& query@ == query_of(fields.deep_view(), string_predicates.deep_view())
                },
                Err(e) => {
                    let i = first_where(string_predicates.deep_view(), malformed());
                    &&& i < string_predicates.len()
                    &&& e matches ZenithError::PredicateError(text)
                    &&& text@ == malformed_text(string_predicates.deep_view()[i])
                },
            },
    {
        let ghost texts = string_predicates.deep_view();
        let mut predicates: Vec<Predicate> = Vec::new();
        let mut filename_regex_predicates: Vec<Predicate> = Vec::new();
        let mut i: usize = 0;
        assert(texts.take(0).len() == 0);
        assert(predicates.deep_view() =~= texts.take(0).filter_map(on_rows()));
        assert(filename_regex_predicates.deep_view() =~= texts.take(0).filter_map(on_filenames()));
        while i < string_predicates.len()
            invariant
                i <= string_predicates.len(),
                texts == string_predicates.deep_view(),
                forall|j: int| 0 <= j < i ==> !malformed()(#[trigger] texts[j]),
                predicates.deep_view() == texts.take(i as int).filter_map(on_rows()),
                filename_regex_predicates.deep_view() == texts.take(i as int).filter_map(
                    on_filenames(),
                ),
            decreases string_predicates.len() - i,
        {
            let ghost rows_before = predicates.deep_view();
            let ghost names_before = filename_regex_predicates.deep_view();
            proof {
                assert(texts[i as int] == string_predicates[i as int]@);
                assert(texts.take(i + 1).drop_last() == texts.take(i as int));
                assert(texts.take(i + 1).last() == texts[i as int]);
            }
            match parse(string_predicates[i].as_str()) {
                Some((true, predicate)) => {
                    filename_regex_predicates.push(predicate);
                    assert(filename_regex_predicates.deep_view() =~= names_before + seq![
                        predicate@,
                    ]);
                },
                Some((false, predicate)) => {
                    predicates.push(predicate);
                    assert(predicates.deep_view() =~= rows_before + seq![predicate@]);
                },
                None => {
                    proof {
                        lemma_first_where(texts, malformed(), i as int);
                    }
                    return Err(
                        ZenithError::PredicateError(
                            enclosed(
                                "Incorrect format on predicate '",
                                string_predicates[i].as_str(),
                                "'",
                            ),
                        ),
                    );
                },
            }
            i += 1;
        }
        proof {
            lemma_first_where(texts, malformed(), i as int);
            assert(texts.take(i as int) == texts);
        }
        Ok(DataQuery { fields, predicates, filename_regex_predicates })
    }
}

} // verus!
