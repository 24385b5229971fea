//! The code matrix: a table of codes with rows of one width, read-only once built.
use vstd::prelude::*;
use crate::doc::{Doc, part, same_lists, lemma_same_lists, part_of, lists_valid, lists_of, table_view, lists_from, lists_to_docs};

verus! {

/// A short token of text in one cell of the matrix.
pub type Code = String;

/// All rows have the width of the first.
pub open spec fn uniform(m: Seq<Seq<Seq<char>>>) -> bool {
    forall|i: int| 0 <= i < m.len() ==> (#[trigger] m[i]).len() == m[0].len()
}

/// A document holds a valid matrix: an array (standing alone, or as the member
/// `code_matrix` of an object) of arrays of text, all of one length.
pub open spec fn matrix_valid(d: Doc) -> bool {
    match part(d, "code_matrix"@) {
        Some(es) => lists_valid(es) && uniform(lists_of(es)),
        None => false,
    }
}

/// A table of codes whose rows all have one width.
#[derive(Debug)]
pub struct CodeMatrix {
    matrix: Vec<Vec<Code>>,
}

impl View for CodeMatrix {
    type V = Seq<Seq<Seq<char>>>;

    closed spec fn view(&self) -> Seq<Seq<Seq<char>>> {
        table_view(self.matrix@)
    }
}

impl CodeMatrix {
    /// The rows have one width.
    pub open spec fn wf(&self) -> bool {
        uniform(self@)
    }

    /// The matrix of `rows`; nothing where a row's width differs from the first row's.
    pub fn new(rows: Vec<Vec<Code>>) -> (r: Option<CodeMatrix>)
        ensures
            r is Some <==> uniform(table_view(rows@)),
            r is Some ==> r->0.wf() && r->0@ == table_view(rows@),
    {
        let ghost m = table_view(rows@);
        let n = rows.len();
        let mut i: usize = 0;
        while i < n
            invariant
                n == rows@.len(),
                m == table_view(rows@),
                i <= n,
                forall|j: int| 0 <= j < i ==> (#[trigger] m[j]).len() == m[0].len(),
            decreases n - i,
        {
            if rows[i].len() != rows[0].len() {
                assert(m[i as int].len() != m[0].len());
                return None;
            }
            i = i + 1;
        }
        Some(CodeMatrix { matrix: rows })
    }

    /// The number of rows.
    pub fn rows(&self) -> (r: usize)
        ensures
            r == self@.len(),
    {
        self.matrix.len()
    }

    /// The code at row `row`, column `col`.
    pub fn get(&self, row: usize, col: usize) -> (r: Code)
        requires
            row < self@.len(),
            col < self@[row as int].len(),
        ensures
            r@ == self@[row as int][col as int],
    {
        self.matrix[row][col].clone()
    }

    /// The matrix that a document holds; nothing where the document is not a valid matrix.
    pub fn from_json(data: &Doc) -> (r: Option<CodeMatrix>)
        ensures
            r is Some <==> matrix_valid(*data),
            r is Some ==> r->0.wf() && r->0@ == lists_of(part(*data, "code_matrix"@)->0),
    {
        let key = "code_matrix".to_owned();
        match part_of(data, &key) {
            Some(es) => match lists_from(es) {
                Some(rows) => CodeMatrix::new(rows),
                None => None,
            },
            None => None,
        }
    }

    /// The matrix as a document: an array of rows, each an array of texts.
    pub fn to_json(&self) -> (r: Option<Doc>)
        requires
            self.wf(),
        ensures
            r matches Some(Doc::Array(es)) && lists_valid(es@) && lists_of(es@) == self@,
    {
        Some(Doc::Array(lists_to_docs(&self.matrix)))
    }
}

/// Writing a matrix out as a document and reading that document back gives the same
/// matrix.
pub proof fn law_matrix_json_round_trip(m: Seq<Seq<Seq<char>>>, d: Doc)
    requires
        uniform(m),
        d matches Doc::Array(es) && lists_valid(es@) && lists_of(es@) == m,
    ensures
        matrix_valid(d),
        lists_of(part(d, "code_matrix"@)->0) == m,
{
}

/// Reading a matrix from a document and writing it out again gives an equivalent document:
/// a valid matrix whose rows are the same arrays of texts, text for text.
pub proof fn law_matrix_doc_round_trip(d: Doc, e: Doc)
    requires
        matrix_valid(d),
        e matches Doc::Array(es) && lists_valid(es@) && lists_of(es@) == lists_of(
            part(d, "code_matrix"@)->0,
        ),
    ensures
        matrix_valid(e),
        same_lists(part(e, "code_matrix"@)->0, part(d, "code_matrix"@)->0),
{
    lemma_same_lists(part(e, "code_matrix"@)->0, part(d, "code_matrix"@)->0);
}

} // verus!
