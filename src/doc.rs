//! A structured document as the puzzle reads and writes it: null, booleans, numbers,
//! text, arrays and objects.
use vstd::prelude::*;

verus! {

/// A node of a structured document.
#[derive(Debug, PartialEq)]
pub enum Doc {
    Null,
    Bool(bool),
    /// A whole number that is not negative and fits a `usize`.
    Uint(usize),
    /// Any other number, in its written form.
    Number(String),
    Text(String),
    Array(Vec<Doc>),
    /// Members in order, each a key and its value.
    Object(Vec<(String, Doc)>),
}

/// The value under `key` among the members `es`: the first member with that key.
pub open spec fn member(es: Seq<(String, Doc)>, key: Seq<char>) -> Option<Doc>
    decreases es.len(),
{
    if es.len() == 0 {
        None
    } else if es[0].0@ == key {
        Some(es[0].1)
    } else {
        member(es.drop_first(), key)
    }
}

/// The array that a document holds for `key`: the document itself where it is an array,
/// or the array value of its member `key` where it is an object.
pub open spec fn part(d: Doc, key: Seq<char>) -> Option<Seq<Doc>> {
    match d {
        Doc::Array(v) => Some(v@),
        Doc::Object(es) => match member(es@, key) {
            Some(Doc::Array(v)) => Some(v@),
            _ => None,
        },
        _ => None,
    }
}

/// Every entry is text.
pub open spec fn texts_valid(cs: Seq<Doc>) -> bool {
    forall|j: int| 0 <= j < cs.len() ==> #[trigger] cs[j] is Text
}

/// The texts of the entries.
pub open spec fn texts_of(cs: Seq<Doc>) -> Seq<Seq<char>> {
    cs.map_values(|c: Doc| c->Text_0@)
}

/// Every entry is an array of texts.
pub open spec fn lists_valid(es: Seq<Doc>) -> bool {
    forall|i: int|
        0 <= i < es.len() ==> #[trigger] es[i] is Array && texts_valid(es[i]->Array_0@)
}

/// The lists of texts of the entries.
pub open spec fn lists_of(es: Seq<Doc>) -> Seq<Seq<Seq<char>>> {
    es.map_values(|r: Doc| texts_of(r->Array_0@))
}

/// The value under `key` among the members `es`.
pub fn lookup<'a>(es: &'a Vec<(String, Doc)>, key: &String) -> (r: Option<&'a Doc>)
    ensures
        match r {
            Some(d) => member(es@, key@) == Some(*d),
            None => member(es@, key@) is None,
        },
{
    let n = es.len();
    let mut i: usize = 0;
    assert(es@.skip(0) =~= es@);
    while i < n
        invariant
            n == es@.len(),
            i <= n,
            member(es@, key@) == member(es@.skip(i as int), key@),
        decreases n - i,
    {
        assert(es@.skip(i as int)[0] == es@[i as int]);
        if es[i].0 == *key {
            return Some(&es[i].1);
        }
        assert(es@.skip(i as int).drop_first() =~= es@.skip(i + 1));
        i = i + 1;
    }
    assert(es@.skip(n as int).len() == 0);
    None
}

/// The array that `d` holds for `key` (see `part`).
pub fn part_of<'a>(d: &'a Doc, key: &String) -> (r: Option<&'a Vec<Doc>>)
    ensures
        match r {
            Some(v) => part(*d, key@) == Some(v@),
            None => part(*d, key@) is None,
        },
{
    match d {
        Doc::Array(v) => Some(v),
        Doc::Object(es) => match lookup(es, key) {
            Some(Doc::Array(v)) => Some(v),
            _ => None,
        },
        _ => None,
    }
}

/// The texts of `cs`, where every entry is text.
pub fn texts_from(cs: &Vec<Doc>) -> (r: Option<Vec<String>>)
    ensures
        r is Some <==> texts_valid(cs@),
        r is Some ==> r->0@.map_values(|c: String| c@) == texts_of(cs@),
{
    let mut out: Vec<String> = Vec::with_capacity(cs.len());
    let mut i: usize = 0;
    while i < cs.len()
        invariant
            i <= cs@.len(),
            out@.len() == i,
            forall|j: int| 0 <= j < i ==> #[trigger] cs@[j] is Text,
            forall|j: int| 0 <= j < i ==> #[trigger] out@[j]@ == cs@[j]->Text_0@,
        decreases cs@.len() - i,
    {
        match &cs[i] {
            Doc::Text(t) => {
                out.push(t.clone());
            },
            _ => {
                assert(!(cs@[i as int] is Text));
                return None;
            },
        }
        i = i + 1;
    }
    assert(out@.map_values(|c: String| c@) =~= texts_of(cs@));
    Some(out)
}

/// The texts as document entries.
pub fn texts_to_docs(ts: &Vec<String>) -> (r: Vec<Doc>)
    ensures
        texts_valid(r@),
        texts_of(r@) == ts@.map_values(|c: String| c@),
{
    let mut out: Vec<Doc> = Vec::with_capacity(ts.len());
    let mut i: usize = 0;
    while i < ts.len()
        invariant
            i <= ts@.len(),
            out@.len() == i,
            forall|j: int| 0 <= j < i ==> #[trigger] out@[j] is Text,
            forall|j: int| 0 <= j < i ==> #[trigger] out@[j]->Text_0@ == ts@[j]@,
        decreases ts@.len() - i,
    {
        out.push(Doc::Text(ts[i].clone()));
        i = i + 1;
    }
    assert(texts_of(out@) =~= ts@.map_values(|c: String| c@));
    out
}

/// The texts of a table of strings, row by row.
pub open spec fn table_view(v: Seq<Vec<String>>) -> Seq<Seq<Seq<char>>> {
    v.map_values(|row: Vec<String>| row@.map_values(|c: String| c@))
}

/// The lists of texts of `es`, where every entry is an array of texts.
pub fn lists_from(es: &Vec<Doc>) -> (r: Option<Vec<Vec<String>>>)
    ensures
        r is Some <==> lists_valid(es@),
        r is Some ==> table_view(r->0@) == lists_of(es@),
{
    let mut out: Vec<Vec<String>> = Vec::with_capacity(es.len());
    let mut i: usize = 0;
    while i < es.len()
        invariant
            i <= es@.len(),
            out@.len() == i,
            forall|j: int| 0 <= j < i ==> #[trigger] es@[j] is Array && texts_valid(es@[j]->Array_0@),
            forall|j: int| 0 <= j < i ==> (#[trigger] out@[j])@.map_values(|c: String| c@) == texts_of(es@[j]->Array_0@),
        decreases es@.len() - i,
    {
        match &es[i] {
            Doc::Array(cs) => match texts_from(cs) {
                Some(row) => {
                    out.push(row);
                },
                None => {
                    return None;
                },
            },
            _ => {
                return None;
            },
        }
        i = i + 1;
    }
    assert(table_view(out@) =~= lists_of(es@));
    Some(out)
}

/// The lists of texts as document entries, each an array of texts.
pub fn lists_to_docs(v: &Vec<Vec<String>>) -> (r: Vec<Doc>)
    ensures
        lists_valid(r@),
        lists_of(r@) == table_view(v@),
{
    let mut out: Vec<Doc> = Vec::with_capacity(v.len());
    let mut i: usize = 0;
    while i < v.len()
        invariant
            i <= v@.len(),
            out@.len() == i,
            forall|j: int| 0 <= j < i ==> #[trigger] out@[j] is Array && texts_valid(out@[j]->Array_0@),
            forall|j: int| 0 <= j < i ==> texts_of((#[trigger] out@[j])->Array_0@) == v@[j]@.map_values(|c: String| c@),
        decreases v@.len() - i,
    {
        out.push(Doc::Array(texts_to_docs(&v[i])));
        i = i + 1;
    }
    assert(lists_of(out@) =~= table_view(v@));
    out
}

/// Two lists of document entries are the same arrays of texts, text for text.
pub open spec fn same_lists(a: Seq<Doc>, b: Seq<Doc>) -> bool {
    &&& lists_valid(a)
    &&& lists_valid(b)
    &&& a.len() == b.len()
    &&& forall|i: int|
        0 <= i < a.len() ==> (#[trigger] a[i])->Array_0@.len() == b[i]->Array_0@.len()
    &&& forall|i: int, j: int|
        0 <= i < a.len() && 0 <= j < a[i]->Array_0@.len() ==> (#[trigger] a[i]->Array_0@[j])->Text_0@
            == b[i]->Array_0@[j]->Text_0@
}

/// Valid lists of entries that read as the same lists of texts are the same, text for text.
pub proof fn lemma_same_lists(a: Seq<Doc>, b: Seq<Doc>)
    requires
        lists_valid(a),
        lists_valid(b),
        lists_of(a) == lists_of(b),
    ensures
        same_lists(a, b),
{
    assert(a.len() == lists_of(a).len());
    assert forall|i: int| 0 <= i < a.len() implies (#[trigger] a[i])->Array_0@.len()
        == b[i]->Array_0@.len() by {
        assert(lists_of(a)[i] == lists_of(b)[i]);
        assert(lists_of(a)[i] == texts_of(a[i]->Array_0@));
        assert(lists_of(b)[i] == texts_of(b[i]->Array_0@));
    }
    assert forall|i: int, j: int|
        0 <= i < a.len() && 0 <= j < a[i]->Array_0@.len() implies (#[trigger] a[i]->Array_0@[j])->Text_0@
            == b[i]->Array_0@[j]->Text_0@ by {
        assert(lists_of(a)[i] == lists_of(b)[i]);
        assert(lists_of(a)[i] == texts_of(a[i]->Array_0@));
        assert(lists_of(b)[i] == texts_of(b[i]->Array_0@));
        assert(lists_of(a)[i][j] == lists_of(b)[i][j]);
    }
}

} // verus!
