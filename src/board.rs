//! Checks that a whole puzzle document is well formed before anything is built from it.
use vstd::prelude::*;
use crate::buffer::{Buffer, buffer_valid};
use crate::doc::{Doc, part, part_of, texts_valid, lists_valid, lists_of, texts_from};
use crate::matrix::{matrix_valid, uniform};
use crate::sequences::{sequences_valid, sequence_valid};

verus! {

/// A document holds a whole valid puzzle: a valid buffer, valid sequences and a valid
/// code matrix.
pub open spec fn board_valid(d: Doc) -> bool {
    buffer_valid(d) && sequences_valid(d) && matrix_valid(d)
}

/// Whether `data` holds a valid buffer.
pub fn buffer_is_valid(data: &Doc) -> (r: bool)
    ensures
        r == buffer_valid(*data),
{
    let key = "buffer".to_owned();
    match part_of(data, &key) {
        Some(es) => Buffer::entries_ok(es),
        None => false,
    }
}

/// Whether `data` is one valid sequence.
fn sequence_is_valid(data: &Doc) -> (r: bool)
    ensures
        r == sequence_valid(*data),
{
    match data {
        Doc::Array(cs) => texts_from(cs).is_some(),
        _ => false,
    }
}

/// Whether `data` holds valid sequences.
pub fn sequences_is_valid(data: &Doc) -> (r: bool)
    ensures
        r == sequences_valid(*data),
{
    let key = "sequences".to_owned();
    let es = match part_of(data, &key) {
        Some(es) => es,
        None => {
            return false;
        },
    };
    let mut i: usize = 0;
    while i < es.len()
        invariant
            i <= es@.len(),
            part(*data, "sequences"@)->0 == es@,
            forall|j: int| 0 <= j < i ==> #[trigger] es@[j] is Array && texts_valid(es@[j]->Array_0@),
        decreases es@.len() - i,
    {
        if !sequence_is_valid(&es[i]) {
            return false;
        }
        i = i + 1;
    }
    true
}

/// Whether `row` is an array of text, of length `width` where that is given.
fn row_is_valid(row: &Doc, width: Option<usize>) -> (r: bool)
    ensures
        r == (sequence_valid(*row) && (width matches Some(w) ==> row->Array_0@.len() == w)),
{
    match row {
        Doc::Array(items) => {
            let row_type_valid = texts_from(items).is_some();
            match width {
                Some(w) => items.len() == w && row_type_valid,
                None => row_type_valid,
            }
        },
        _ => false,
    }
}

/// Whether `data` holds a valid code matrix.
pub fn code_matrix_is_valid(data: &Doc) -> (r: bool)
    ensures
        r == matrix_valid(*data),
{
    let key = "code_matrix".to_owned();
    let es = match part_of(data, &key) {
        Some(es) => es,
        None => {
            return false;
        },
    };
    let mut width: Option<usize> = None;
    let mut i: usize = 0;
    while i < es.len()
        invariant
            i <= es@.len(),
            part(*data, "code_matrix"@)->0 == es@,
            forall|j: int| 0 <= j < i ==> #[trigger] es@[j] is Array && texts_valid(es@[j]->Array_0@),
            i == 0 <==> width is None,
            i > 0 ==> width->0 == es@[0]->Array_0@.len(),
            forall|j: int| 0 <= j < i ==> (#[trigger] es@[j])->Array_0@.len() == es@[0]->Array_0@.len(),
        decreases es@.len() - i,
    {
        if !row_is_valid(&es[i], width) {
            proof {
                if i > 0 && sequence_valid(es@[i as int]) {
                    assert(lists_of(es@)[i as int].len() != lists_of(es@)[0].len());
                }
            }
            return false;
        }
        match &es[i] {
            Doc::Array(items) => {
                width = Some(items.len());
            },
            _ => {},
        }
        i = i + 1;
    }
    assert(lists_valid(es@));
    assert(uniform(lists_of(es@)));
    true
}

/// The document, where it holds a whole valid puzzle; nothing otherwise.
pub fn valid_board(data: Doc) -> (r: Option<Doc>)
    ensures
        r is Some <==> board_valid(data),
        r matches Some(d) ==> d == data,
{
    if buffer_is_valid(&data) && sequences_is_valid(&data) && code_matrix_is_valid(&data) {
        Some(data)
    } else {
        None
    }
}

} // verus!
