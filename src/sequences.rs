//! Target sequences: ordered lists of codes that the buffer's codes are meant to match.
use vstd::prelude::*;
use crate::doc::{Doc, part, same_lists, lemma_same_lists, part_of, texts_valid, texts_of, lists_valid, lists_of, texts_from, texts_to_docs};
use crate::matrix::Code;

verus! {

/// A document holds valid sequences: an array (standing alone, or as the member
/// `sequences` of an object) of arrays of text.
pub open spec fn sequences_valid(d: Doc) -> bool {
    match part(d, "sequences"@) {
        Some(es) => lists_valid(es),
        None => false,
    }
}

/// A document is one valid sequence: an array of text.
pub open spec fn sequence_valid(d: Doc) -> bool {
    d is Array && texts_valid(d->Array_0@)
}

/// One target pattern: an ordered list of codes.
#[derive(Debug)]
pub struct Sequence {
    codes: Vec<Code>,
}

/// The target sequences of a puzzle.
#[derive(Debug)]
pub struct Programs {
    sequences: Vec<Sequence>,
}

impl View for Sequence {
    type V = Seq<Seq<char>>;

    closed spec fn view(&self) -> Seq<Seq<char>> {
        self.codes@.map_values(|c: Code| c@)
    }
}

impl View for Programs {
    type V = Seq<Seq<Seq<char>>>;

    closed spec fn view(&self) -> Seq<Seq<Seq<char>>> {
        self.sequences@.map_values(|q: Sequence| q@)
    }
}

impl Sequence {
    /// The sequence of `codes`, in order.
    pub fn new(codes: Vec<Code>) -> (r: Sequence)
        ensures
            r@ == codes@.map_values(|c: Code| c@),
    {
        Sequence { codes }
    }

    /// The sequence that a document is; nothing where it is not an array of text.
    pub fn from_json(data: &Doc) -> (r: Option<Sequence>)
        ensures
            r is Some <==> sequence_valid(*data),
            r is Some ==> r->0@ == texts_of(data->Array_0@),
    {
        match data {
            Doc::Array(cs) => match texts_from(cs) {
                Some(codes) => Some(Sequence { codes }),
                None => None,
            },
            _ => None,
        }
    }
}

impl Programs {
    /// The target sequences `sequences`, in order.
    pub fn new(sequences: Vec<Sequence>) -> (r: Programs)
        ensures
            r@ == sequences@.map_values(|q: Sequence| q@),
    {
        Programs { sequences }
    }

    /// The number of sequences.
    pub fn len(&self) -> (r: usize)
        ensures
            r == self@.len(),
    {
        self.sequences.len()
    }

    /// The sequences that a document holds; nothing where the document does not hold
    /// valid sequences.
    pub fn from_json(data: &Doc) -> (r: Option<Programs>)
        ensures
            r is Some <==> sequences_valid(*data),
            r is Some ==> r->0@ == lists_of(part(*data, "sequences"@)->0),
    {
        let key = "sequences".to_owned();
        let es = match part_of(data, &key) {
            Some(es) => es,
            None => {
                return None;
            },
        };
        let mut sequences: Vec<Sequence> = Vec::with_capacity(es.len());
        let mut i: usize = 0;
        while i < es.len()
            invariant
                i <= es@.len(),
                part(*data, "sequences"@)->0 == es@,
                sequences@.len() == i,
                forall|j: int| 0 <= j < i ==> #[trigger] es@[j] is Array && texts_valid(es@[j]->Array_0@),
                forall|j: int| 0 <= j < i ==> (#[trigger] sequences@[j])@ == texts_of(es@[j]->Array_0@),
            decreases es@.len() - i,
        {
            match Sequence::from_json(&es[i]) {
                Some(q) => {
                    sequences.push(q);
                },
                None => {
                    return None;
                },
            }
            i = i + 1;
        }
        let r = Programs { sequences };
        assert(r@ =~= lists_of(es@));
        Some(r)
    }

    /// The sequences as a document: an array of sequences, each an array of texts.
    pub fn to_json(&self) -> (r: Option<Doc>)
        ensures
            r matches Some(Doc::Array(es)) && lists_valid(es@) && lists_of(es@) == self@,
    {
        let mut out: Vec<Doc> = Vec::with_capacity(self.sequences.len());
        let mut i: usize = 0;
        while i < self.sequences.len()
            invariant
                i <= self.sequences@.len(),
                out@.len() == i,
                forall|j: int| 0 <= j < i ==> #[trigger] out@[j] is Array && texts_valid(out@[j]->Array_0@),
                forall|j: int| 0 <= j < i ==> texts_of((#[trigger] out@[j])->Array_0@) == self@[j],
            decreases self.sequences@.len() - i,
        {
            out.push(Doc::Array(texts_to_docs(&self.sequences[i].codes)));
            i = i + 1;
        }
        assert(lists_of(out@) =~= self@);
        Some(Doc::Array(out))
    }
}

/// Writing sequences out as a document and reading that document back gives the same
/// sequences.
pub proof fn law_sequences_json_round_trip(q: Seq<Seq<Seq<char>>>, d: Doc)
    requires
        d matches Doc::Array(es) && lists_valid(es@) && lists_of(es@) == q,
    ensures
        sequences_valid(d),
        lists_of(part(d, "sequences"@)->0) == q,
{
}

/// Reading sequences from a document and writing them out again gives an equivalent
/// document: valid sequences that are the same arrays of texts, text for text.
pub proof fn law_sequences_doc_round_trip(d: Doc, e: Doc)
    requires
        sequences_valid(d),
        e matches Doc::Array(es) && lists_valid(es@) && lists_of(es@) == lists_of(
            part(d, "sequences"@)->0,
        ),
    ensures
        sequences_valid(e),
        same_lists(part(e, "sequences"@)->0, part(d, "sequences"@)->0),
{
    lemma_same_lists(part(e, "sequences"@)->0, part(d, "sequences"@)->0);
}

} // verus!
