//! The selection buffer: a fixed number of slots, filled from the left, each holding a
//! raw matrix index that reads as a column at even positions and as a row at odd ones.
use vstd::prelude::*;
use crate::doc::{Doc, part, part_of};
use crate::matrix::{Code, CodeMatrix};

verus! {

/// Slots are filled from the left without gaps: once a slot is empty, so are all after it.
pub open spec fn contiguous(s: Seq<Option<usize>>) -> bool {
    forall|i: int, j: int| 0 <= i < j < s.len() && #[trigger] s[i] is None ==> #[trigger] s[j] is None
}

/// Every slot is filled.
pub open spec fn all_filled(s: Seq<Option<usize>>) -> bool {
    forall|i: int| 0 <= i < s.len() ==> #[trigger] s[i] is Some
}

/// The buffer of capacity `c` with no slot filled.
pub open spec fn empty_slots(c: nat) -> Seq<Option<usize>> {
    Seq::new(c, |i: int| None)
}

/// Slot `k` is the first empty one: it is empty and every slot before it is filled.
pub open spec fn first_empty(s: Seq<Option<usize>>, k: int) -> bool {
    &&& 0 <= k < s.len()
    &&& s[k] is None
    &&& forall|j: int| 0 <= j < k ==> #[trigger] s[j] is Some
}

/// Slot `k` is the one that a pop empties: the slot just before the first empty slot
/// after position 0, or the last slot where every slot after position 0 is filled.
pub open spec fn pop_slot(s: Seq<Option<usize>>, k: int) -> bool {
    &&& 0 <= k < s.len()
    &&& (k + 1 == s.len() || s[k + 1] is None)
    &&& forall|j: int| 0 < j <= k ==> #[trigger] s[j] is Some
}

/// The slots after pushing `x`: the first empty slot takes it; a full buffer is unchanged.
pub open spec fn pushed(s: Seq<Option<usize>>, x: usize) -> Seq<Option<usize>> {
    if exists|k: int| first_empty(s, k) {
        s.update(choose|k: int| first_empty(s, k), Some(x))
    } else {
        s
    }
}

/// The slots after pushing each of `xs` in turn.
pub open spec fn pushed_all(s: Seq<Option<usize>>, xs: Seq<usize>) -> Seq<Option<usize>>
    decreases xs.len(),
{
    if xs.len() == 0 {
        s
    } else {
        pushed(pushed_all(s, xs.drop_last()), xs.last())
    }
}

/// The slots after a pop: the slot that a pop empties (see `pop_slot`) is emptied; a
/// buffer without slots is unchanged.
pub open spec fn popped(s: Seq<Option<usize>>) -> Seq<Option<usize>> {
    if exists|k: int| pop_slot(s, k) {
        s.update(choose|k: int| pop_slot(s, k), None)
    } else {
        s
    }
}

/// What a pop hands back: what the slot that it empties held.
pub open spec fn popped_value(s: Seq<Option<usize>>) -> Option<usize> {
    if exists|k: int| pop_slot(s, k) {
        s[choose|k: int| pop_slot(s, k)]
    } else {
        None
    }
}

/// The coordinate `(row, col)` that slot `i` resolves to. An even slot holds a column, and
/// its row is the index in the slot before it (row 0 for the very first slot); an odd slot
/// holds a row, and its column is the index in the slot before it. An empty slot, or a
/// position past the capacity, resolves to nothing.
pub open spec fn coord_at(s: Seq<Option<usize>>, i: int) -> Option<(usize, usize)> {
    if 0 <= i < s.len() && s[i] is Some {
        let prev: usize = if i == 0 { 0 } else { s[i - 1]->0 };
        if i % 2 == 0 {
            Some((prev, s[i]->0))
        } else {
            Some((s[i]->0, prev))
        }
    } else {
        None
    }
}

/// Some slot before the first empty slot resolves to the coordinate `c`; slots after an
/// empty one are not looked at.
pub open spec fn slots_contain(s: Seq<Option<usize>>, c: (usize, usize)) -> bool {
    exists|i: int|
        0 <= i < s.len() && (forall|j: int| 0 <= j <= i ==> #[trigger] s[j] is Some) && coord_at(s, i)
            == Some(c)
}

/// Slot `i` can be resolved: it is the first slot, past the capacity, empty, or the slot
/// before it is filled.
pub open spec fn resolvable(s: Seq<Option<usize>>, i: int) -> bool {
    i == 0 || i >= s.len() || s[i] is None || s[i - 1] is Some
}

/// The coordinate `c`, where there is one, is a cell of the matrix `m`.
pub open spec fn in_matrix(m: Seq<Seq<Seq<char>>>, c: Option<(usize, usize)>) -> bool {
    match c {
        Some((row, col)) => row < m.len() && col < m[row as int].len(),
        None => true,
    }
}

/// The code in the cell at coordinate `c` of the matrix `m`.
pub open spec fn cell(m: Seq<Seq<Seq<char>>>, c: (usize, usize)) -> Seq<char> {
    m[c.0 as int][c.1 as int]
}

/// A document entry that may stand in a slot: null (an empty slot) or a whole number
/// that is not negative.
pub open spec fn slot_entry_ok(d: Doc) -> bool {
    d is Null || d is Uint
}

/// Every entry may stand in a slot.
pub open spec fn slot_entries_ok(es: Seq<Doc>) -> bool {
    forall|i: int| 0 <= i < es.len() ==> slot_entry_ok(#[trigger] es[i])
}

/// A document holds a valid buffer: an array (standing alone, or as the member `buffer`
/// of an object) of entries that are each null or a whole number that is not negative.
pub open spec fn buffer_valid(d: Doc) -> bool {
    match part(d, "buffer"@) {
        Some(es) => slot_entries_ok(es),
        None => false,
    }
}

/// The slot that a document entry stands for.
pub open spec fn slot_of(d: Doc) -> Option<usize> {
    match d {
        Doc::Uint(n) => Some(n),
        _ => None,
    }
}

/// The slots that the entries stand for.
pub open spec fn slots_of(es: Seq<Doc>) -> Seq<Option<usize>> {
    es.map_values(|d: Doc| slot_of(d))
}

/// The document entry for a slot: its index, or null where it is empty.
pub open spec fn slot_doc(o: Option<usize>) -> Doc {
    match o {
        Some(n) => Doc::Uint(n),
        None => Doc::Null,
    }
}

/// The document entries for the slots.
pub open spec fn slot_docs(s: Seq<Option<usize>>) -> Seq<Doc> {
    s.map_values(|o: Option<usize>| slot_doc(o))
}

/// A fixed-capacity, ordered list of slots, each empty or holding a raw matrix index.
#[derive(Debug)]
pub struct Buffer {
    code_indices: Vec<Option<usize>>,
}

impl View for Buffer {
    type V = Seq<Option<usize>>;

    closed spec fn view(&self) -> Seq<Option<usize>> {
        self.code_indices@
    }
}

impl Buffer {
    /// An empty buffer with `capacity` slots.
    pub fn new(capacity: usize) -> (r: Buffer)
        ensures
            r@ == empty_slots(capacity as nat),
    {
        let mut v: Vec<Option<usize>> = Vec::with_capacity(capacity);
        let mut i: usize = 0;
        while i < capacity
            invariant
                i <= capacity,
                v@ == empty_slots(i as nat),
            decreases capacity - i,
        {
            v.push(None);
            i = i + 1;
            assert(v@ =~= empty_slots(i as nat));
        }
        Buffer { code_indices: v }
    }

    /// Fills the first empty slot with `index`; on a full buffer nothing changes.
    pub fn push(&mut self, index: usize)
        ensures
            final(self)@ == pushed(old(self)@, index),
            final(self)@.len() == old(self)@.len(),
    {
        let n = self.code_indices.len();
        let mut i: usize = 0;
        while i < n
            invariant
                n == self@.len(),
                self@ == old(self)@,
                i <= n,
                forall|j: int| 0 <= j < i ==> #[trigger] self@[j] is Some,
            decreases n - i,
        {
            if self.code_indices[i].is_none() {
                let ghost s = self@;
                assert(first_empty(s, i as int));
                assert forall|k: int| first_empty(s, k) implies k == i by {
                    if k > i {
                        assert(s[i as int] is Some);
                    }
                }
                self.code_indices.set(i, Some(index));
                assert(self@ == pushed(s, index));
                return;
            }
            i = i + 1;
        }
        assert(!exists|k: int| first_empty(self@, k));
    }

    /// Empties the slot just before the first empty slot after position 0 (the last slot
    /// where all of those are filled) and hands back what it held. A buffer without slots
    /// is unchanged and hands back nothing.
    pub fn pop(&mut self) -> (r: Option<usize>)
        ensures
            final(self)@ == popped(old(self)@),
            r == popped_value(old(self)@),
    {
        let n = self.code_indices.len();
        let mut i: usize = 0;
        while i < n
            invariant
                n == self@.len(),
                self@ == old(self)@,
                i <= n,
                n == 0 || i < n,
                forall|j: int| 0 < j <= i && j < n ==> #[trigger] self@[j] is Some,
            decreases n - i,
        {
            if i + 1 == n || self.code_indices[i + 1].is_none() {
                let ghost s = self@;
                assert(pop_slot(s, i as int));
                assert forall|k: int| pop_slot(s, k) implies k == i by {
                    if k > i {
                        assert(s[i + 1] is Some);
                    } else if k < i {
                        assert(s[k + 1] is Some);
                    }
                }
                let r = self.code_indices[i];
                self.code_indices.set(i, None);
                assert(self@ == popped(s));
                return r;
            }
            i = i + 1;
        }
        assert(!exists|k: int| pop_slot(self@, k));
        None
    }

    /// The coordinate that slot `index` resolves to; nothing for an empty slot or a
    /// position past the capacity.
    pub fn coord(&self, index: usize) -> (r: Option<(usize, usize)>)
        requires
            resolvable(self@, index as int),
        ensures
            r == coord_at(self@, index as int),
    {
        if index >= self.code_indices.len() {
            return None;
        }
        match self.code_indices[index] {
            None => None,
            Some(code_index) => {
                let prev_index: usize = if index > 0 {
                    self.code_indices[index - 1].unwrap()
                } else {
                    0
                };
                if index % 2 == 0 {
                    Some((prev_index, code_index))
                } else {
                    Some((code_index, prev_index))
                }
            },
        }
    }

    /// Whether a slot resolves to `coord`. The scan stops at the first empty slot: slots
    /// after it are not looked at.
    pub fn contains(&self, coord: (usize, usize)) -> (r: bool)
        ensures
            r == slots_contain(self@, coord),
    {
        let n = self.code_indices.len();
        let mut i: usize = 0;
        while i < n
            invariant
                n == self@.len(),
                i <= n,
                forall|j: int| 0 <= j < i ==> #[trigger] self@[j] is Some,
                forall|j: int| 0 <= j < i ==> #[trigger] coord_at(self@, j) != Some(coord),
            decreases n - i,
        {
            match self.coord(i) {
                Some(c) => {
                    if c.0 == coord.0 && c.1 == coord.1 {
                        assert(forall|j: int| 0 <= j <= i ==> #[trigger] self@[j] is Some);
                        return true;
                    }
                },
                None => {
                    assert(self@[i as int] is None);
                    return false;
                },
            }
            i = i + 1;
        }
        false
    }

    /// The code of the cell that slot `index` resolves to; nothing for an empty slot or a
    /// position past the capacity.
    pub fn code(&self, index: usize, matrix: CodeMatrix) -> (r: Option<Code>)
        requires
            resolvable(self@, index as int),
            in_matrix(matrix@, coord_at(self@, index as int)),
        ensures
            r is Some <==> coord_at(self@, index as int) is Some,
            r is Some ==> r->0@ == cell(matrix@, coord_at(self@, index as int)->0),
    {
        match self.coord(index) {
            Some((row, col)) => Some(matrix.get(row, col)),
            None => None,
        }
    }

    /// Whether every entry of `es` may stand in a slot.
    pub(crate) fn entries_ok(es: &Vec<Doc>) -> (r: bool)
        ensures
            r == slot_entries_ok(es@),
    {
        let mut i: usize = 0;
        while i < es.len()
            invariant
                i <= es@.len(),
                forall|j: int| 0 <= j < i ==> slot_entry_ok(#[trigger] es@[j]),
            decreases es@.len() - i,
        {
            match &es[i] {
                Doc::Null => {},
                Doc::Uint(_) => {},
                _ => {
                    assert(!slot_entry_ok(es@[i as int]));
                    return false;
                },
            }
            i = i + 1;
        }
        true
    }

    /// The buffer that a document holds; nothing where the document is not a valid buffer.
    pub fn from_json(data: &Doc) -> (r: Option<Buffer>)
        ensures
            r is Some <==> buffer_valid(*data),
            r is Some ==> r->0@ == slots_of(part(*data, "buffer"@)->0),
    {
        let key = "buffer".to_owned();
        let es = match part_of(data, &key) {
            Some(es) => es,
            None => {
                return None;
            },
        };
        if !Buffer::entries_ok(es) {
            return None;
        }
        let ghost s = slots_of(es@);
        assert(part(*data, "buffer"@)->0 == es@);
        let mut v: Vec<Option<usize>> = Vec::with_capacity(es.len());
        let mut i: usize = 0;
        while i < es.len()
            invariant
                i <= es@.len(),
                s == slots_of(es@),
                part(*data, "buffer"@)->0 == es@,
                v@ == s.subrange(0, i as int),
            decreases es@.len() - i,
        {
            let o: Option<usize> = match &es[i] {
                Doc::Uint(n) => Some(*n),
                _ => None,
            };
            v.push(o);
            i = i + 1;
            assert(v@ =~= s.subrange(0, i as int));
        }
        assert(v@ =~= s);
        Some(Buffer { code_indices: v })
    }

    /// The buffer as a document: an array with an entry per slot, null where it is empty.
    pub fn to_json(&self) -> (r: Option<Doc>)
        ensures
            r matches Some(Doc::Array(es)) && es@ == slot_docs(self@),
    {
        let mut out: Vec<Doc> = Vec::with_capacity(self.code_indices.len());
        let mut i: usize = 0;
        while i < self.code_indices.len()
            invariant
                i <= self@.len(),
                out@ == slot_docs(self@.subrange(0, i as int)),
            decreases self@.len() - i,
        {
            let d = match self.code_indices[i] {
                Some(n) => Doc::Uint(n),
                None => Doc::Null,
            };
            out.push(d);
            i = i + 1;
            assert(out@ =~= slot_docs(self@.subrange(0, i as int)));
        }
        assert(self@.subrange(0, i as int) =~= self@);
        Some(Doc::Array(out))
    }

    /// The number of slots, filled or not.
    pub fn capacity(&self) -> (r: usize)
        ensures
            r == self@.len(),
    {
        self.code_indices.len()
    }

    /// A copy of the slots, in order.
    pub fn slots(&self) -> (r: Vec<Option<usize>>)
        ensures
            r@ == self@,
    {
        let mut v: Vec<Option<usize>> = Vec::with_capacity(self.code_indices.len());
        let mut i: usize = 0;
        while i < self.code_indices.len()
            invariant
                i <= self@.len(),
                v@ == self@.subrange(0, i as int),
            decreases self@.len() - i,
        {
            v.push(self.code_indices[i]);
            i = i + 1;
            assert(v@ =~= self@.subrange(0, i as int));
        }
        assert(v@ =~= self@);
        v
    }
}

/// Pushes never change the capacity: after any sequence of pushes the buffer has as many
/// slots as before.
pub proof fn law_pushes_keep_capacity(s: Seq<Option<usize>>, xs: Seq<usize>)
    ensures
        pushed_all(s, xs).len() == s.len(),
    decreases xs.len(),
{
    if xs.len() > 0 {
        law_pushes_keep_capacity(s, xs.drop_last());
    }
}

/// Pushing `xs` in turn into an empty buffer of capacity `c` fills the slots from the left
/// with the first `c` of them, in order; the rest are ignored. So once `xs` has at least
/// `c` items the buffer is full, with exactly `c` slots.
pub proof fn law_pushes_fill_in_order(c: nat, xs: Seq<usize>)
    ensures
        pushed_all(empty_slots(c), xs) == Seq::new(
            c,
            |i: int|
                if i < xs.len() {
                    Some(xs[i])
                } else {
                    None
                },
        ),
        xs.len() >= c ==> all_filled(pushed_all(empty_slots(c), xs)),
    decreases xs.len(),
{
    let goal = Seq::new(c, |i: int| if i < xs.len() { Some(xs[i]) } else { None });
    if xs.len() == 0 {
        assert(pushed_all(empty_slots(c), xs) =~= goal);
    } else {
        let ys = xs.drop_last();
        law_pushes_fill_in_order(c, ys);
        let t = pushed_all(empty_slots(c), ys);
        let n = ys.len() as int;
        if n < c {
            assert(first_empty(t, n));
            assert forall|k: int| first_empty(t, k) implies k == n by {
                if k > n {
                    assert(t[n] is Some);
                }
            }
            let k = choose|k: int| first_empty(t, k);
            assert(pushed(t, xs.last()) == t.update(k, Some(xs.last())));
            assert(t.update(n, Some(xs.last())) =~= goal);
        } else {
            assert(!exists|k: int| first_empty(t, k));
            assert(t =~= goal);
        }
    }
}

/// Pushing into an empty buffer of capacity at least 1 fills the first slot.
proof fn lemma_push_into_empty(c: nat, x: usize)
    requires
        c >= 1,
    ensures
        pushed(empty_slots(c), x) == empty_slots(c).update(0, Some(x)),
{
    let e = empty_slots(c);
    assert(first_empty(e, 0));
    assert forall|k: int| first_empty(e, k) implies k == 0 by {
        if k > 0 {
            assert(e[0] is None);
        }
    }
}

/// In an empty buffer of capacity at least 1, pushing 1 fills the first slot, which
/// resolves to row 0, column 1: the buffer then contains `(0, 1)` and not `(0, 0)`.
pub proof fn law_first_push(c: nat)
    requires
        c >= 1,
    ensures
        coord_at(pushed(empty_slots(c), 1), 0) == Some((0usize, 1usize)),
        slots_contain(pushed(empty_slots(c), 1), (0, 1)),
        !slots_contain(pushed(empty_slots(c), 1), (0, 0)),
{
    lemma_push_into_empty(c, 1);
    let t = pushed(empty_slots(c), 1);
    assert(coord_at(t, 0) == Some((0usize, 1usize)));
    assert(forall|j: int| 0 <= j <= 0 ==> #[trigger] t[j] is Some);
    assert forall|i: int| 0 <= i < t.len() implies coord_at(t, i) != Some((0usize, 0usize)) by {
        if i > 0 {
            assert(t[i] is None);
        }
    }
}

/// Some slot at or before the empty slot `j` is the first empty one.
proof fn first_empty_of(s: Seq<Option<usize>>, j: int) -> (k: int)
    requires
        0 <= j < s.len(),
        s[j] is None,
    ensures
        first_empty(s, k),
        k <= j,
    decreases j,
{
    if forall|m: int| 0 <= m < j ==> #[trigger] s[m] is Some {
        j
    } else {
        let m = choose|m: int| 0 <= m < j && !(#[trigger] s[m] is Some);
        first_empty_of(s, m)
    }
}

/// In a buffer filled from the left without gaps and not full, a pop right after a push
/// hands back the pushed index and restores the buffer as it was.
pub proof fn law_pop_undoes_push(s: Seq<Option<usize>>, x: usize)
    requires
        contiguous(s),
        !all_filled(s),
    ensures
        popped_value(pushed(s, x)) == Some(x),
        popped(pushed(s, x)) == s,
{
    let j = choose|j: int| 0 <= j < s.len() && !(#[trigger] s[j] is Some);
    let k = first_empty_of(s, j);
    assert forall|a: int| first_empty(s, a) implies a == k by {
        if a < k {
            assert(s[a] is Some);
        } else if a > k {
            assert(s[k] is Some);
        }
    }
    let t = s.update(k, Some(x));
    assert(pushed(s, x) == t);
    assert(pop_slot(t, k)) by {
        if k + 1 < s.len() {
            assert(s[k + 1] is None);
        }
    }
    assert forall|a: int| pop_slot(t, a) implies a == k by {
        if a < k {
            assert(t[a + 1] is Some);
        } else if a > k {
            assert(t[k + 1] is Some);
            assert(s[k + 1] is None);
        }
    }
    assert(t.update(k, None) =~= s);
}

/// Pushing one index into an empty buffer of capacity at least 1 and popping it leaves
/// the buffer fully empty again: its first slot resolves to nothing and a further pop
/// hands back nothing.
pub proof fn law_push_then_pop_empties(c: nat, x: usize)
    requires
        c >= 1,
    ensures
        popped(pushed(empty_slots(c), x)) == empty_slots(c),
        popped_value(pushed(empty_slots(c), x)) == Some(x),
        coord_at(empty_slots(c), 0) is None,
        popped_value(empty_slots(c)) is None,
        popped(empty_slots(c)) == empty_slots(c),
{
    let e = empty_slots(c);
    assert(e[0] is None);
    assert(!all_filled(e));
    law_pop_undoes_push(e, x);
    assert(pop_slot(e, 0)) by {
        if c > 1 {
            assert(e[1] is None);
        }
    }
    assert forall|a: int| pop_slot(e, a) implies a == 0 by {
        if a > 0 {
            assert(e[1] is Some);
        }
    }
    assert(e.update(0, None) =~= e);
}

/// Writing slots out as a document and reading that document back gives the same slots.
pub proof fn law_buffer_json_round_trip(s: Seq<Option<usize>>, d: Doc)
    requires
        d matches Doc::Array(es) && es@ == slot_docs(s),
    ensures
        buffer_valid(d),
        slots_of(part(d, "buffer"@)->0) == s,
{
    assert(slots_of(slot_docs(s)) =~= s);
}

/// Reading a buffer from a document and writing it out again gives back exactly the
/// document's entries.
pub proof fn law_buffer_doc_round_trip(d: Doc)
    requires
        buffer_valid(d),
    ensures
        slot_docs(slots_of(part(d, "buffer"@)->0)) == part(d, "buffer"@)->0,
{
    let es = part(d, "buffer"@)->0;
    assert forall|i: int| 0 <= i < es.len() implies slot_doc(slot_of(es[i])) == es[i] by {
        assert(slot_entry_ok(es[i]));
    }
    assert(slot_docs(slots_of(es)) =~= es);
}

} // verus!
