//! The adaptive symbol table of the codec.
//!
//! The table holds every byte value exactly once. Looking a symbol up moves
//! it to the front, so that symbols used a moment ago get small indices.

use vstd::prelude::*;

verus! {

/// Number of entries in the table: one for each byte value.
pub const TABLE_SIZE: usize = 256;

/// The table before any symbol was decoded: entry `i` holds the byte `i`.
pub open spec fn identity_table() -> Seq<u8> {
    Seq::new(256, |i: int| i as u8)
}

/// `table` after the entry at `idx` was taken out and put back at the
/// front.
pub open spec fn moved_to_front(table: Seq<u8>, idx: int) -> Seq<u8>
    recommends
        0 <= idx < table.len(),
{
    seq![table[idx]] + table.remove(idx)
}

/// The identity table has 256 entries and holds no byte twice.
pub proof fn lemma_identity_table()
    ensures
        identity_table().len() == 256,
        identity_table().no_duplicates(),
        forall|i: int| 0 <= i < 256 ==> #[trigger] identity_table()[i] == i,
{
}

/// Moving the entry at `idx` to the front puts it at index 0, shifts the
/// entries before `idx` one place to the right and leaves those behind
/// `idx` where they were. The length stays, and so does the absence of
/// duplicates.
pub proof fn lemma_moved_to_front(table: Seq<u8>, idx: int)
    requires
        0 <= idx < table.len(),
    ensures
        moved_to_front(table, idx).len() == table.len(),
        moved_to_front(table, idx)[0] == table[idx],
        forall|j: int| 1 <= j <= idx ==> #[trigger] moved_to_front(table, idx)[j] == table[j - 1],
        forall|j: int|
            idx < j < table.len() ==> #[trigger] moved_to_front(table, idx)[j] == table[j],
        table.no_duplicates() ==> moved_to_front(table, idx).no_duplicates(),
{
    let m = moved_to_front(table, idx);
    assert forall|k: int| 0 <= k < m.len() implies #[trigger] m[k] == table[if k == 0 {
        idx
    } else if k <= idx {
        k - 1
    } else {
        k
    }] by {}
    if table.no_duplicates() {
        assert forall|a: int, b: int| 0 <= a < m.len() && 0 <= b < m.len() && a != b implies m[a]
            != m[b] by {
            let fa = if a == 0 {
                idx
            } else if a <= idx {
                a - 1
            } else {
                a
            };
            let fb = if b == 0 {
                idx
            } else if b <= idx {
                b - 1
            } else {
                b
            };
            assert(m[a] == table[fa]);
            assert(m[b] == table[fb]);
            assert(fa != fb);
        }
    }
}

/// An ordered table of all 256 byte values.
pub struct MoveToFrontTable {
    symbols: Vec<u8>,
}

impl View for MoveToFrontTable {
    type V = Seq<u8>;

    closed spec fn view(&self) -> Seq<u8> {
        self.symbols@
    }
}

impl MoveToFrontTable {
    /// The table has 256 entries, all different.
    pub open spec fn wf(&self) -> bool {
        &&& self@.len() == 256
        &&& self@.no_duplicates()
    }

    /// The identity table.
    pub fn new() -> (t: Self)
        ensures
            t.wf(),
            t@ == identity_table(),
    {
        let mut symbols: Vec<u8> = Vec::with_capacity(TABLE_SIZE);
        let mut i: usize = 0;
        while i < TABLE_SIZE
            invariant
                i <= 256,
                symbols@.len() == i,
                forall|j: int| 0 <= j < i ==> #[trigger] symbols@[j] == j,
            decreases 256 - i,
        {
            symbols.push(i as u8);
            i = i + 1;
        }
        proof {
            lemma_identity_table();
            assert(symbols@ =~= identity_table());
        }
        MoveToFrontTable { symbols }
    }

    /// The entry at `idx`, without moving anything.
    pub fn get(&self, idx: usize) -> (byte: u8)
        requires
            self.wf(),
            idx < 256,
        ensures
            byte == self@[idx as int],
    {
        self.symbols[idx]
    }

    /// Takes the symbol at `idx` and moves it to the front.
    pub fn take(&mut self, idx: usize) -> (byte: u8)
        requires
            old(self).wf(),
            idx < 256,
        ensures
            final(self).wf(),
            byte == old(self)@[idx as int],
            final(self)@ == moved_to_front(old(self)@, idx as int),
            final(self)@[0] == byte,
            forall|j: int| 1 <= j <= idx ==> #[trigger] final(self)@[j] == old(self)@[j - 1],
            forall|j: int| idx < j < 256 ==> #[trigger] final(self)@[j] == old(self)@[j],
    {
        proof {
            lemma_moved_to_front(self@, idx as int);
        }
        let byte: u8 = self.symbols.remove(idx);
        self.symbols.insert(0, byte);
        proof {
            assert(self.symbols@ =~= moved_to_front(old(self)@, idx as int));
        }
        byte
    }
}

} // verus!
