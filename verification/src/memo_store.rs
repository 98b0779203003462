//! Parse-scoped memoization storage for [`crate::parser::memoized::Memoized`].
//!
//! One table per memoized parser id, each mapping a start position to the cached result:
//! `None` for a cached miss, `Some((output, end))` for a cached success.
use std::collections::HashMap;
use std::rc::Rc;
use vstd::prelude::*;

verus! {

broadcast use vstd::std_specs::hash::group_hash_axioms;

/// Opaque id assigned to a [`crate::parser::memoized::Memoized`] parser.
pub type MemoParserId = usize;

/// Hands out memo keys: each key it gives differs from every key it gave before.
pub struct MemoKeySource {
    next: MemoParserId,
}

impl View for MemoKeySource {
    type V = nat;

    /// The number of keys handed out so far; every key handed out is below it.
    closed spec fn view(&self) -> nat {
        self.next as nat
    }
}

impl MemoKeySource {
    /// A source that has handed out no key.
    pub fn new() -> (s: Self)
        ensures
            s@ == 0,
    {
        MemoKeySource { next: 0 }
    }

    /// A key that no earlier call on this source returned: the number of keys handed out
    /// before, which is at or above every earlier key plus one.
    pub fn fresh(&mut self) -> (id: MemoParserId)
        requires
            old(self)@ < usize::MAX,
        ensures
            id == old(self)@,
            final(self)@ == old(self)@ + 1,
    {
        let id = self.next;
        self.next = self.next + 1;
        id
    }
}

/// One memo cell: `None` means cached miss; `Some` stores shared output and end position.
pub type MemoEntry<T> = Option<(Rc<T>, usize)>;

/// Memo tables keyed by parser id, then by start position.
pub struct MemoStore<T> {
    tables: HashMap<MemoParserId, HashMap<usize, MemoEntry<T>>>,
}

impl<T> View for MemoStore<T> {
    type V = Map<(MemoParserId, usize), MemoEntry<T>>;

    closed spec fn view(&self) -> Map<(MemoParserId, usize), MemoEntry<T>> {
        Map::new(
            |k: (MemoParserId, usize)|
                self.tables@.contains_key(k.0) && self.tables@[k.0]@.contains_key(k.1),
            |k: (MemoParserId, usize)| self.tables@[k.0]@[k.1],
        )
    }
}

/// `Rc::clone`: std documents that it returns another pointer to the same allocation, so
/// the clone holds the same value.
#[verifier::external_body]
pub(crate) fn rc_clone<T>(rc: &Rc<T>) -> (r: Rc<T>)
    ensures
        r == *rc,
{
    Rc::clone(rc)
}

impl<T> MemoStore<T> {
    /// An empty store.
    pub fn new() -> (s: Self)
        ensures
            s@ == Map::<(MemoParserId, usize), MemoEntry<T>>::empty(),
    {
        let s = MemoStore { tables: HashMap::new() };
        proof {
            assert(s@ =~= Map::<(MemoParserId, usize), MemoEntry<T>>::empty());
        }
        s
    }

    /// Look up a memo cell without creating a table; `None` if there is no entry yet.
    pub fn get_entry(&self, parser_id: MemoParserId, pos: usize) -> (r: Option<MemoEntry<T>>)
        ensures
            r == (if self@.contains_key((parser_id, pos)) {
                Some(self@[(parser_id, pos)])
            } else {
                None
            }),
    {
        match self.tables.get(&parser_id) {
            None => None,
            Some(table) => match table.get(&pos) {
                None => None,
                Some(entry) => match entry {
                    None => Some(None),
                    Some((rc, end)) => Some(Some((rc_clone(rc), *end))),
                },
            },
        }
    }

    /// Record `entry` as the memo cell of `parser_id` at `pos`.
    pub fn insert_entry(&mut self, parser_id: MemoParserId, pos: usize, entry: MemoEntry<T>)
        ensures
            final(self)@ == old(self)@.insert((parser_id, pos), entry),
    {
        let mut table = match self.tables.remove(&parser_id) {
            Some(t) => t,
            None => HashMap::new(),
        };
        table.insert(pos, entry);
        self.tables.insert(parser_id, table);
        proof {
            assert(self@ =~= old(self)@.insert((parser_id, pos), entry));
        }
    }
}

/// A memo store gives back, at a key, what was last written there, and leaves every other
/// key as it was.
pub proof fn lemma_memo_read_after_write<T>(
    m: Map<(MemoParserId, usize), MemoEntry<T>>,
    id: MemoParserId,
    pos: usize,
    entry: MemoEntry<T>,
    other: (MemoParserId, usize),
)
    ensures
        m.insert((id, pos), entry)[(id, pos)] == entry,
        other != (id, pos) ==> (m.insert((id, pos), entry).contains_key(other) == m.contains_key(other)),
        other != (id, pos) && m.contains_key(other) ==> m.insert((id, pos), entry)[other] == m[other],
{
}

} // verus!
