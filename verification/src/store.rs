//! The store of a recording: the journal, and one index per PGN seen, which
//! mirrors the journal's frames of that PGN.

use vstd::prelude::*;
use crate::codec::{be4_value, encode, encoded, lemma_decode_encode};
use crate::journal::{ascending, has_key, lemma_put_facts, put, Pairs, Tree};
use crate::{pgn_from_dbc, pgn_of};

verus! {

/// The index of one PGN.
#[derive(Debug)]
pub struct Index {
    pub pgn: u32,
    pub tree: Tree,
}

/// The sum of the lengths of the indices.
pub open spec fn total_len(slots: Seq<(u32, Pairs)>) -> nat
    decreases slots.len(),
{
    if slots.len() == 0 {
        0
    } else {
        total_len(slots.drop_last()) + slots.last().1.len()
    }
}

/// Replacing one index changes the sum by the difference of the lengths.
pub proof fn lemma_total_len_update(slots: Seq<(u32, Pairs)>, at: int, slot: (u32, Pairs))
    requires
        0 <= at < slots.len(),
    ensures
        total_len(slots.update(at, slot)) + slots[at].1.len() == total_len(slots) + slot.1.len(),
    decreases slots.len(),
{
    let after = slots.update(at, slot);
    if at == slots.len() - 1 {
        assert(after.drop_last() =~= slots.drop_last());
    } else {
        lemma_total_len_update(slots.drop_last(), at, slot);
        assert(after.drop_last() =~= slots.drop_last().update(at, slot));
    }
}

/// A journal with its indices.
#[derive(Debug)]
pub struct Store {
    journal: Tree,
    indices: Vec<Index>,
}

impl Store {
    /// The journal's frames, lowest key first.
    pub closed spec fn journal(self) -> Pairs {
        self.journal@
    }

    /// The indices in the order in which they were opened, each with its PGN
    /// and its frames.
    pub closed spec fn slots(self) -> Seq<(u32, Pairs)> {
        self.indices@.map_values(|x: Index| (x.pgn, x.tree@))
    }

    /// An index for this PGN has been opened.
    pub open spec fn knows(self, pgn: u32) -> bool {
        exists|i: int| 0 <= i < self.slots().len() && self.slots()[i].0 == pgn
    }

    /// The position of the index of a PGN that the store knows.
    pub open spec fn slot_of(self, pgn: u32) -> int {
        choose|i: int| 0 <= i < self.slots().len() && self.slots()[i].0 == pgn
    }

    /// The frames in the index of `pgn`; none where no index was opened.
    pub open spec fn index(self, pgn: u32) -> Pairs {
        if self.knows(pgn) {
            self.slots()[self.slot_of(pgn)].1
        } else {
            Pairs::empty()
        }
    }

    /// The PGNs that have an index, in the order in which they were opened.
    pub open spec fn pgns(self) -> Seq<u32> {
        self.slots().map_values(|x: (u32, Pairs)| x.0)
    }

    /// The store's invariant: every tree is ordered, and no PGN has two
    /// indices.
    pub open spec fn wf(self) -> bool {
        &&& ascending(self.journal())
        &&& forall|i: int| 0 <= i < self.slots().len() ==> ascending(#[trigger] self.slots()[i].1)
        &&& forall|i: int, j: int|
            0 <= i < j < self.slots().len() ==> self.slots()[i].0 != self.slots()[j].0
    }

    /// The indices mirror the journal: a frame is in the index of a PGN
    /// exactly when it is in the journal, under the same key and with the
    /// same bytes, and its arbitration ID carries that PGN; and the indices
    /// together hold as many frames as the journal. This is what a recording
    /// without two frames under one key keeps.
    pub open spec fn mirrored(self) -> bool {
        &&& forall|i: int, x: (u128, Seq<u8>)|
            0 <= i < self.slots().len() && #[trigger] self.slots()[i].1.contains(x)
                ==> self.journal().contains(x) && x.1.len() >= 4 && pgn_of(be4_value(x.1))
                == self.slots()[i].0
        &&& forall|x: (u128, Seq<u8>)| #[trigger]
            self.journal().contains(x) ==> x.1.len() >= 4 && self.index(
                pgn_of(be4_value(x.1)),
            ).contains(x)
        &&& total_len(self.slots()) == self.journal().len()
    }

    /// In a well-formed store the index of a PGN is the one at the position
    /// where the PGN stands.
    pub proof fn lemma_index_at(self, at: int)
        requires
            self.wf(),
            0 <= at < self.slots().len(),
        ensures
            self.knows(self.slots()[at].0),
            self.slot_of(self.slots()[at].0) == at,
            self.index(self.slots()[at].0) == self.slots()[at].1,
    {
        let pgn = self.slots()[at].0;
        let found = self.slot_of(pgn);
        assert(self.slots()[found].0 == pgn);
        if found < at {
            assert(self.slots()[found].0 != self.slots()[at].0);
        } else if at < found {
            assert(self.slots()[at].0 != self.slots()[found].0);
        }
    }

    /// The store knows exactly the PGNs that it lists.
    pub proof fn lemma_knows_is_listed(self, pgn: u32)
        ensures
            self.knows(pgn) == self.pgns().contains(pgn),
    {
        if self.knows(pgn) {
            let i = self.slot_of(pgn);
            assert(self.pgns()[i] == pgn);
        }
        if self.pgns().contains(pgn) {
            let i = choose|i: int| 0 <= i < self.pgns().len() && self.pgns()[i] == pgn;
            assert(self.slots()[i].0 == pgn);
        }
    }

    /// A store with an empty journal and no index.
    pub fn new() -> (store: Store)
        ensures
            store.wf(),
            store.mirrored(),
            store.journal() == Pairs::empty(),
            store.slots().len() == 0,
    {
        let store = Store { journal: Tree::new(), indices: Vec::new() };
        assert(store.slots().len() == 0);
        store
    }

    /// Opens the index of `pgn`, as an empty one where there was none, and
    /// returns its position.
    pub fn index_for(&mut self, pgn: u32) -> (at: usize)
        requires
            old(self).wf(),
        ensures
            final(self).wf(),
            final(self).journal() == old(self).journal(),
            at < final(self).slots().len(),
            final(self).slots()[at as int].0 == pgn,
            final(self).knows(pgn),
            final(self).slot_of(pgn) == at,
            old(self).knows(pgn) ==> final(self).slots() == old(self).slots(),
            !old(self).knows(pgn) ==> final(self).slots() == old(self).slots().push(
                (pgn, Pairs::empty()),
            ),
            forall|q: u32| #[trigger] final(self).index(q) == old(self).index(q),
            old(self).mirrored() ==> final(self).mirrored(),
    {
        let mut at: usize = 0;
        while at < self.indices.len()
            invariant
                at <= self.indices@.len(),
                *self == *old(self),
                self.wf(),
                self.slots().len() == self.indices@.len(),
                forall|j: int| 0 <= j < at ==> self.slots()[j].0 != pgn,
            decreases self.indices@.len() - at,
        {
            if self.indices[at].pgn == pgn {
                proof {
                    self.lemma_index_at(at as int);
                }
                return at;
            }
            at += 1;
        }
        let ghost before = self.slots();
        self.indices.push(Index { pgn, tree: Tree::new() });
        proof {
            assert(self.slots() =~= before.push((pgn, Pairs::empty())));
            assert(self.slots().drop_last() =~= before);
            self.lemma_index_at(at as int);
            assert forall|q: u32| #[trigger] self.index(q) == old(self).index(q) by {
                if old(self).knows(q) {
                    let i = old(self).slot_of(q);
                    assert(self.slots()[i] == before[i]);
                    old(self).lemma_index_at(i);
                    self.lemma_index_at(i);
                } else if self.knows(q) {
                    let i = self.slot_of(q);
                    assert(i < before.len() ==> before[i].0 == q);
                }
            }
        }
        at
    }

    /// Stores `record` in the journal under `key`, over what the key held
    /// before. The indices are left alone.
    pub fn append(&mut self, key: u128, record: Vec<u8>)
        requires
            old(self).wf(),
        ensures
            final(self).wf(),
            final(self).journal() == put(old(self).journal(), key, record@),
            final(self).slots() == old(self).slots(),
    {
        self.journal.append(key, record);
        assert(self.slots() == old(self).slots());
    }

    /// Stores `record` under `key` in the index at position `at`, as
    /// `index_for` gave it. The journal and the other indices are left
    /// alone.
    pub fn append_to_index(&mut self, at: usize, key: u128, record: Vec<u8>)
        requires
            old(self).wf(),
            at < old(self).slots().len(),
        ensures
            final(self).wf(),
            final(self).journal() == old(self).journal(),
            final(self).slots() == old(self).slots().update(
                at as int,
                (old(self).slots()[at as int].0, put(old(self).slots()[at as int].1, key, record@)),
            ),
    {
        let ghost before = self.slots();
        assert(before[at as int].1 == self.indices@[at as int].tree@);
        assert(ascending(before[at as int].1));
        self.indices[at].tree.append(key, record);
        let ghost slot = (before[at as int].0, put(before[at as int].1, key, record@));
        assert(self.slots() =~= before.update(at as int, slot));
        assert forall|i: int| 0 <= i < self.slots().len() implies ascending(
            #[trigger] self.slots()[i].1,
        ) by {
            if i != at {
                assert(self.slots()[i].1 == before[i].1);
            }
        }
    }

    /// Records one frame: encodes it, stores it in the journal under `key`
    /// and mirrors it into the index of its PGN, which is opened if need be.
    /// A frame that was stored under the same key before is overwritten in
    /// the journal, and in that index if it holds the key.
    pub fn record_frame(&mut self, key: u128, id: u32, payload: &[u8])
        requires
            old(self).wf(),
        ensures
            final(self).wf(),
            final(self).journal() == put(old(self).journal(), key, encoded(id, payload@)),
            final(self).index(pgn_of(id)) == put(
                old(self).index(pgn_of(id)),
                key,
                encoded(id, payload@),
            ),
            forall|q: u32|
                q != pgn_of(id) ==> #[trigger] final(self).index(q) == old(self).index(q),
            final(self).pgns() == if old(self).knows(pgn_of(id)) {
                old(self).pgns()
            } else {
                old(self).pgns().push(pgn_of(id))
            },
            old(self).mirrored() && !has_key(old(self).journal(), key) ==> final(self).mirrored()
                && final(self).journal().len() == old(self).journal().len() + 1,
    {
        let record = encode(id, payload);
        let mirror = record.clone();
        assert(mirror@ =~= record@);
        let pgn = pgn_from_dbc(id);
        let ghost e = (key, encoded(id, payload@));
        let at = self.index_for(pgn);
        let ghost opened = *self;
        self.append(key, record);
        self.append_to_index(at, key, mirror);
        proof {
            let slot = (pgn, put(opened.slots()[at as int].1, key, e.1));
            lemma_put_facts(opened.slots()[at as int].1, key, e.1);
            assert(self.slots() =~= opened.slots().update(at as int, slot));
            opened.lemma_index_at(at as int);
            self.lemma_index_at(at as int);
            assert(self.pgns() =~= opened.pgns());
            if !old(self).knows(pgn) {
                assert(opened.pgns() =~= old(self).pgns().push(pgn));
            }
            assert(opened.index(pgn) == old(self).index(pgn)) by {
                if old(self).knows(pgn) {
                } else {
                    assert(opened.slots()[at as int].1 == Pairs::empty());
                }
            }
            assert forall|q: u32| q != pgn implies #[trigger] self.index(q) == old(self).index(
                q,
            ) by {
                if old(self).knows(q) {
                    let i = old(self).slot_of(q);
                    assert(opened.slots()[i] == old(self).slots()[i]);
                    old(self).lemma_index_at(i);
                    opened.lemma_index_at(i);
                    self.lemma_index_at(i);
                } else if self.knows(q) {
                    let i = self.slot_of(q);
                    assert(opened.slots()[i].0 == q);
                    assert(i < old(self).slots().len());
                    assert(old(self).slots()[i].0 == q);
                }
            }
            if old(self).mirrored() && !has_key(old(self).journal(), key) {
                let was = opened.slots()[at as int].1;
                assert(!has_key(was, key)) by {
                    if has_key(was, key) {
                        let i = choose|i: int| 0 <= i < was.len() && was[i].0 == key;
                        assert(was.contains(was[i]));
                        assert(opened.journal().contains(was[i]));
                        let j = choose|j: int|
                            0 <= j < opened.journal().len() && opened.journal()[j] == was[i];
                        assert(opened.journal()[j].0 == key);
                    }
                }
                lemma_total_len_update(opened.slots(), at as int, slot);
                lemma_put_facts(opened.journal(), key, e.1);
                lemma_decode_encode(id, payload@);
                assert(opened.index(pgn) == was);
                assert(self.index(pgn) == slot.1);
                assert forall|i: int, x: (u128, Seq<u8>)|
                    0 <= i < self.slots().len() && #[trigger] self.slots()[i].1.contains(
                        x,
                    ) implies self.journal().contains(x) && x.1.len() >= 4 && pgn_of(
                    be4_value(x.1),
                ) == self.slots()[i].0 by {
                    if i == at && x == e {
                    } else {
                        assert(opened.slots()[i].1.contains(x));
                        assert(opened.journal().contains(x));
                        let j = choose|j: int|
                            0 <= j < opened.journal().len() && opened.journal()[j] == x;
                        assert(opened.journal()[j].0 != key);
                    }
                }
                assert forall|x: (u128, Seq<u8>)| #[trigger]
                    self.journal().contains(x) implies x.1.len() >= 4 && self.index(
                    pgn_of(be4_value(x.1)),
                ).contains(x) by {
                    if x != e {
                        assert(opened.journal().contains(x));
                        let q = pgn_of(be4_value(x.1));
                        assert(opened.index(q).contains(x));
                        if q != pgn {
                            assert(self.index(q) == old(self).index(q));
                            assert(opened.index(q) == old(self).index(q));
                        }
                    }
                }
            }
        }
    }

    /// The number of frames in the journal.
    pub fn count(&self) -> (n: usize)
        ensures
            n == self.journal().len(),
    {
        self.journal.count()
    }

    /// The number of frames in the index of `pgn`. The index is opened for
    /// the count: a PGN that was never recorded gets an empty one and
    /// counts 0.
    pub fn count_pgn(&mut self, pgn: u32) -> (n: usize)
        requires
            old(self).wf(),
        ensures
            n == old(self).index(pgn).len(),
            !old(self).knows(pgn) ==> n == 0,
            final(self).wf(),
            final(self).journal() == old(self).journal(),
            final(self).knows(pgn),
            old(self).knows(pgn) ==> final(self).slots() == old(self).slots(),
            !old(self).knows(pgn) ==> final(self).slots() == old(self).slots().push(
                (pgn, Pairs::empty()),
            ),
            forall|q: u32| #[trigger] final(self).index(q) == old(self).index(q),
            old(self).mirrored() ==> final(self).mirrored(),
    {
        let at = self.index_for(pgn);
        proof {
            self.lemma_index_at(at as int);
        }
        self.indices[at].tree.count()
    }

    /// The PGNs that have an index, in the order in which the indices were
    /// opened.
    pub fn list_pgn_names(&self) -> (names: Vec<u32>)
        ensures
            names@ == self.pgns(),
    {
        let mut names: Vec<u32> = Vec::new();
        let mut at: usize = 0;
        while at < self.indices.len()
            invariant
                at <= self.indices@.len(),
                self.slots().len() == self.indices@.len(),
                names@ == self.pgns().subrange(0, at as int),
            decreases self.indices@.len() - at,
        {
            names.push(self.indices[at].pgn);
            assert(names@ =~= self.pgns().subrange(0, at + 1));
            at += 1;
        }
        assert(self.pgns().subrange(0, at as int) =~= self.pgns());
        names
    }

    /// The journal, for reading.
    pub fn journal_tree(&self) -> (tree: &Tree)
        ensures
            tree@ == self.journal(),
            self.wf() ==> tree.wf(),
    {
        &self.journal
    }
}

/// The sum of the counts of the first `n` PGNs that the store lists.
pub open spec fn counted(store: Store, n: int) -> int
    decreases n,
{
    if n <= 0 {
        0
    } else {
        counted(store, n - 1) + store.index(store.pgns()[n - 1]).len()
    }
}

proof fn lemma_counted_is_total(store: Store, n: int)
    requires
        store.wf(),
        0 <= n <= store.slots().len(),
    ensures
        counted(store, n) == total_len(store.slots().subrange(0, n)),
    decreases n,
{
    if n > 0 {
        lemma_counted_is_total(store, n - 1);
        store.lemma_index_at(n - 1);
        assert(store.slots().subrange(0, n).drop_last() =~= store.slots().subrange(0, n - 1));
    }
}

/// In a mirrored store the journal's count is the sum, over the PGNs that
/// the store lists, of the counts of their indices.
pub proof fn lemma_index_counts_sum_to_journal_count(store: Store)
    requires
        store.wf(),
        store.mirrored(),
    ensures
        counted(store, store.pgns().len() as int) == store.journal().len(),
{
    lemma_counted_is_total(store, store.slots().len() as int);
    assert(store.slots().subrange(0, store.slots().len() as int) =~= store.slots());
}

/// In a mirrored store a frame is in the index of a PGN exactly when it is in
/// the journal and its arbitration ID carries that PGN.
pub proof fn lemma_index_mirrors_journal(store: Store, pgn: u32, x: (u128, Seq<u8>))
    requires
        store.wf(),
        store.mirrored(),
    ensures
        store.index(pgn).contains(x) <==> store.journal().contains(x) && pgn_of(be4_value(x.1))
            == pgn,
{
    if store.index(pgn).contains(x) {
        let i = store.slot_of(pgn);
        assert(store.slots()[i].1.contains(x));
    }
}

/// A PGN that has no index counts no frame.
pub proof fn lemma_unknown_pgn_counts_nothing(store: Store, pgn: u32)
    requires
        !store.knows(pgn),
    ensures
        store.index(pgn).len() == 0,
{
}

} // verus!
