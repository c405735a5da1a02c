//! An ordered tree from capture key to stored record. The journal is one such
//! tree, and each PGN's index is another.

use vstd::prelude::*;

verus! {

/// What a tree holds: capture keys with their records, lowest key first.
pub type Pairs = Seq<(u128, Seq<u8>)>;

/// One stored frame: the capture key, in microseconds since the epoch, and
/// the encoded record.
#[derive(Debug)]
pub struct Entry {
    pub key: u128,
    pub record: Vec<u8>,
}

impl View for Entry {
    type V = (u128, Seq<u8>);

    open spec fn view(&self) -> (u128, Seq<u8>) {
        (self.key, self.record@)
    }
}

/// Keys rise strictly from one pair to the next, so no key occurs twice.
pub open spec fn ascending(s: Pairs) -> bool {
    forall|i: int, j: int| 0 <= i < j < s.len() ==> s[i].0 < s[j].0
}

/// Some pair of `s` has this key.
pub open spec fn has_key(s: Pairs, key: u128) -> bool {
    exists|i: int| 0 <= i < s.len() && s[i].0 == key
}

/// `s` after a record is stored under `key`: the pair takes the place that
/// keeps the keys ascending, and replaces the pair that had the key before.
pub open spec fn put(s: Pairs, key: u128, record: Seq<u8>) -> Pairs
    decreases s.len(),
{
    if s.len() == 0 {
        seq![(key, record)]
    } else if s.last().0 < key {
        s.push((key, record))
    } else if s.last().0 == key {
        s.drop_last().push((key, record))
    } else {
        put(s.drop_last(), key, record).push(s.last())
    }
}

/// Where `put` places the pair, given the first position `at` behind which
/// every key is greater.
pub proof fn lemma_put_at(s: Pairs, key: u128, record: Seq<u8>, at: int)
    requires
        0 <= at <= s.len(),
        forall|j: int| at <= j < s.len() ==> s[j].0 > key,
        at > 0 ==> s[at - 1].0 <= key,
    ensures
        at > 0 && s[at - 1].0 == key ==> put(s, key, record) == s.update(at - 1, (key, record)),
        !(at > 0 && s[at - 1].0 == key) ==> put(s, key, record) == s.insert(at, (key, record)),
    decreases s.len(),
{
    let e = (key, record);
    if s.len() == 0 {
        assert(seq![e] =~= s.insert(0, e));
    } else if at == s.len() {
        if s.last().0 < key {
            assert(s.push(e) =~= s.insert(at, e));
        } else {
            assert(s.drop_last().push(e) =~= s.update(at - 1, e));
        }
    } else {
        let front = s.drop_last();
        lemma_put_at(front, key, record, at);
        if at > 0 && s[at - 1].0 == key {
            assert(front.update(at - 1, e).push(s.last()) =~= s.update(at - 1, e));
        } else {
            assert(front.insert(at, e).push(s.last()) =~= s.insert(at, e));
        }
    }
}

/// What holds of a tree after `put`: the keys still ascend, the length grows
/// by one exactly when the key is new, and the pairs are the new one and the
/// old ones under other keys.
pub proof fn lemma_put_facts(s: Pairs, key: u128, record: Seq<u8>)
    requires
        ascending(s),
    ensures
        ascending(put(s, key, record)),
        put(s, key, record).len() == s.len() + if has_key(s, key) { 0int } else { 1int },
        forall|x: (u128, Seq<u8>)|
            #![trigger put(s, key, record).contains(x)]
            #![trigger s.contains(x)]
            put(s, key, record).contains(x) <==> (x == (key, record) || (s.contains(x) && x.0
                != key)),
    decreases s.len(),
{
    let e = (key, record);
    let t = put(s, key, record);
    if s.len() == 0 {
        assert(t[0] == e);
        assert(!has_key(s, key));
        assert forall|x: (u128, Seq<u8>)| t.contains(x) <==> (x == e || (s.contains(x) && x.0
            != key)) by {}
    } else if s.last().0 < key {
        assert(t[s.len() as int] == e);
        assert(!has_key(s, key)) by {
            if has_key(s, key) {
                let i = choose|i: int| 0 <= i < s.len() && s[i].0 == key;
                assert(i < s.len() - 1 ==> s[i].0 < s.last().0);
            }
        }
        assert forall|x: (u128, Seq<u8>)| t.contains(x) <==> (x == e || (s.contains(x) && x.0
            != key)) by {
            if s.contains(x) {
                let i = choose|i: int| 0 <= i < s.len() && s[i] == x;
                assert(t[i] == x);
                assert(i < s.len() - 1 ==> s[i].0 < s.last().0);
            }
            if t.contains(x) {
                let i = choose|i: int| 0 <= i < t.len() && t[i] == x;
                if i < s.len() {
                    assert(s[i] == x);
                    assert(i < s.len() - 1 ==> s[i].0 < s.last().0);
                }
            }
        }
    } else if s.last().0 == key {
        let n = s.len() - 1;
        assert(t[n] == e);
        assert(has_key(s, key));
        assert forall|x: (u128, Seq<u8>)| t.contains(x) <==> (x == e || (s.contains(x) && x.0
            != key)) by {
            if s.contains(x) && x.0 != key {
                let i = choose|i: int| 0 <= i < s.len() && s[i] == x;
                assert(t[i] == x);
            }
            if t.contains(x) {
                let i = choose|i: int| 0 <= i < t.len() && t[i] == x;
                if i < n {
                    assert(s[i] == x);
                    assert(s[i].0 < s[n].0);
                }
            }
        }
    } else {
        let front = s.drop_last();
        let last = s.last();
        let n = s.len() - 1;
        let p = put(front, key, record);
        lemma_put_facts(front, key, record);
        assert(has_key(s, key) <==> has_key(front, key)) by {
            if has_key(s, key) {
                let i = choose|i: int| 0 <= i < s.len() && s[i].0 == key;
                assert(front[i].0 == key);
            }
            if has_key(front, key) {
                let i = choose|i: int| 0 <= i < front.len() && front[i].0 == key;
                assert(s[i].0 == key);
            }
        }
        assert forall|i: int, j: int| 0 <= i < j < t.len() implies t[i].0 < t[j].0 by {
            if j == p.len() {
                assert(p.contains(p[i]));
                if p[i] != e {
                    let k = choose|k: int| 0 <= k < front.len() && front[k] == p[i];
                    assert(s[k].0 < s[n].0);
                }
            }
        }
        assert forall|x: (u128, Seq<u8>)| t.contains(x) <==> (x == e || (s.contains(x) && x.0
            != key)) by {
            if t.contains(x) {
                let i = choose|i: int| 0 <= i < t.len() && t[i] == x;
                if i < p.len() {
                    assert(p.contains(x));
                    if x != e {
                        let k = choose|k: int| 0 <= k < front.len() && front[k] == x;
                        assert(s[k] == x);
                    }
                } else {
                    assert(s[n] == x);
                }
            }
            if x == e {
                assert(p.contains(x));
                let i = choose|i: int| 0 <= i < p.len() && p[i] == x;
                assert(t[i] == x);
            }
            if s.contains(x) && x.0 != key {
                let k = choose|k: int| 0 <= k < s.len() && s[k] == x;
                if k < n {
                    assert(front[k] == x);
                    assert(p.contains(x));
                    let i = choose|i: int| 0 <= i < p.len() && p[i] == x;
                    assert(t[i] == x);
                } else {
                    assert(t[p.len() as int] == x);
                }
            }
        }
    }
}

/// An ordered tree of stored frames.
#[derive(Debug)]
pub struct Tree {
    entries: Vec<Entry>,
}

impl View for Tree {
    type V = Pairs;

    closed spec fn view(&self) -> Pairs {
        self.entries@.map_values(|e: Entry| e@)
    }
}

impl Tree {
    /// The tree's invariant: its keys ascend strictly.
    pub open spec fn wf(self) -> bool {
        ascending(self@)
    }

    /// An empty tree.
    pub fn new() -> (tree: Tree)
        ensures
            tree@ == Pairs::empty(),
            tree.wf(),
    {
        let tree = Tree { entries: Vec::new() };
        assert(tree@ =~= Pairs::empty());
        tree
    }

    /// Stores `record` under `key`. A record that was stored under the same
    /// key before is overwritten; nothing else changes.
    pub fn append(&mut self, key: u128, record: Vec<u8>)
        requires
            old(self).wf(),
        ensures
            final(self).wf(),
            final(self)@ == put(old(self)@, key, record@),
            final(self)@.len() == old(self)@.len() + if has_key(old(self)@, key) {
                0int
            } else {
                1int
            },
            forall|x: (u128, Seq<u8>)|
                #![trigger final(self)@.contains(x)]
                #![trigger old(self)@.contains(x)]
                final(self)@.contains(x) <==> (x == (key, record@) || (old(self)@.contains(x)
                    && x.0 != key)),
    {
        let ghost before = self@;
        let mut at: usize = self.entries.len();
        while at > 0 && self.entries[at - 1].key > key
            invariant
                at <= self.entries@.len(),
                self@ == before,
                forall|j: int| at <= j < before.len() ==> before[j].0 > key,
            decreases at,
        {
            at -= 1;
        }
        proof {
            lemma_put_at(before, key, record@, at as int);
            lemma_put_facts(before, key, record@);
        }
        if at > 0 && self.entries[at - 1].key == key {
            self.entries.set(at - 1, Entry { key, record });
            assert(self@ =~= before.update(at - 1, (key, record@)));
        } else {
            self.entries.insert(at, Entry { key, record });
            assert(self@ =~= before.insert(at as int, (key, record@)));
        }
    }

    /// The number of stored frames.
    pub fn count(&self) -> (n: usize)
        ensures
            n == self@.len(),
    {
        self.entries.len()
    }

    /// The frame at position `at` of the ascending order.
    pub fn entry(&self, at: usize) -> (e: &Entry)
        requires
            at < self@.len(),
        ensures
            e@ == self@[at as int],
    {
        &self.entries[at]
    }

    /// The record stored under `key`, if there is one.
    pub fn get(&self, key: u128) -> (r: Option<&Vec<u8>>)
        ensures
            r is Some <==> has_key(self@, key),
            r is Some ==> self@.contains((key, r->Some_0@)),
    {
        let mut at: usize = 0;
        while at < self.entries.len()
            invariant
                at <= self@.len(),
                self@.len() == self.entries@.len(),
                forall|j: int| 0 <= j < at ==> self@[j].0 != key,
            decreases self@.len() - at,
        {
            if self.entries[at].key == key {
                assert(self@[at as int] == (key, self.entries[at as int].record@));
                return Some(&self.entries[at].record);
            }
            at += 1;
        }
        None
    }

    /// Every stored frame, lowest key first. Each call starts from the
    /// beginning.
    pub fn iterate_ascending(&self) -> (all: &Vec<Entry>)
        ensures
            all@.map_values(|e: Entry| e@) == self@,
            all@.len() == self@.len(),
    {
        &self.entries
    }
}

} // verus!
