//! Dumping: what to print for each recorded frame, or for each recorded PGN,
//! given a dictionary of PGN descriptions.

use vstd::prelude::*;
use crate::cli::DumpType;
use crate::codec::{be4_value, id_of};
use crate::journal::{Pairs, Tree};
use crate::store::Store;
use crate::{in_proprietary_band, is_proprietary_pgn, pgn_from_dbc, pgn_of};

verus! {

/// One entry of the dictionary.
#[derive(Debug)]
pub struct Definition {
    pub pgn: u32,
    pub description: String,
}

/// The descriptions of the PGNs that a signal database defines.
#[derive(Debug)]
pub struct Dictionary {
    entries: Vec<Definition>,
}

/// The description that a list of definitions gives a PGN: that of the last
/// definition made for it.
pub open spec fn described(defs: Seq<(u32, Seq<char>)>, pgn: u32) -> Option<Seq<char>>
    decreases defs.len(),
{
    if defs.len() == 0 {
        None
    } else if defs.last().0 == pgn {
        Some(defs.last().1)
    } else {
        described(defs.drop_last(), pgn)
    }
}

impl View for Dictionary {
    type V = Seq<(u32, Seq<char>)>;

    closed spec fn view(&self) -> Seq<(u32, Seq<char>)> {
        self.entries@.map_values(|d: Definition| (d.pgn, d.description@))
    }
}

impl Dictionary {
    /// A dictionary that defines nothing.
    pub fn new() -> (dict: Dictionary)
        ensures
            dict@.len() == 0,
            forall|pgn: u32| described(dict@, pgn) is None,
    {
        Dictionary { entries: Vec::new() }
    }

    /// Defines `pgn`; a definition made for it before is superseded.
    pub fn define(&mut self, pgn: u32, description: String)
        ensures
            final(self)@ == old(self)@.push((pgn, description@)),
            described(final(self)@, pgn) == Some(description@),
            forall|q: u32| q != pgn ==> described(final(self)@, q) == described(old(self)@, q),
    {
        let ghost before = self@;
        self.entries.push(Definition { pgn, description });
        assert(self@ =~= before.push((pgn, description@)));
        assert(self@.drop_last() =~= before);
    }

    /// Looks a PGN up.
    pub fn lookup(&self, pgn: u32) -> (found: Option<&String>)
        ensures
            found is Some <==> described(self@, pgn) is Some,
            found is Some ==> described(self@, pgn) == Some(found->Some_0@),
    {
        let mut at: usize = self.entries.len();
        assert(self@.subrange(0, at as int) =~= self@);
        while at > 0
            invariant
                at <= self.entries@.len(),
                self@.len() == self.entries@.len(),
                described(self@, pgn) == described(self@.subrange(0, at as int), pgn),
            decreases at,
        {
            at -= 1;
            assert(self@.subrange(0, at + 1).drop_last() =~= self@.subrange(0, at as int));
            if self.entries[at].pgn == pgn {
                return Some(&self.entries[at].description);
            }
        }
        None
    }
}

/// What to do about one PGN.
#[derive(Debug)]
pub enum Verdict {
    /// Print the description.
    Print(String),
    /// Warn that the PGN is unknown.
    Warn(u32),
    /// Print nothing: the PGN is proprietary and expected to be undocumented.
    Skip,
}

/// A verdict with its description as a sequence of characters.
pub enum VerdictView {
    Print(Seq<char>),
    Warn(u32),
    Skip,
}

impl View for Verdict {
    type V = VerdictView;

    open spec fn view(&self) -> VerdictView {
        match self {
            Verdict::Print(d) => VerdictView::Print(d@),
            Verdict::Warn(pgn) => VerdictView::Warn(*pgn),
            Verdict::Skip => VerdictView::Skip,
        }
    }
}

/// One line of a dump: the capture time, where the dump walks the frames,
/// and what to do.
#[derive(Debug)]
pub struct DumpLine {
    pub time: Option<u128>,
    pub verdict: Verdict,
}

impl View for DumpLine {
    type V = (Option<u128>, VerdictView);

    open spec fn view(&self) -> (Option<u128>, VerdictView) {
        (self.time, self.verdict@)
    }
}

/// A stored record that is too short to hold an arbitration ID.
#[derive(Debug, Clone, Copy, PartialEq, Eq, Structural)]
pub struct CorruptRecord {
    /// The capture key of the record.
    pub key: u128,
}

/// The verdict on a PGN, given what the dictionary says of it: a described
/// PGN is printed, an undescribed one draws a warning unless it lies in the
/// proprietary band.
pub open spec fn verdict_of(pgn: u32, description: Option<Seq<char>>) -> VerdictView {
    match description {
        Some(d) => VerdictView::Print(d),
        None => if in_proprietary_band(pgn) {
            VerdictView::Skip
        } else {
            VerdictView::Warn(pgn)
        },
    }
}

/// The line for one journal entry whose record holds an arbitration ID.
pub open spec fn line_of(pair: (u128, Seq<u8>), defs: Seq<(u32, Seq<char>)>) -> (
    Option<u128>,
    VerdictView,
) {
    let pgn = pgn_of(be4_value(pair.1));
    (Some(pair.0), verdict_of(pgn, described(defs, pgn)))
}

/// A record of `s` is too short to hold an arbitration ID.
pub open spec fn short_at(s: Pairs, i: int) -> bool {
    0 <= i < s.len() && s[i].1.len() < 4
}

/// Decides what to do about a PGN from the dictionary's answer.
pub fn verdict(pgn: u32, description: Option<&String>) -> (v: Verdict)
    ensures
        v@ == verdict_of(
            pgn,
            match description {
                Some(d) => Some(d@),
                None => None,
            },
        ),
{
    match description {
        Some(d) => Verdict::Print(d.clone()),
        None => {
            if is_proprietary_pgn(pgn) {
                Verdict::Skip
            } else {
                Verdict::Warn(pgn)
            }
        },
    }
}

/// Walks the journal in ascending order of the keys and gives one line per
/// frame, with the frame's capture time. Fails at the first record that is
/// too short, with its key.
pub fn dump_all(journal: &Tree, dict: &Dictionary) -> (r: Result<Vec<DumpLine>, CorruptRecord>)
    ensures
        r is Ok <==> forall|i: int| !short_at(journal@, i),
        r is Ok ==> r->Ok_0@.len() == journal@.len() && forall|i: int|
            0 <= i < journal@.len() ==> (#[trigger] r->Ok_0@[i])@ == line_of(journal@[i], dict@),
        r is Err ==> exists|i: int|
            #[trigger] short_at(journal@, i) && r->Err_0.key == journal@[i].0 && forall|j: int|
                0 <= j < i ==> !short_at(journal@, j),
{
    let mut lines: Vec<DumpLine> = Vec::new();
    let mut at: usize = 0;
    while at < journal.count()
        invariant
            at <= journal@.len(),
            lines@.len() == at,
            forall|j: int| 0 <= j < at ==> !short_at(journal@, j),
            forall|i: int| 0 <= i < at ==> (#[trigger] lines@[i])@ == line_of(journal@[i], dict@),
        decreases journal@.len() - at,
    {
        let entry = journal.entry(at);
        match id_of(entry.record.as_slice()) {
            Err(_) => {
                assert(short_at(journal@, at as int));
                return Err(CorruptRecord { key: entry.key });
            },
            Ok(id) => {
                let pgn = pgn_from_dbc(id);
                let verdict = verdict(pgn, dict.lookup(pgn));
                lines.push(DumpLine { time: Some(entry.key), verdict });
            },
        }
        at += 1;
    }
    assert forall|i: int| !short_at(journal@, i) by {}
    Ok(lines)
}

/// Gives one line per PGN that has an index, in the order of the indices
/// and without a time, however many frames the index holds.
pub fn dump_pgns(store: &Store, dict: &Dictionary) -> (lines: Vec<DumpLine>)
    ensures
        lines@.len() == store.pgns().len(),
        forall|i: int|
            0 <= i < lines@.len() ==> (#[trigger] lines@[i])@ == (
                None::<u128>,
                verdict_of(store.pgns()[i], described(dict@, store.pgns()[i])),
            ),
{
    let names = store.list_pgn_names();
    let mut lines: Vec<DumpLine> = Vec::new();
    let mut at: usize = 0;
    while at < names.len()
        invariant
            at <= names@.len(),
            names@ == store.pgns(),
            lines@.len() == at,
            forall|i: int|
                0 <= i < at ==> (#[trigger] lines@[i])@ == (
                    None::<u128>,
                    verdict_of(names@[i], described(dict@, names@[i])),
                ),
        decreases names@.len() - at,
    {
        let pgn = names[at];
        lines.push(DumpLine { time: None, verdict: verdict(pgn, dict.lookup(pgn)) });
        at += 1;
    }
    lines
}

/// Dumps the store in the mode asked for: every frame of the journal, or
/// every PGN once.
pub fn dump(store: &Store, dict: &Dictionary, from: DumpType) -> (r: Result<
    Vec<DumpLine>,
    CorruptRecord,
>)
    ensures
        from == DumpType::PGNs ==> r is Ok && r->Ok_0@.len() == store.pgns().len() && forall|i: int|
            0 <= i < r->Ok_0@.len() ==> (#[trigger] r->Ok_0@[i])@ == (
                None::<u128>,
                verdict_of(store.pgns()[i], described(dict@, store.pgns()[i])),
            ),
        from == DumpType::All ==> (r is Ok <==> forall|i: int| !short_at(store.journal(), i)),
        from == DumpType::All && r is Ok ==> r->Ok_0@.len() == store.journal().len() && forall|
            i: int,
        |
            0 <= i < store.journal().len() ==> (#[trigger] r->Ok_0@[i])@ == line_of(
                store.journal()[i],
                dict@,
            ),
        from == DumpType::All && r is Err ==> exists|i: int|
            #[trigger] short_at(store.journal(), i) && r->Err_0.key == store.journal()[i].0
                && forall|j: int| 0 <= j < i ==> !short_at(store.journal(), j),
{
    match from {
        DumpType::All => dump_all(store.journal_tree(), dict),
        DumpType::PGNs => Ok(dump_pgns(store, dict)),
    }
}

} // verus!
