//! The options of the four subcommands, as plain values.

use vstd::prelude::*;
use vstd::string::*;

verus! {

/// What `dump` walks: every recorded frame, or each recorded PGN once.
#[derive(Debug, Clone, Copy, PartialEq, Eq, Structural)]
pub enum DumpType {
    All,
    PGNs,
}

/// Options of `rec`.
#[derive(Debug, Clone)]
pub struct RecordingOpts {
    pub socket: String,
    pub journal: String,
    /// Stop after this many recorded frames.
    pub limit: Option<usize>,
    /// Compression factor of the store, 1 to 22.
    pub compression: Option<i32>,
}

/// Options of `play`.
#[derive(Debug, Clone)]
pub struct PlaybackOpts {
    pub dbc: String,
    pub socket: String,
    pub journal: String,
    /// Milliseconds to wait after each frame.
    pub delay: u64,
}

/// Options of `dump`.
#[derive(Debug, Clone)]
pub struct DumpOpts {
    pub from: DumpType,
    pub dbc: String,
    pub socket: String,
    pub journal: String,
}

/// Options of `count`.
#[derive(Debug, Clone)]
pub struct CountOpts {
    pub dbc: String,
    pub journal: String,
    /// Count only the frames of this PGN.
    pub pgn: Option<u32>,
}

/// One of the four subcommands with its options.
#[derive(Debug, Clone)]
pub enum Subcommand {
    Rec(RecordingOpts),
    Play(PlaybackOpts),
    Dump(DumpOpts),
    Count(CountOpts),
}

/// The whole command line.
#[derive(Debug, Clone)]
pub struct Opts {
    pub cmd: Subcommand,
}

/// The message for a dump selector that is neither `all` nor `pgns`.
pub open spec fn unsupported_message(s: Seq<char>) -> Seq<char> {
    s + " is not supported"@
}

impl DumpType {
    /// Reads a dump selector: `all` or `pgns`, in lower case. Anything else
    /// is refused with a message that quotes the input.
    pub fn from_str(s: &str) -> (r: Result<DumpType, String>)
        ensures
            s@ == "all"@ ==> r is Ok && r->Ok_0 == DumpType::All,
            s@ == "pgns"@ ==> r is Ok && r->Ok_0 == DumpType::PGNs,
            s@ != "all"@ && s@ != "pgns"@ ==> r is Err && r->Err_0@ == unsupported_message(s@),
    {
        proof {
            reveal_strlit("all");
            reveal_strlit("pgns");
            assert("all"@.len() == 3);
            assert("pgns"@.len() == 4);
        }
        let owned = s.to_owned();
        if owned == "all".to_owned() {
            Ok(DumpType::All)
        } else if owned == "pgns".to_owned() {
            Ok(DumpType::PGNs)
        } else {
            Err(owned.concat(" is not supported"))
        }
    }
}

} // verus!
