use ecustats::cli::DumpType;
use ecustats::dumper::{dump, dump_all, dump_pgns, verdict, Dictionary, DumpLine, Verdict};
use ecustats::journal::Tree;
use ecustats::player::{frame_of, playback, FrameFault, PlaybackError};
use ecustats::recorder::{record, Action, Phase, ReadOutcome, Recorder};
use ecustats::store::Store;

fn frame(key: u128, id: u32, payload: &[u8]) -> ReadOutcome {
    ReadOutcome::Frame { key, id, payload: payload.to_vec() }
}

fn three_frames() -> Store {
    let mut store = Store::new();
    store.record_frame(1_000, 0x18FE_F100, &[1, 2, 3, 4]);
    store.record_frame(2_000, 0x18FE_F200, &[5, 6, 7, 8]);
    store.record_frame(3_000, 0x18FE_F300, &[9]);
    store
}

fn shown(line: &DumpLine) -> (Option<u128>, String) {
    let text = match &line.verdict {
        Verdict::Print(d) => format!("print {}", d),
        Verdict::Warn(pgn) => format!("warn {}", pgn),
        Verdict::Skip => "skip".to_string(),
    };
    (line.time, text)
}

#[test]
fn playback_keeps_order_and_content() {
    let mut store = Store::new();
    store.record_frame(3_000, 0x18FE_F300, &[9]);
    store.record_frame(1_000, 0x18FE_F100, &[1, 2, 3, 4]);
    store.record_frame(2_000, 0x18FE_F200, &[5, 6, 7, 8]);
    let frames = playback(store.journal_tree()).unwrap();
    let got: Vec<(u32, Vec<u8>)> = frames.into_iter().map(|f| (f.id, f.payload)).collect();
    assert_eq!(
        got,
        vec![
            (0x18FE_F100, vec![1, 2, 3, 4]),
            (0x18FE_F200, vec![5, 6, 7, 8]),
            (0x18FE_F300, vec![9]),
        ]
    );
}

#[test]
fn playback_of_an_empty_journal_emits_nothing() {
    let store = Store::new();
    assert_eq!(playback(store.journal_tree()).unwrap().len(), 0);
}

#[test]
fn playback_names_the_corrupt_record() {
    let mut tree = Tree::new();
    tree.append(1, vec![0, 0, 0, 1, 7]);
    tree.append(2, vec![0, 0, 1]);
    tree.append(3, vec![0]);
    assert_eq!(playback(&tree).unwrap_err(), PlaybackError::CorruptRecord { key: 2 });
}

#[test]
fn playback_refuses_what_the_bus_cannot_carry() {
    let mut long = Tree::new();
    long.append(7, vec![0, 0, 0, 1, 1, 2, 3, 4, 5, 6, 7, 8, 9]);
    assert_eq!(
        playback(&long).unwrap_err(),
        PlaybackError::Unsendable { key: 7, fault: FrameFault::TooMuchData }
    );
    let mut wide = Tree::new();
    wide.append(8, vec![0x20, 0, 0, 0, 1]);
    assert_eq!(
        playback(&wide).unwrap_err(),
        PlaybackError::Unsendable { key: 8, fault: FrameFault::IdTooLarge }
    );
    let mut both = Tree::new();
    both.append(9, vec![0xFF, 0xFF, 0xFF, 0xFF, 1, 2, 3, 4, 5, 6, 7, 8, 9]);
    assert_eq!(
        playback(&both).unwrap_err(),
        PlaybackError::Unsendable { key: 9, fault: FrameFault::TooMuchData }
    );
}

#[test]
fn frame_of_gives_id_and_payload() {
    let f = frame_of(1, &[0x1F, 0xFF, 0xFF, 0xFF, 1, 2, 3, 4, 5, 6, 7, 8]).unwrap();
    assert_eq!(f.id, 0x1FFF_FFFF);
    assert_eq!(f.payload, vec![1, 2, 3, 4, 5, 6, 7, 8]);
    let g = frame_of(2, &[0, 0, 0x07, 0xFF]).unwrap();
    assert_eq!(g.id, 0x7FF);
    assert_eq!(g.payload, Vec::<u8>::new());
    let h = frame_of(3, &[0, 0, 0x08, 0x00, 5]).unwrap();
    assert_eq!(h.id, 0x800);
    assert_eq!(h.payload, vec![5]);
}

#[test]
fn dictionary_gives_the_last_definition() {
    let mut dict = Dictionary::new();
    assert_eq!(dict.lookup(1), None);
    dict.define(1, "first".to_string());
    dict.define(2, "other".to_string());
    dict.define(1, "second".to_string());
    assert_eq!(dict.lookup(1), Some(&"second".to_string()));
    assert_eq!(dict.lookup(2), Some(&"other".to_string()));
    assert_eq!(dict.lookup(3), None);
}

#[test]
fn verdict_prints_warns_or_skips() {
    let d = "Engine Temperature".to_string();
    assert!(matches!(verdict(0xFEF1, Some(&d)), Verdict::Print(s) if s == "Engine Temperature"));
    assert!(matches!(verdict(0x1234, None), Verdict::Warn(0x1234)));
    assert!(matches!(verdict(0xFEF2, None), Verdict::Warn(0xFEF2)));
    assert!(matches!(verdict(0xFF10, None), Verdict::Skip));
    assert!(matches!(verdict(65279, None), Verdict::Warn(65279)));
    assert!(matches!(verdict(65280, None), Verdict::Skip));
    assert!(matches!(verdict(65535, None), Verdict::Skip));
    assert!(matches!(verdict(65536, None), Verdict::Warn(65536)));
}

#[test]
fn dump_all_describes_warns_and_suppresses() {
    let mut dict = Dictionary::new();
    dict.define(0xFEF1, "Engine Temperature".to_string());
    let mut store = Store::new();
    store.record_frame(10, 0x18FE_F100, &[1]);
    store.record_frame(20, 0x18FE_F200, &[2]);
    store.record_frame(30, 0x0012_3400, &[3]);
    store.record_frame(40, 0x18FE_F1FF, &[4]);
    store.record_frame(50, 0x18FF_1000, &[5]);
    let lines = dump_all(store.journal_tree(), &dict).unwrap();
    let got: Vec<(Option<u128>, String)> = lines.iter().map(shown).collect();
    assert_eq!(
        got,
        vec![
            (Some(10), "print Engine Temperature".to_string()),
            (Some(20), "warn 65266".to_string()),
            (Some(30), "warn 4660".to_string()),
            (Some(40), "print Engine Temperature".to_string()),
            (Some(50), "skip".to_string()),
        ]
    );
}

#[test]
fn dump_all_names_the_corrupt_record() {
    let dict = Dictionary::new();
    let mut tree = Tree::new();
    tree.append(5, vec![0, 0, 0, 0]);
    tree.append(6, vec![1, 2, 3]);
    assert_eq!(dump_all(&tree, &dict).unwrap_err().key, 6);
}

#[test]
fn dump_pgns_gives_one_line_per_pgn() {
    let mut dict = Dictionary::new();
    dict.define(0xFEF1, "Engine Temperature".to_string());
    let mut store = Store::new();
    store.record_frame(10, 0x18FE_F100, &[1]);
    store.record_frame(20, 0x18FE_F100, &[2]);
    store.record_frame(30, 0x0012_3400, &[3]);
    store.record_frame(40, 0x18FF_1000, &[4]);
    store.record_frame(50, 0x18FE_F100, &[5]);
    store.record_frame(60, 0x18FE_F200, &[6]);
    let got: Vec<(Option<u128>, String)> = dump_pgns(&store, &dict).iter().map(shown).collect();
    assert_eq!(
        got,
        vec![
            (None, "print Engine Temperature".to_string()),
            (None, "warn 4660".to_string()),
            (None, "skip".to_string()),
            (None, "warn 65266".to_string()),
        ]
    );
}

#[test]
fn dump_follows_the_selector() {
    let mut dict = Dictionary::new();
    dict.define(0xFEF1, "Engine Temperature".to_string());
    let store = three_frames();
    let all = dump(&store, &dict, DumpType::All).unwrap();
    assert_eq!(all.len(), 3);
    assert_eq!(shown(&all[0]), (Some(1_000), "print Engine Temperature".to_string()));
    let pgns = dump(&store, &dict, DumpType::PGNs).unwrap();
    assert_eq!(pgns.len(), 3);
    assert_eq!(shown(&pgns[0]), (None, "print Engine Temperature".to_string()));
}

#[test]
fn recorder_walks_its_phases() {
    let mut r = Recorder::new(Some(2));
    assert_eq!(r.phase, Phase::Idle);
    assert_eq!(r.step(&frame(1, 1, &[])), Action::Rest);
    assert_eq!(r.captured, 0);
    r.start();
    assert_eq!(r.phase, Phase::Capturing);
    assert!(r.poll(false));
    assert_eq!(r.step(&ReadOutcome::Transient), Action::Retry);
    assert_eq!((r.phase, r.captured), (Phase::Capturing, 0));
    assert_eq!(r.step(&frame(1, 1, &[])), Action::Store);
    assert_eq!((r.phase, r.captured), (Phase::Capturing, 1));
    assert_eq!(r.step(&frame(2, 1, &[])), Action::Store);
    assert_eq!((r.phase, r.captured), (Phase::LimitReached, 2));
    assert!(!r.poll(false));
    assert_eq!(r.step(&frame(3, 1, &[])), Action::Rest);
    assert_eq!((r.phase, r.captured), (Phase::LimitReached, 2));
}

#[test]
fn recorder_stops_on_cancel_and_on_failure() {
    let mut r = Recorder::new(None);
    r.start();
    assert_eq!(r.step(&frame(1, 1, &[])), Action::Store);
    assert!(!r.poll(true));
    assert_eq!((r.phase, r.captured), (Phase::Cancelled, 1));
    let mut f = Recorder::new(None);
    f.start();
    assert_eq!(f.step(&ReadOutcome::Fatal), Action::Abort);
    assert_eq!((f.phase, f.captured), (Phase::Failed, 0));
    assert!(!f.poll(true));
    assert_eq!(f.phase, Phase::Failed);
}

#[test]
fn recorder_counts_a_frame_before_testing_the_limit() {
    let mut r = Recorder::new(Some(0));
    r.start();
    assert!(r.poll(false));
    assert_eq!(r.step(&frame(1, 1, &[])), Action::Store);
    assert_eq!((r.phase, r.captured), (Phase::LimitReached, 1));
}

#[test]
fn record_stores_until_the_limit() {
    let reads = vec![
        ReadOutcome::Transient,
        frame(1_000, 0x18FE_F100, &[1, 2, 3, 4]),
        ReadOutcome::Transient,
        frame(2_000, 0x18FE_F200, &[5, 6, 7, 8]),
        frame(3_000, 0x18FE_F300, &[9]),
        frame(4_000, 0x18FE_F100, &[10]),
    ];
    let mut store = Store::new();
    let summary = record(&mut store, Some(3), &reads);
    assert_eq!(summary.phase, Phase::LimitReached);
    assert_eq!(summary.captured, 3);
    assert_eq!(summary.consumed, 5);
    assert_eq!(summary.pgns, 3);
    assert_eq!(store.count(), 3);
    assert_eq!(store.count_pgn(0xFEF1), 1);
    let frames = playback(store.journal_tree()).unwrap();
    assert_eq!(frames[2].id, 0x18FE_F300);
    assert_eq!(frames[2].payload, vec![9]);
}

#[test]
fn record_is_cancelled_when_the_reads_run_out() {
    let reads = vec![frame(1, 0x18FE_F100, &[1]), ReadOutcome::Transient];
    let mut store = Store::new();
    let summary = record(&mut store, None, &reads);
    assert_eq!(summary.phase, Phase::Cancelled);
    assert_eq!((summary.captured, summary.consumed, summary.pgns), (1, 2, 1));
    let mut idle = Store::new();
    let none = record(&mut idle, Some(5), &Vec::new());
    assert_eq!(none.phase, Phase::Cancelled);
    assert_eq!((none.captured, none.consumed, none.pgns), (0, 0, 0));
}

#[test]
fn record_stops_at_a_fatal_read() {
    let reads = vec![
        frame(1, 0x18FE_F100, &[1]),
        ReadOutcome::Fatal,
        frame(2, 0x18FE_F200, &[2]),
    ];
    let mut store = Store::new();
    let summary = record(&mut store, None, &reads);
    assert_eq!(summary.phase, Phase::Failed);
    assert_eq!((summary.captured, summary.consumed), (1, 2));
    assert_eq!(store.count(), 1);
    assert_eq!(store.count_pgn(0xFEF2), 0);
}

#[test]
fn record_keeps_the_indices_in_step_with_the_journal() {
    let ids: [u32; 4] = [0x18FE_F100, 0x0CF0_0400, 0x18FE_F200, 0x18FE_F1AA];
    let mut reads = Vec::new();
    for i in 0..24u32 {
        let key = 10_000 + ((i * 7) % 24) as u128;
        reads.push(frame(key, ids[(i % 4) as usize], &[i as u8]));
        if i % 5 == 0 {
            reads.push(ReadOutcome::Transient);
        }
    }
    let mut store = Store::new();
    let summary = record(&mut store, None, &reads);
    assert_eq!(summary.phase, Phase::Cancelled);
    assert_eq!(summary.captured, 24);
    assert_eq!(summary.consumed, reads.len());
    assert_eq!(summary.pgns, 3);
    assert_eq!(store.count(), 24);
    let mut sum = 0;
    for pgn in store.list_pgn_names() {
        sum += store.count_pgn(pgn);
    }
    assert_eq!(sum, 24);
    let keys: Vec<u128> = store.journal_tree().iterate_ascending().iter().map(|e| e.key).collect();
    let expected: Vec<u128> = (10_000..10_024).collect();
    assert_eq!(keys, expected);
}
