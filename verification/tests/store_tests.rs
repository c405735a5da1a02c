use ecustats::codec::encode;
use ecustats::counter::count;
use ecustats::journal::Tree;
use ecustats::pgn_from_dbc;
use ecustats::store::Store;

fn three_frames() -> Store {
    let mut store = Store::new();
    store.record_frame(1_000, 0x18FE_F100, &[1, 2, 3, 4]);
    store.record_frame(2_000, 0x18FE_F200, &[5, 6, 7, 8]);
    store.record_frame(3_000, 0x18FE_F300, &[9]);
    store
}

fn keys_of(tree: &Tree) -> Vec<u128> {
    tree.iterate_ascending().iter().map(|e| e.key).collect()
}

#[test]
fn tree_keeps_keys_ascending() {
    let mut tree = Tree::new();
    assert_eq!(tree.count(), 0);
    tree.append(30, vec![3]);
    tree.append(10, vec![1]);
    tree.append(20, vec![2]);
    tree.append(40, vec![4]);
    assert_eq!(tree.count(), 4);
    assert_eq!(keys_of(&tree), vec![10, 20, 30, 40]);
    assert_eq!(tree.entry(1).record, vec![2]);
    assert_eq!(tree.get(30), Some(&vec![3u8]));
    assert_eq!(tree.get(31), None);
}

#[test]
fn tree_overwrites_an_existing_key() {
    let mut tree = Tree::new();
    tree.append(10, vec![1]);
    tree.append(20, vec![2]);
    tree.append(10, vec![9, 9]);
    assert_eq!(tree.count(), 2);
    assert_eq!(keys_of(&tree), vec![10, 20]);
    assert_eq!(tree.get(10), Some(&vec![9u8, 9]));
    assert_eq!(tree.get(20), Some(&vec![2u8]));
}

#[test]
fn tree_iteration_restarts() {
    let mut tree = Tree::new();
    tree.append(2, vec![]);
    tree.append(1, vec![]);
    assert_eq!(keys_of(&tree), vec![1, 2]);
    assert_eq!(keys_of(&tree), vec![1, 2]);
}

#[test]
fn journal_holds_the_encoded_frames() {
    let store = three_frames();
    let all = store.journal_tree().iterate_ascending();
    assert_eq!(all.len(), 3);
    assert_eq!(all[0].key, 1_000);
    assert_eq!(all[0].record, encode(0x18FE_F100, &[1, 2, 3, 4]));
    assert_eq!(all[2].record, vec![0x18, 0xFE, 0xF3, 0x00, 9]);
}

#[test]
fn counts_of_three_frames() {
    let mut store = three_frames();
    assert_eq!(count(&mut store, None), 3);
    assert_eq!(count(&mut store, Some(0xFEF1)), 1);
    assert_eq!(count(&mut store, Some(0xFEF2)), 1);
    assert_eq!(count(&mut store, Some(0xFEF3)), 1);
}

#[test]
fn count_of_unrecorded_pgn_is_zero() {
    let mut store = three_frames();
    assert_eq!(count(&mut store, Some(0x1234)), 0);
    assert_eq!(count(&mut store, None), 3);
    let mut empty = Store::new();
    assert_eq!(count(&mut empty, Some(0xFEF1)), 0);
    assert_eq!(count(&mut empty, None), 0);
}

#[test]
fn counting_a_pgn_opens_its_index() {
    let mut store = three_frames();
    assert_eq!(store.list_pgn_names(), vec![0xFEF1, 0xFEF2, 0xFEF3]);
    assert_eq!(store.count_pgn(0x1234), 0);
    assert_eq!(store.list_pgn_names(), vec![0xFEF1, 0xFEF2, 0xFEF3, 0x1234]);
    assert_eq!(store.count(), 3);
}

#[test]
fn index_counts_sum_to_journal_count() {
    let ids: [u32; 5] = [0x18FE_F100, 0x18FE_F200, 0x0CF0_0400, 0x18FE_F1AA, 0x1234_5600];
    let mut store = Store::new();
    let n: usize = 40;
    for i in 0..n {
        store.record_frame(1_000 + i as u128, ids[i % ids.len()], &[i as u8]);
    }
    assert_eq!(store.count(), n);
    let names = store.list_pgn_names();
    assert_eq!(names.len(), 4);
    let mut sum = 0;
    for pgn in names {
        sum += store.count_pgn(pgn);
    }
    assert_eq!(sum, n);
    assert_eq!(store.count_pgn(pgn_from_dbc(0x18FE_F100)), 16);
}

#[test]
fn index_for_reuses_the_handle() {
    let mut store = Store::new();
    let a = store.index_for(0xFEF1);
    let b = store.index_for(0xFEF2);
    assert_eq!(store.index_for(0xFEF1), a);
    assert_eq!(store.index_for(0xFEF2), b);
    assert_ne!(a, b);
    assert_eq!(store.list_pgn_names(), vec![0xFEF1, 0xFEF2]);
}

#[test]
fn colliding_keys_overwrite() {
    let mut store = Store::new();
    store.record_frame(5, 0x18FE_F100, &[1]);
    store.record_frame(5, 0x18FE_F100, &[2]);
    assert_eq!(store.count(), 1);
    assert_eq!(store.count_pgn(0xFEF1), 1);
    assert_eq!(store.journal_tree().get(5), Some(&encode(0x18FE_F100, &[2])));
}

#[test]
fn raw_appends_reach_only_their_tree() {
    let mut store = Store::new();
    store.append(2, vec![0, 0, 0, 2]);
    store.append(1, vec![0, 0, 0, 1]);
    assert_eq!(store.count(), 2);
    assert_eq!(store.list_pgn_names(), Vec::<u32>::new());
    let at = store.index_for(9);
    store.append_to_index(at, 7, vec![0, 0, 9, 0, 1]);
    store.append_to_index(at, 3, vec![0, 0, 9, 0, 2]);
    assert_eq!(store.count(), 2);
    assert_eq!(store.count_pgn(9), 2);
    assert_eq!(keys_of(store.journal_tree()), vec![1, 2]);
}
