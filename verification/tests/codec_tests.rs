use ecustats::cli::DumpType;
use ecustats::codec::{
    be_bytes, capture_key_bytes, capture_key_from_bytes, decode, encode, id_of, pgn_from_name,
    pgn_name,
};
use ecustats::{is_at_most_proprietary, is_proprietary_pgn, pgn_from_dbc};

#[test]
fn pgn_of_boundary_ids() {
    assert_eq!(pgn_from_dbc(0), 0);
    assert_eq!(pgn_from_dbc(0x1FF_FFFF), 0x1FFFF);
    assert_eq!(pgn_from_dbc(0xFFFF_FFFF), 0x1FFFF);
    assert_eq!(pgn_from_dbc(0xFF), 0);
    assert_eq!(pgn_from_dbc(0x100), 1);
}

#[test]
fn pgn_of_typical_ids() {
    assert_eq!(pgn_from_dbc(0x18FE_F100), 0xFEF1);
    assert_eq!(pgn_from_dbc(0x18FE_F2AB), 0xFEF2);
    assert_eq!(pgn_from_dbc(0x0CF0_0400), 0xF004);
    assert_eq!(pgn_from_dbc(0x1234_5678), (0x1234_5678u32 >> 8) & 0x1FFFF);
}

#[test]
fn pgn_matches_formula_on_a_sweep() {
    let mut id: u32 = 0;
    for _ in 0..5000 {
        assert_eq!(pgn_from_dbc(id), (id >> 8) & 0x1FFFF);
        id = id.wrapping_mul(1_664_525).wrapping_add(1_013_904_223);
    }
}

#[test]
fn proprietary_band_has_both_ends() {
    assert!(!is_proprietary_pgn(0));
    assert!(!is_proprietary_pgn(0x1234));
    assert!(!is_proprietary_pgn(65279));
    assert!(is_proprietary_pgn(65280));
    assert!(!is_proprietary_pgn(0xFEF2));
    assert!(is_proprietary_pgn(0xFF10));
    assert!(is_proprietary_pgn(65535));
    assert!(!is_proprietary_pgn(65536));
    assert!(!is_proprietary_pgn(131071));
}

#[test]
fn lenient_band_test_accepts_everything_below() {
    assert!(is_at_most_proprietary(0));
    assert!(is_at_most_proprietary(0x1234));
    assert!(is_at_most_proprietary(65535));
    assert!(!is_at_most_proprietary(65536));
}

#[test]
fn encode_puts_the_id_first() {
    assert_eq!(encode(0x18FE_F100, &[1, 2, 3, 4]), vec![0x18, 0xFE, 0xF1, 0x00, 1, 2, 3, 4]);
    assert_eq!(encode(0, &[]), vec![0, 0, 0, 0]);
    assert_eq!(encode(0xFFFF_FFFF, &[9]), vec![0xFF, 0xFF, 0xFF, 0xFF, 9]);
    assert_eq!(be_bytes(0x0102_0304), vec![1, 2, 3, 4]);
}

#[test]
fn encode_does_not_limit_the_payload() {
    let payload: Vec<u8> = (0u8..20).collect();
    let record = encode(7, &payload);
    assert_eq!(record.len(), 24);
    assert_eq!(&record[4..], &payload[..]);
}

#[test]
fn decode_round_trips_every_length() {
    let ids: [u32; 6] = [0, 1, 0x7FF, 0x18FE_F100, 0x1FFF_FFFF, 0xFFFF_FFFF];
    for id in ids {
        for len in 0..=8usize {
            let payload: Vec<u8> = (0..len).map(|i| (i * 31 + 7) as u8).collect();
            let record = encode(id, &payload);
            assert_eq!(record.len(), len + 4);
            assert_eq!(decode(&record), Ok((id, payload)));
        }
    }
}

#[test]
fn decode_splits_after_four_bytes() {
    assert_eq!(decode(&[0x18, 0xFE, 0xF2, 0x00, 5, 6, 7, 8]), Ok((0x18FE_F200, vec![5, 6, 7, 8])));
    assert_eq!(decode(&[0, 0, 0, 9]), Ok((9, vec![])));
    assert_eq!(id_of(&[0, 0, 1, 0, 77]), Ok(256));
}

#[test]
fn decode_refuses_short_records() {
    for len in 0..4usize {
        let record = vec![0xAAu8; len];
        let err = decode(&record).unwrap_err();
        assert_eq!(err.len, len);
        assert_eq!(id_of(&record).unwrap_err().len, len);
    }
}

#[test]
fn capture_keys_are_sixteen_bytes_big_endian() {
    let mut expected = vec![0u8; 16];
    expected[15] = 1;
    assert_eq!(capture_key_bytes(1), expected);
    let key: u128 = 0x0011_2233_4455_6677_8899_AABB_CCDD_EEFF;
    assert_eq!(capture_key_bytes(key), key.to_be_bytes().to_vec());
    assert_eq!(capture_key_bytes(u128::MAX), vec![0xFFu8; 16]);
    assert_eq!(capture_key_from_bytes(&key.to_be_bytes()), Some(key));
    assert_eq!(capture_key_from_bytes(&[0u8; 15]), None);
    assert_eq!(capture_key_from_bytes(&[0u8; 17]), None);
}

#[test]
fn capture_key_names_sort_like_the_keys() {
    let keys: [u128; 6] = [0, 1, 255, 256, 1_700_000_000_000_000, u128::MAX];
    for a in keys {
        for b in keys {
            assert_eq!(a < b, capture_key_bytes(a) < capture_key_bytes(b));
        }
    }
}

#[test]
fn pgn_names_are_four_bytes() {
    assert_eq!(pgn_name(0xFEF1), vec![0, 0, 0xFE, 0xF1]);
    assert_eq!(pgn_from_name(&[0, 0, 0xFE, 0xF1]), Some(0xFEF1));
    assert_eq!(pgn_from_name(&[0, 0xFE, 0xF1]), None);
    assert_eq!(pgn_from_name(&[0, 0, 0, 0xFE, 0xF1]), None);
    assert_eq!(pgn_from_name(b"__sled__default"), None);
}

#[test]
fn dump_selector_reads_both_words() {
    assert_eq!(DumpType::from_str("all"), Ok(DumpType::All));
    assert_eq!(DumpType::from_str("pgns"), Ok(DumpType::PGNs));
}

#[test]
fn dump_selector_refuses_other_words() {
    assert_eq!(DumpType::from_str("ALL"), Err("ALL is not supported".to_string()));
    assert_eq!(DumpType::from_str(""), Err(" is not supported".to_string()));
    assert_eq!(DumpType::from_str("pgn"), Err("pgn is not supported".to_string()));
}
