use md2::hasher::{md2, DeserializeStateError, Md2, Md2Core};
use md2::table::S;

fn hex_val(c: u8) -> u8 {
    match c {
        b'0'..=b'9' => c - b'0',
        b'a'..=b'f' => c - b'a' + 10,
        b'A'..=b'F' => c - b'A' + 10,
        _ => panic!("not a hex digit"),
    }
}

fn hex_to_bytes(s: &str) -> Vec<u8> {
    let b = s.as_bytes();
    assert!(b.len() % 2 == 0);
    let mut out = Vec::new();
    let mut i = 0;
    while i < b.len() {
        out.push(hex_val(b[i]) * 16 + hex_val(b[i + 1]));
        i += 2;
    }
    out
}

#[test]
fn known_answer_empty() {
    assert_eq!(md2(b""), hex_to_bytes("8350e5a3e24c153df2275c9f80692773"));
}

#[test]
fn known_answer_abc() {
    assert_eq!(md2(b"abc"), hex_to_bytes("da853b0d3f88d99b30283a69e6ded6bb"));
}

#[test]
fn known_answer_hello_world() {
    assert_eq!(md2(b"hello world"), hex_to_bytes("d9cce882ee690a5c1ce70beff3a78c77"));
}

#[test]
fn known_answer_rfc_vectors() {
    assert_eq!(md2(b"a"), hex_to_bytes("32ec01ec4a6dac72c0ab96fb34c0b5d1"));
    assert_eq!(
        md2(b"message digest"),
        hex_to_bytes("ab4f496bfb2a530b219ff33031fe06b0")
    );
    assert_eq!(
        md2(b"abcdefghijklmnopqrstuvwxyz"),
        hex_to_bytes("4e8ddff3650292ab5a4108c3aa47940b")
    );
    assert_eq!(
        md2(b"ABCDEFGHIJKLMNOPQRSTUVWXYZabcdefghijklmnopqrstuvwxyz0123456789"),
        hex_to_bytes("da33def2a42df13975352846c30338cd")
    );
    assert_eq!(
        md2(b"12345678901234567890123456789012345678901234567890123456789012345678901234567890"),
        hex_to_bytes("d5976f79d83d3a0dc9806c3c66f3efd8")
    );
}

#[test]
fn determinism_two_fresh_instances() {
    let input = b"the same message, hashed twice";
    let d1 = md2(input);
    let d2 = md2(input);
    assert_eq!(d1, d2);

    let mut h1 = Md2::new();
    h1.update(input);
    let mut h2 = Md2::new();
    h2.update(input);
    assert_eq!(h1.finalize(), h2.finalize());
}

#[test]
fn incremental_equivalence_byte_at_a_time() {
    let input = b"hello world";
    let whole = md2(input);
    let mut h = Md2::new();
    for b in input.iter() {
        h.update(&[*b]);
    }
    assert_eq!(h.finalize(), whole);
}

#[test]
fn incremental_equivalence_mixed_chunks() {
    let mut input = Vec::new();
    for i in 0..100u8 {
        input.push(i.wrapping_mul(37));
    }
    let whole = md2(&input);

    for split in [1usize, 7, 15, 16, 17, 32, 50, 99] {
        let mut h = Md2::new();
        h.update(&input[..split]);
        h.update(&input[split..]);
        assert_eq!(h.finalize(), whole);
    }

    let mut h = Md2::new();
    h.update(&input[..7]);
    h.update(&input[7..23]);
    h.update(&input[23..23]);
    h.update(&input[23..64]);
    h.update(&input[64..]);
    assert_eq!(h.finalize(), whole);
}

#[test]
fn digest_length_all_small_and_some_large_inputs() {
    for n in 0..130usize {
        let input: Vec<u8> = (0..n).map(|i| i as u8).collect();
        assert_eq!(md2(&input).len(), 16);
    }
    for n in [1000usize, 4096, 5000] {
        let input: Vec<u8> = (0..n).map(|i| (i % 251) as u8).collect();
        assert_eq!(md2(&input).len(), 16);
    }
}

#[test]
fn serialize_initial_state_is_zeros() {
    let core = Md2Core::new();
    let snap = core.serialize();
    assert_eq!(snap, vec![0u8; 64]);

    let default_core: Md2Core = Default::default();
    assert_eq!(default_core.serialize(), vec![0u8; 64]);
}

#[test]
fn serialize_round_trip_initial() {
    let core = Md2Core::new();
    let snap = core.serialize();
    let restored = Md2Core::deserialize(&snap).expect("64-byte snapshot must deserialize");
    assert_eq!(restored.serialize(), snap);
}

#[test]
fn serialize_round_trip_resumes_hash() {
    let input: Vec<u8> = (0..80u8).collect();
    let expected = md2(&input);

    // Hash the first 48 bytes (three full blocks), snapshot, restore,
    // and let both the original and the restored core finish.
    let mut core = Md2Core::new();
    core.update_blocks(&input[..48]);
    let snap = core.serialize();
    assert_eq!(snap.len(), 64);

    let mut restored = Md2Core::deserialize(&snap).expect("snapshot must deserialize");
    restored.update_blocks(&input[48..80]);
    let digest_restored = restored.finalize_fixed_core(&[]);

    core.update_blocks(&input[48..80]);
    let digest_original = core.finalize_fixed_core(&[]);

    assert_eq!(digest_original, expected);
    assert_eq!(digest_restored, expected);
}

#[test]
fn malformed_snapshot_rejected() {
    for n in [0usize, 1, 16, 48, 63, 65, 128] {
        let bytes = vec![7u8; n];
        let r = Md2Core::deserialize(&bytes);
        assert_eq!(r.err(), Some(DeserializeStateError));
    }
    let ok = Md2Core::deserialize(&vec![7u8; 64]);
    assert!(ok.is_ok());
}

#[test]
fn reset_behaves_like_fresh_instance() {
    let input = b"input hashed after a reset";
    let expected = md2(input);

    let mut h = Md2::new();
    h.update(b"unrelated bytes that must not matter");
    h.reset();
    h.update(input);
    assert_eq!(h.finalize(), expected);

    let mut core = Md2Core::new();
    core.update_blocks(&[0xabu8; 32]);
    core.reset();
    assert_eq!(core.serialize(), vec![0u8; 64]);
}

#[test]
fn core_block_api_matches_one_shot() {
    let input: Vec<u8> = (0..57u8).collect();
    let expected = md2(&input);

    let mut core = Md2Core::new();
    core.update_blocks(&input[..48]);
    let digest = core.finalize_fixed_core(&input[48..]);
    assert_eq!(digest, expected);

    // One compress call per block gives the same digest.
    let mut core2 = Md2Core::new();
    core2.compress(&input[..16]);
    core2.compress(&input[16..32]);
    core2.compress(&input[32..48]);
    let digest2 = core2.finalize_fixed_core(&input[48..]);
    assert_eq!(digest2, expected);
}

#[test]
fn padding_full_block_when_no_leftover() {
    // A block-multiple message still gets one whole padding block: its
    // digest must differ from the digest of the message with sixteen
    // 16-valued bytes appended only by the extra checksum coupling —
    // check both digests against the algorithm run from scratch.
    let input = [5u8; 32];
    let mut core = Md2Core::new();
    core.update_blocks(&input);
    let digest = core.finalize_fixed_core(&[]);
    assert_eq!(digest, md2(&input));
    assert_eq!(digest.len(), 16);
}

#[test]
fn substitution_table_is_a_permutation() {
    let mut seen = [false; 256];
    for &v in S.iter() {
        assert!(!seen[v as usize], "value {} appears twice", v);
        seen[v as usize] = true;
    }
    assert!(seen.iter().all(|&b| b));
}

#[test]
fn algorithm_name() {
    assert_eq!(Md2Core::alg_name(), "Md2");
}
