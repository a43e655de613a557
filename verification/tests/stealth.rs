use autokey_rust::stealth::{
    decode_bytes, encode_bytes, extra_info_from, lparam_with, mask_key, obfstr, random_extra_info,
    random_thread_name, randomize_lparam, thread_name, REPEAT_COUNT_MASK,
};

const SCAN_CODE_MASK: u32 = 0x00FF_0000;
const EXTENDED_KEY_BIT: u32 = 1 << 24;
const ALT_CONTEXT_BIT: u32 = 1 << 29;
const PREVIOUS_STATE_BIT: u32 = 1 << 30;
const TRANSITION_STATE_BIT: u32 = 1 << 31;

fn repeat() -> bool {
    fastrand::f64() < 0.03
}

#[test]
fn extra_info_in_qpc_range() {
    for _ in 0..100 {
        let v = random_extra_info();
        assert!(v >= 100_000_000, "too small: {v}");
        assert!(v < 5_000_000_001, "too large: {v}");
    }
}

#[test]
fn lparam_preserves_key_bits() {
    let bits: u32 = 1 | (0x1E << 16);
    let result = randomize_lparam(bits, false, repeat()) as u32;
    assert_eq!(result & SCAN_CODE_MASK, bits & SCAN_CODE_MASK);
    assert_eq!(result & EXTENDED_KEY_BIT, bits & EXTENDED_KEY_BIT);
}

#[test]
fn lparam_keyup_bits_preserved() {
    let bits: u32 = 1 | (0x1E << 16) | PREVIOUS_STATE_BIT | TRANSITION_STATE_BIT;
    let result = randomize_lparam(bits, true, repeat()) as u32;
    assert_eq!(result, bits);
}

#[test]
fn lparam_never_sets_bit29() {
    for _ in 0..1000 {
        let bits: u32 = 1 | (0x1E << 16);
        let result = randomize_lparam(bits, false, repeat()) as u32;
        assert_eq!(
            result & ALT_CONTEXT_BIT,
            0,
            "bit 29 was set — triggers Alt+key shortcuts!"
        );
    }
}

#[test]
fn lparam_keydown_repeat_count_is_one_or_two() {
    for _ in 0..1000 {
        let bits: u32 = 1 | (0x1E << 16);
        let result = randomize_lparam(bits, false, repeat()) as u32;
        assert!(matches!(result & REPEAT_COUNT_MASK, 1 | 2));
    }
}

#[test]
fn lparam_keydown_keeps_semantic_bits() {
    let bits: u32 = 1 | (0xE0 << 16) | EXTENDED_KEY_BIT;
    let semantic_mask = SCAN_CODE_MASK
        | EXTENDED_KEY_BIT
        | ALT_CONTEXT_BIT
        | PREVIOUS_STATE_BIT
        | TRANSITION_STATE_BIT;
    for _ in 0..1000 {
        let result = randomize_lparam(bits, false, repeat()) as u32;
        assert_eq!(result & semantic_mask, bits & semantic_mask);
    }
}

#[test]
fn stealth_obfstr_roundtrip() {
    let decoded = obfstr("hello world");
    assert_eq!(decoded, "hello world");
}

#[test]
fn random_thread_name_is_plausible() {
    let name = random_thread_name();
    assert!(!name.is_empty());
    assert!(name.len() > 5);
}

#[test]
fn drawn_noise_goes_where_it_belongs() {
    assert_eq!(lparam_with(0x001E_0001, false, 0xFFFF_FFFF, false), 0x1E1E_0001);
    assert_eq!(lparam_with(0x001E_0001, false, 0x3, true), 0x061E_0002);
    assert_eq!(lparam_with(0xC01E_0001, true, 0x3, true), 0xC01E_0001);
    assert_eq!(extra_info_from(0), 100_000_000);
    assert_eq!(extra_info_from(4_900_000_001), 100_000_001);
    let mut differs = false;
    for _ in 0..64 {
        differs |= randomize_lparam(1, false, false) != 1;
    }
    assert!(differs);
}

#[test]
fn bytes_are_masked_and_unmasked() {
    let encoded = encode_bytes(b"abc", 0x5A);
    assert_eq!(encoded[0], b'a' ^ 0x5A);
    assert_eq!(encoded[2], b'c' ^ 0x5A);
    assert_eq!(encoded[3], 0);
    assert_eq!(encoded[255], 0);
    assert_eq!(decode_bytes(&encoded[..3], 0x5A), "abc");
    let long = vec![7u8; 300];
    assert_eq!(encode_bytes(&long, 1), [6u8; 256]);
    assert_eq!(decode_bytes(&[0xFF, b'a'], 0), "\u{FFFD}a");
    assert_eq!(mask_key(11), 0x69);
    assert_eq!(mask_key(0), 0x3C);
}

#[test]
fn thread_names_are_put_together() {
    assert_eq!(thread_name(0, 0, 255), "ntdllWorker_ff");
    assert_eq!(thread_name(16, 9, 0), "RuntimeBrokerShutdown_0");
    assert_eq!(thread_name(7, 5, 0xDEAD_BEEF), "crypt32IoCompletion_deadbeef");
}
