//! Values that vary from one key event to the next, and texts kept in a masked
//! form.
use crate::random::{random_index, random_u32, random_u64};
use crate::text::{concat, concat3, format_hexadecimal};
use vstd::prelude::*;

verus! {

// ---------------------------------------------------------------------------
// Extra information of key events
// ---------------------------------------------------------------------------
/// The extra information of a key event is at least this.
pub const EXTRA_INFO_LOW: u64 = 100_000_000;

/// The extra information of a key event is below this.
pub const EXTRA_INFO_HIGH: u64 = 5_000_000_000;

/// The extra information that a drawn number stands for.
pub fn extra_info_from(drawn: u64) -> (r: u64)
    ensures
        r == EXTRA_INFO_LOW + drawn as int % (EXTRA_INFO_HIGH - EXTRA_INFO_LOW),
        EXTRA_INFO_LOW <= r < EXTRA_INFO_HIGH,
{
    EXTRA_INFO_LOW + drawn % (EXTRA_INFO_HIGH - EXTRA_INFO_LOW)
}

/// The extra information of a key event, drawn anew.
pub fn random_extra_info() -> (r: usize)
    ensures
        exists|value: u64|
            EXTRA_INFO_LOW <= value < EXTRA_INFO_HIGH && r == #[trigger] (value as usize),
        usize::BITS == 64 ==> EXTRA_INFO_LOW <= r < EXTRA_INFO_HIGH,
{
    let drawn: u64 = random_u64(0, u64::MAX);
    let value: u64 = extra_info_from(drawn);
    #[verifier::truncate]
    (value as usize)
}

// ---------------------------------------------------------------------------
// Parameters of key messages
// ---------------------------------------------------------------------------
/// The bits of a key message that count repetitions.
pub const REPEAT_COUNT_MASK: u32 = 0x0000_ffff;

/// The bits of a key message that have no meaning.
pub const RESERVED_BITS_MASK: u32 = 0x1e00_0000;

/// The parameter of a key message with the drawn noise.  That of a release stays
/// as it is; that of a press has the noise in the bits without a meaning, and
/// the count two where a repetition was drawn.
pub open spec fn lparam_of(bits: u32, is_key_up: bool, noise: u32, repeat: bool) -> u32 {
    if is_key_up {
        bits
    } else {
        let noisy = (bits & !RESERVED_BITS_MASK) | ((noise & 0x0f) << 25);
        if repeat {
            (noisy & !REPEAT_COUNT_MASK) | 2
        } else {
            noisy
        }
    }
}

/// The parameter of a key message with the drawn noise.
pub fn lparam_with(bits: u32, is_key_up: bool, noise: u32, repeat: bool) -> (r: u32)
    ensures
        r == lparam_of(bits, is_key_up, noise, repeat),
{
    if is_key_up {
        return bits;
    }
    let noisy: u32 = (bits & !RESERVED_BITS_MASK) | ((noise & 0x0f) << 25);
    if repeat {
        (noisy & !REPEAT_COUNT_MASK) | 2
    } else {
        noisy
    }
}

/// The parameter of a key message, with noise drawn anew; whether a repetition
/// is counted was drawn by the caller.
pub fn randomize_lparam(bits: u32, is_key_up: bool, repeat: bool) -> (r: isize)
    ensures
        exists|noise: u32| r == #[trigger] lparam_of(bits, is_key_up, noise, repeat) as isize,
{
    let noise: u32 = random_u32(0, u32::MAX);
    let lparam: u32 = lparam_with(bits, is_key_up, noise, repeat);
    #[verifier::truncate]
    (lparam as isize)
}

/// The noise never touches the scan code, the marks for extended keys, for Alt,
/// for the previous state and for a release; a press counts once, or twice where
/// a repetition was drawn.
pub proof fn lemma_lparam_keeps_meaning(bits: u32, is_key_up: bool, noise: u32, repeat: bool)
    ensures
        ({
            let r = lparam_of(bits, is_key_up, noise, repeat);
            let meaning: u32 = 0xe1ff_0000;
            &&& r & meaning == bits & meaning
            &&& is_key_up ==> r == bits
            &&& !is_key_up && repeat ==> r & REPEAT_COUNT_MASK == 2
            &&& !repeat ==> r & REPEAT_COUNT_MASK == bits & REPEAT_COUNT_MASK
        }),
{
    let noisy = (bits & !0x1e00_0000u32) | ((noise & 0x0f) << 25);
    let bumped = (noisy & !0x0000_ffffu32) | 2;
    assert(noisy & 0xe1ff_0000 == bits & 0xe1ff_0000 && noisy & 0xffff == bits & 0xffff)
        by (bit_vector)
        requires
            noisy == (bits & !0x1e00_0000u32) | ((noise & 0x0f) << 25),
    ;
    assert(bumped & 0xe1ff_0000 == noisy & 0xe1ff_0000 && bumped & 0xffff == 2) by (bit_vector)
        requires
            bumped == (noisy & !0x0000_ffffu32) | 2,
    ;
}

/// The four bits without a meaning hold the last four of the noise on a press.
pub proof fn lemma_lparam_carries_noise(bits: u32, noise: u32, repeat: bool)
    ensures
        (lparam_of(bits, false, noise, repeat) >> 25) & 0x0f == noise & 0x0f,
{
    let noisy = (bits & !0x1e00_0000u32) | ((noise & 0x0f) << 25);
    let bumped = (noisy & !0x0000_ffffu32) | 2;
    assert((noisy >> 25) & 0x0f == noise & 0x0f && (bumped >> 25) & 0x0f == noise & 0x0f)
        by (bit_vector)
        requires
            noisy == (bits & !0x1e00_0000u32) | ((noise & 0x0f) << 25),
            bumped == (noisy & !0x0000_ffffu32) | 2,
    ;
}

/// Two masks with one key tell the same texts apart as the texts themselves do.
pub proof fn lemma_masks_differ(a: Seq<u8>, b: Seq<u8>, key: u8)
    ensures
        masked_with(a, key) == masked_with(b, key) <==> a == b,
        masked_with(a, key).len() == a.len(),
{
    lemma_mask_round_trip(a, key);
    lemma_mask_round_trip(b, key);
}

// ---------------------------------------------------------------------------
// Masked texts
// ---------------------------------------------------------------------------
/// Bytes combined with a key.
pub open spec fn masked_with(bytes: Seq<u8>, key: u8) -> Seq<u8> {
    Seq::new(bytes.len(), |i: int| bytes[i] ^ key)
}

/// Combining bytes with a key twice gives them back.
pub proof fn lemma_mask_round_trip(bytes: Seq<u8>, key: u8)
    ensures
        masked_with(masked_with(bytes, key), key) == bytes,
{
    assert forall|b: u8| #[trigger] (b ^ key) ^ key == b by {
        assert((b ^ key) ^ key == b) by (bit_vector);
    }
    assert(masked_with(masked_with(bytes, key), key) =~= bytes);
}

/// The first 256 bytes combined with a key, and zeros behind them.
pub fn encode_bytes(input: &[u8], key: u8) -> (r: [u8; 256])
    ensures
        forall|i: int|
            0 <= i < 256 ==> #[trigger] r@[i] == if i < input@.len() {
                input@[i] ^ key
            } else {
                0
            },
{
    let mut buf: [u8; 256] = [0u8; 256];
    let mut i: usize = 0;
    while i < input.len() && i < 256
        invariant
            i <= input@.len(),
            i <= 256,
            forall|j: int|
                0 <= j < 256 ==> #[trigger] buf@[j] == if j < i {
                    input@[j] ^ key
                } else {
                    0
                },
        decreases 256 - i,
    {
        buf[i] = input[i] ^ key;
        i = i + 1;
    }
    buf
}

/// The text of bytes, with a replacement for what is not UTF-8.
pub uninterp spec fn lossy_text(bytes: Seq<u8>) -> Seq<char>;

/// The text of bytes, with a replacement for what is not UTF-8.
///
/// Calls `String::from_utf8_lossy`.  By its documentation the text of valid
/// UTF-8 is the text that the bytes encode; of other bytes the contract says
/// only that their text depends on nothing else.
#[verifier::external_body]
pub(crate) fn text_of_bytes(bytes: &Vec<u8>) -> (r: String)
    ensures
        r@ == lossy_text(bytes@),
        vstd::utf8::valid_utf8(bytes@) ==> r@ == vstd::utf8::decode_utf8(bytes@),
{
    String::from_utf8_lossy(bytes).into_owned()
}

/// The text of bytes that were combined with a key.
pub fn decode_bytes(encoded: &[u8], key: u8) -> (r: String)
    ensures
        r@ == lossy_text(masked_with(encoded@, key)),
        vstd::utf8::valid_utf8(masked_with(encoded@, key)) ==> r@ == vstd::utf8::decode_utf8(
            masked_with(encoded@, key),
        ),
{
    let mut buf: Vec<u8> = Vec::new();
    let mut i: usize = 0;
    while i < encoded.len()
        invariant
            i <= encoded@.len(),
            buf@ == masked_with(encoded@, key).take(i as int),
        decreases encoded@.len() - i,
    {
        buf.push(encoded[i] ^ key);
        i = i + 1;
        assert(masked_with(encoded@, key).take(i as int) =~= masked_with(encoded@, key).take(
            i - 1,
        ).push(encoded@[i - 1] ^ key));
    }
    assert(masked_with(encoded@, key).take(i as int) =~= masked_with(encoded@, key));
    text_of_bytes(&buf)
}

/// Masks a text with a key and takes the mask off again.
pub(crate) fn mask_and_unmask(s: &str, key: u8) -> (r: String)
    requires
        vstd::utf8::encode_utf8(s@).len() <= 256,
    ensures
        r@ == s@,
{
    let bytes = s.as_bytes();
    let encoded = encode_bytes(bytes, key);
    let mut kept: Vec<u8> = Vec::new();
    let mut i: usize = 0;
    while i < bytes.len()
        invariant
            i <= bytes@.len() <= 256,
            forall|j: int| 0 <= j < bytes@.len() ==> #[trigger] encoded@[j] == bytes@[j] ^ key,
            kept@ == masked_with(bytes@, key).take(i as int),
        decreases bytes@.len() - i,
    {
        kept.push(encoded[i]);
        i = i + 1;
        assert(masked_with(bytes@, key).take(i as int) =~= masked_with(bytes@, key).take(
            i - 1,
        ).push(bytes@[i - 1] ^ key));
    }
    proof {
        assert(masked_with(bytes@, key).take(i as int) =~= masked_with(bytes@, key));
        lemma_mask_round_trip(bytes@, key);
        vstd::utf8::encode_utf8_valid_utf8(s@);
        vstd::utf8::encode_utf8_decode_utf8(s@);
    }
    decode_bytes(kept.as_slice(), key)
}

/// The key for a text of `length` bytes.
pub fn mask_key(length: u8) -> (r: u8)
    ensures
        r as int == (length * 0xa7 + 0x3c) % 256,
{
    let product: u32 = length as u32 * 0xa7 + 0x3c;
    (product % 256) as u8
}

/// A text that goes through its masked form, with a key that depends on its
/// length.
pub fn obfstr(s: &str) -> (r: String)
    requires
        vstd::utf8::encode_utf8(s@).len() <= 256,
    ensures
        r@ == s@,
{
    let length: usize = s.as_bytes().len();
    mask_and_unmask(s, mask_key((length % 256) as u8))
}

// ---------------------------------------------------------------------------
// Names of threads
// ---------------------------------------------------------------------------
/// How the name of a thread can begin.
pub open spec fn thread_prefix(i: usize) -> Seq<char> {
    match i {
        0 => "ntdll"@,
        1 => "wer"@,
        2 => "clr"@,
        3 => "mswsock"@,
        4 => "wmi"@,
        5 => "winhttp"@,
        6 => "dnsapi"@,
        7 => "crypt32"@,
        8 => "secur32"@,
        9 => "uxinit"@,
        10 => "dwm"@,
        11 => "audioses"@,
        12 => "conhost"@,
        13 => "taskhostw"@,
        14 => "sihost"@,
        15 => "ctfmon"@,
        _ => "RuntimeBroker"@,
    }
}

/// How the name of a thread can go on.
pub open spec fn thread_suffix(i: usize) -> Seq<char> {
    match i {
        0 => "Worker"@,
        1 => "Callback"@,
        2 => "Dispatch"@,
        3 => "Timer"@,
        4 => "Completion"@,
        5 => "IoCompletion"@,
        6 => "Wait"@,
        7 => "Pool"@,
        8 => "Init"@,
        _ => "Shutdown"@,
    }
}

/// The name of a thread by what was drawn for it.
pub open spec fn thread_name_of(prefix: usize, suffix: usize, id: u32) -> Seq<char> {
    thread_prefix(prefix) + thread_suffix(suffix) + "_"@ + crate::text::hexadecimal(id as nat)
}

/// The name of a thread by what was drawn for it.
pub fn thread_name(prefix: usize, suffix: usize, id: u32) -> (r: String)
    ensures
        r@ == thread_name_of(prefix, suffix, id),
{
    let head: &str = match prefix {
        0 => "ntdll",
        1 => "wer",
        2 => "clr",
        3 => "mswsock",
        4 => "wmi",
        5 => "winhttp",
        6 => "dnsapi",
        7 => "crypt32",
        8 => "secur32",
        9 => "uxinit",
        10 => "dwm",
        11 => "audioses",
        12 => "conhost",
        13 => "taskhostw",
        14 => "sihost",
        15 => "ctfmon",
        _ => "RuntimeBroker",
    };
    let tail: &str = match suffix {
        0 => "Worker",
        1 => "Callback",
        2 => "Dispatch",
        3 => "Timer",
        4 => "Completion",
        5 => "IoCompletion",
        6 => "Wait",
        7 => "Pool",
        8 => "Init",
        _ => "Shutdown",
    };
    let name = concat3(head, tail, "_");
    concat(&name, &format_hexadecimal(id as u64))
}

/// A name for a thread, drawn at random.
pub fn random_thread_name() -> (r: String)
    ensures
        exists|prefix: usize, suffix: usize, id: u32|
            prefix < 17 && suffix < 10 && r@ == #[trigger] thread_name_of(prefix, suffix, id),
{
    let prefix: usize = random_index(17);
    let suffix: usize = random_index(10);
    let id: u32 = random_u32(0, u32::MAX);
    thread_name(prefix, suffix, id)
}

} // verus!
