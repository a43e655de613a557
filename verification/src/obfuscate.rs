//! Masked texts and names of threads for the scheduler.
use crate::random::{random_index, random_u32};
use crate::stealth::mask_and_unmask;
use crate::text::{concat3, format_decimal};
use vstd::prelude::*;

verus! {

/// The key for a text of `length` bytes.
pub fn mask_key(length: u8) -> (r: u8)
    ensures
        r as int == (length * 0xa5 + 0x37) % 256,
{
    let product: u32 = length as u32 * 0xa5 + 0x37;
    (product % 256) as u8
}

/// A text that goes through its masked form, with a key that depends on its
/// length.
pub fn obfstr(s: &str) -> (r: String)
    requires
        vstd::utf8::encode_utf8(s@).len() <= 256,
    ensures
        r@ == s@,
{
    let length: usize = s.as_bytes().len();
    mask_and_unmask(s, mask_key((length % 256) as u8))
}

/// What a thread can be named after.
pub open spec fn thread_word(i: usize) -> Seq<char> {
    match i {
        0 => "worker"@,
        1 => "scheduler"@,
        2 => "listener"@,
        3 => "handler"@,
        4 => "monitor"@,
        5 => "dispatcher"@,
        6 => "processor"@,
        7 => "runner"@,
        8 => "watcher"@,
        _ => "service"@,
    }
}

/// The name of a thread by what was drawn for it.
pub open spec fn thread_name_of(word: usize, suffix: u32) -> Seq<char> {
    thread_word(word) + "-"@ + crate::text::decimal(suffix as nat)
}

/// The name of a thread by what was drawn for it.
pub fn thread_name(word: usize, suffix: u32) -> (r: String)
    ensures
        r@ == thread_name_of(word, suffix),
{
    let head: &str = match word {
        0 => "worker",
        1 => "scheduler",
        2 => "listener",
        3 => "handler",
        4 => "monitor",
        5 => "dispatcher",
        6 => "processor",
        7 => "runner",
        8 => "watcher",
        _ => "service",
    };
    concat3(head, "-", &format_decimal(suffix as u64))
}

/// A name for a thread, drawn at random.
pub fn random_thread_name() -> (r: String)
    ensures
        exists|word: usize, suffix: u32|
            word < 10 && suffix < 1000 && r@ == #[trigger] thread_name_of(word, suffix),
{
    let word: usize = random_index(10);
    let suffix: u32 = random_u32(0, 999);
    thread_name(word, suffix)
}

} // verus!
