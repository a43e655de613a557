//! Virtual key codes: modifiers and the names shown for keys.
use crate::text::{concat, concat3, format_decimal};
use vstd::prelude::*;

verus! {

pub const VK_SHIFT: u16 = 0x10;

pub const VK_CONTROL: u16 = 0x11;

pub const VK_ALT: u16 = 0x12;

pub const VK_WIN: u16 = 0x5B;

/// The side-independent code of a key: the left and right variants of Shift,
/// Ctrl, Alt and Win share one code; every other key keeps its own.
pub open spec fn normalized(vk: u16) -> u16 {
    if vk == 0xA0 || vk == 0xA1 {
        VK_SHIFT
    } else if vk == 0xA2 || vk == 0xA3 {
        VK_CONTROL
    } else if vk == 0xA4 || vk == 0xA5 {
        VK_ALT
    } else if vk == 0x5C {
        VK_WIN
    } else {
        vk
    }
}

/// Maps the left and right variants of a modifier to one code.
pub fn normalize_vk(vk: u16) -> (r: u16)
    ensures
        r == normalized(vk),
{
    match vk {
        0xA0 | 0xA1 => VK_SHIFT,
        0xA2 | 0xA3 => VK_CONTROL,
        0xA4 | 0xA5 => VK_ALT,
        0x5C => VK_WIN,
        value => value,
    }
}

/// The keys that are held together with another key.
pub open spec fn modifier(vk: u16) -> bool {
    ||| vk == VK_SHIFT || vk == 0xA0 || vk == 0xA1
    ||| vk == VK_CONTROL || vk == 0xA2 || vk == 0xA3
    ||| vk == VK_ALT || vk == 0xA4 || vk == 0xA5
    ||| vk == VK_WIN || vk == 0x5C
}

/// Whether a key is Shift, Ctrl, Alt or Win, on either side.
pub fn is_modifier(vk: u16) -> (r: bool)
    ensures
        r == modifier(vk),
{
    let code = normalize_vk(vk);
    code == VK_SHIFT || code == VK_CONTROL || code == VK_ALT || code == VK_WIN
}

/// Normalizing a code twice is the same as normalizing it once.
pub proof fn lemma_normalize_idempotent(vk: u16)
    ensures
        normalized(normalized(vk)) == normalized(vk),
        modifier(normalized(vk)) == modifier(vk),
{
}

/// The two sides of Shift, Ctrl, Alt and Win share the code of the key without a
/// side, every other code is its own, and a modifier is a key of these four.
pub proof fn lemma_sides(vk: u16)
    ensures
        normalized(vk) == 0x10 <==> vk == 0x10 || vk == 0xA0 || vk == 0xA1,
        normalized(vk) == 0x11 <==> vk == 0x11 || vk == 0xA2 || vk == 0xA3,
        normalized(vk) == 0x12 <==> vk == 0x12 || vk == 0xA4 || vk == 0xA5,
        normalized(vk) == 0x5B <==> vk == 0x5B || vk == 0x5C,
        !modifier(vk) ==> normalized(vk) == vk,
        modifier(vk) <==> normalized(vk) == 0x10 || normalized(vk) == 0x11 || normalized(vk) == 0x12
            || normalized(vk) == 0x5B,
{
}

/// The fixed names: modifiers, editing and cursor keys, and the signs of the
/// numeric keypad.
pub open spec fn fixed_key_name(code: u16) -> Option<Seq<char>> {
    if code == VK_CONTROL {
        Some("Ctrl"@)
    } else if code == VK_SHIFT {
        Some("Shift"@)
    } else if code == VK_ALT {
        Some("Alt"@)
    } else if code == VK_WIN {
        Some("Win"@)
    } else if code == 0x08 {
        Some("退格键"@)
    } else if code == 0x09 {
        Some("Tab键"@)
    } else if code == 0x0D {
        Some("回车键"@)
    } else if code == 0x1B {
        Some("Esc键"@)
    } else if code == 0x20 {
        Some("空格键"@)
    } else if code == 0x21 {
        Some("PageUp键"@)
    } else if code == 0x22 {
        Some("PageDown键"@)
    } else if code == 0x23 {
        Some("End键"@)
    } else if code == 0x24 {
        Some("Home键"@)
    } else if code == 0x25 {
        Some("左光标键"@)
    } else if code == 0x26 {
        Some("上光标键"@)
    } else if code == 0x27 {
        Some("右光标键"@)
    } else if code == 0x28 {
        Some("下光标键"@)
    } else if code == 0x2D {
        Some("Insert键"@)
    } else if code == 0x2E {
        Some("Delete键"@)
    } else if code == 0x6A {
        Some("小键盘*"@)
    } else if code == 0x6B {
        Some("小键盘+"@)
    } else if code == 0x6D {
        Some("小键盘-"@)
    } else if code == 0x6E {
        Some("小键盘."@)
    } else if code == 0x6F {
        Some("小键盘/"@)
    } else {
        None
    }
}

/// The name shown for a key: a fixed name, the letter or digit itself, the
/// number of a keypad or function key, or the bare code.
pub open spec fn display_name(vk: u16) -> Seq<char> {
    let code = normalized(vk);
    match fixed_key_name(code) {
        Some(name) => name,
        None => if 0x30 <= code <= 0x39 || 0x41 <= code <= 0x5A {
            seq![code as char] + "键"@
        } else if 0x60 <= code <= 0x69 {
            "小键盘"@ + crate::text::decimal((code - 0x60) as nat)
        } else if 0x70 <= code <= 0x87 {
            "F"@ + crate::text::decimal((code - 0x70 + 1) as nat) + "键"@
        } else {
            "VK "@ + crate::text::decimal(code as nat)
        },
    }
}

/// The code that a name is shown for.
spec fn named_code(name: Seq<char>) -> int {
    let n = name.len() as int;
    if n == 2 {
        name[0] as int
    } else if name[0] == '小' {
        if name[3] == '*' {
            0x6A
        } else if name[3] == '+' {
            0x6B
        } else if name[3] == '-' {
            0x6D
        } else if name[3] == '.' {
            0x6E
        } else if name[3] == '/' {
            0x6F
        } else {
            0x60int + crate::text::decimal_value(name.subrange(3, n))
        }
    } else if name[0] == 'F' {
        0x70 - 1 + crate::text::decimal_value(name.subrange(1, n - 1))
    } else if name[0] == 'V' {
        crate::text::decimal_value(name.subrange(3, n)) as int
    } else if name[0] == 'C' {
        VK_CONTROL as int
    } else if name[0] == 'S' {
        VK_SHIFT as int
    } else if name[0] == 'A' {
        VK_ALT as int
    } else if name[0] == 'W' {
        VK_WIN as int
    } else if name[0] == '退' {
        0x08
    } else if name[0] == 'T' {
        0x09
    } else if name[0] == '回' {
        0x0D
    } else if name[0] == 'E' {
        if name[1] == 's' {
            0x1B
        } else {
            0x23
        }
    } else if name[0] == '空' {
        0x20
    } else if name[0] == 'P' {
        if n == 7 {
            0x21
        } else {
            0x22
        }
    } else if name[0] == 'H' {
        0x24
    } else if name[0] == '左' {
        0x25
    } else if name[0] == '上' {
        0x26
    } else if name[0] == '右' {
        0x27
    } else if name[0] == '下' {
        0x28
    } else if name[0] == 'I' {
        0x2D
    } else {
        0x2E
    }
}

proof fn lemma_fixed_name_tells_code(code: u16)
    requires
        fixed_key_name(code) is Some,
    ensures
        named_code(fixed_key_name(code)->Some_0) == code,
{
    reveal_strlit("Ctrl");
    reveal_strlit("Shift");
    reveal_strlit("Alt");
    reveal_strlit("Win");
    reveal_strlit("退格键");
    reveal_strlit("Tab键");
    reveal_strlit("回车键");
    reveal_strlit("Esc键");
    reveal_strlit("空格键");
    reveal_strlit("PageUp键");
    reveal_strlit("PageDown键");
    reveal_strlit("End键");
    reveal_strlit("Home键");
    reveal_strlit("左光标键");
    reveal_strlit("上光标键");
    reveal_strlit("右光标键");
    reveal_strlit("下光标键");
    reveal_strlit("Insert键");
    reveal_strlit("Delete键");
    reveal_strlit("小键盘*");
    reveal_strlit("小键盘+");
    reveal_strlit("小键盘-");
    reveal_strlit("小键盘.");
    reveal_strlit("小键盘/");
}

proof fn lemma_name_tells_code(vk: u16)
    ensures
        named_code(display_name(vk)) == normalized(vk),
{
    let code = normalized(vk);
    let name = display_name(vk);
    reveal_strlit("键");
    reveal_strlit("小键盘");
    reveal_strlit("F");
    reveal_strlit("VK ");
    if fixed_key_name(code) is Some {
        lemma_fixed_name_tells_code(code);
    } else if 0x30 <= code <= 0x39 || 0x41 <= code <= 0x5A {
        assert(name.len() == 2 && name[0] == code as char);
    } else if 0x60 <= code <= 0x69 {
        let digits = crate::text::decimal((code - 0x60) as nat);
        crate::text::lemma_decimal_round_trip((code - 0x60) as nat);
        assert(name.subrange(3, name.len() as int) =~= digits);
        assert(name[3] == digits[0]);
        assert(crate::text::ascii_digit(digits[0]));
    } else if 0x70 <= code <= 0x87 {
        let digits = crate::text::decimal((code - 0x70 + 1) as nat);
        crate::text::lemma_decimal_round_trip((code - 0x70 + 1) as nat);
        assert(name.subrange(1, name.len() - 1) =~= digits);
    } else {
        let digits = crate::text::decimal(code as nat);
        crate::text::lemma_decimal_round_trip(code as nat);
        assert(name.subrange(3, name.len() as int) =~= digits);
    }
}

/// The two sides of a modifier share a name; all other keys have names of their
/// own.
pub proof fn lemma_names_tell_keys_apart(a: u16, b: u16)
    ensures
        display_name(a) == display_name(b) <==> normalized(a) == normalized(b),
{
    lemma_name_tells_code(a);
    lemma_name_tells_code(b);
}

/// Letters and digits are named by themselves, the digits of the keypad and the
/// function keys by their number, and a key without a name by its code.
pub proof fn lemma_names_show_keys(vk: u16)
    ensures
        0x30 <= vk <= 0x39 || 0x41 <= vk <= 0x5A ==> display_name(vk) == seq![vk as char] + "键"@,
        0x60 <= vk <= 0x69 ==> display_name(vk) == "小键盘"@ + crate::text::decimal(
            (vk - 0x60) as nat,
        ),
        0x70 <= vk <= 0x87 ==> display_name(vk) == "F"@ + crate::text::decimal(
            (vk - 0x6F) as nat,
        ) + "键"@,
        vk > 0xA5 ==> display_name(vk) == "VK "@ + crate::text::decimal(vk as nat),
        vk == 0x11 || vk == 0xA2 || vk == 0xA3 ==> display_name(vk) == "Ctrl"@,
        vk == 0x10 || vk == 0xA0 || vk == 0xA1 ==> display_name(vk) == "Shift"@,
        vk == 0x12 || vk == 0xA4 || vk == 0xA5 ==> display_name(vk) == "Alt"@,
        vk == 0x5B || vk == 0x5C ==> display_name(vk) == "Win"@,
        vk == 0x20 ==> display_name(vk) == "空格键"@,
        vk == 0x0D ==> display_name(vk) == "回车键"@,
        vk == 0x1B ==> display_name(vk) == "Esc键"@,
        vk == 0x09 ==> display_name(vk) == "Tab键"@,
        vk == 0x08 ==> display_name(vk) == "退格键"@,
        0x25 <= vk <= 0x28 ==> display_name(vk) == seq![
            seq!['左', '上', '右', '下'][vk - 0x25],
        ] + "光标键"@,
{
    reveal_strlit("左光标键");
    reveal_strlit("上光标键");
    reveal_strlit("右光标键");
    reveal_strlit("下光标键");
    reveal_strlit("光标键");
    assert(seq!['左'] + "光标键"@ =~= "左光标键"@);
    assert(seq!['上'] + "光标键"@ =~= "上光标键"@);
    assert(seq!['右'] + "光标键"@ =~= "右光标键"@);
    assert(seq!['下'] + "光标键"@ =~= "下光标键"@);
}

/// The name shown for a key.
pub fn key_display_name(vk: u16) -> (r: String)
    ensures
        r@ == display_name(vk),
{
    let code = normalize_vk(vk);
    match code {
        VK_CONTROL => "Ctrl".to_owned(),
        VK_SHIFT => "Shift".to_owned(),
        VK_ALT => "Alt".to_owned(),
        VK_WIN => "Win".to_owned(),
        0x08 => "退格键".to_owned(),
        0x09 => "Tab键".to_owned(),
        0x0D => "回车键".to_owned(),
        0x1B => "Esc键".to_owned(),
        0x20 => "空格键".to_owned(),
        0x21 => "PageUp键".to_owned(),
        0x22 => "PageDown键".to_owned(),
        0x23 => "End键".to_owned(),
        0x24 => "Home键".to_owned(),
        0x25 => "左光标键".to_owned(),
        0x26 => "上光标键".to_owned(),
        0x27 => "右光标键".to_owned(),
        0x28 => "下光标键".to_owned(),
        0x2D => "Insert键".to_owned(),
        0x2E => "Delete键".to_owned(),
        0x6A => "小键盘*".to_owned(),
        0x6B => "小键盘+".to_owned(),
        0x6D => "小键盘-".to_owned(),
        0x6E => "小键盘.".to_owned(),
        0x6F => "小键盘/".to_owned(),
        _ => {
            if (0x30 <= code && code <= 0x39) || (0x41 <= code && code <= 0x5A) {
                let mut name = String::new();
                name.push((code as u8) as char);
                assert(name@ =~= seq![code as char]);
                name.append("键");
                name
            } else if 0x60 <= code && code <= 0x69 {
                concat("小键盘", format_decimal((code - 0x60) as u64).as_str())
            } else if 0x70 <= code && code <= 0x87 {
                concat3("F", format_decimal((code - 0x70 + 1) as u64).as_str(), "键")
            } else {
                concat("VK ", format_decimal(code as u64).as_str())
            }
        },
    }
}

} // verus!
