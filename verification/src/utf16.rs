//! UTF-16 code units and their little-endian bytes.

use vstd::prelude::*;
use crate::text::char_code;

verus! {

/// `char::from_u32` gives the character with this code point, and `None` for a
/// surrogate or a number above 0x10FFFF.
pub assume_specification[ char::from_u32 ](i: u32) -> (r: Option<char>)
    ensures
        r is Some <==> is_scalar(i as int),
        r matches Some(c) ==> c as u32 == i,
;

/// The code points that a `char` can hold.
pub open spec fn is_scalar(code: int) -> bool {
    0 <= code < 0xd800 || 0xe000 <= code <= 0x10ffff
}

pub open spec fn is_high_surrogate(unit: u16) -> bool {
    0xd800 <= unit < 0xdc00
}

pub open spec fn is_low_surrogate(unit: u16) -> bool {
    0xdc00 <= unit < 0xe000
}

/// The code units of one character.
pub open spec fn char_units(c: char) -> Seq<u16> {
    let code = c as int;
    if code < 0x10000 {
        seq![code as u16]
    } else {
        seq![(0xd800 + (code - 0x10000) / 0x400) as u16, (0xdc00 + (code - 0x10000) % 0x400) as u16]
    }
}

/// The code units of a text.
pub open spec fn encode_units(s: Seq<char>) -> Seq<u16>
    decreases s.len(),
{
    if s.len() == 0 {
        Seq::empty()
    } else {
        encode_units(s.drop_last()) + char_units(s.last())
    }
}

/// The text of a sequence of code units. An unpaired surrogate reads as U+FFFD.
pub open spec fn decode_units(units: Seq<u16>) -> Seq<char>
    decreases units.len(),
{
    if units.len() == 0 {
        Seq::empty()
    } else if is_high_surrogate(units[0]) && units.len() > 1 && is_low_surrogate(units[1]) {
        seq![(0x10000 + (units[0] - 0xd800) * 0x400 + (units[1] - 0xdc00)) as char] + decode_units(
            units.skip(2),
        )
    } else if is_high_surrogate(units[0]) || is_low_surrogate(units[0]) {
        seq![0xfffd as char] + decode_units(units.skip(1))
    } else {
        seq![units[0] as char] + decode_units(units.skip(1))
    }
}

/// The code units that a sequence of bytes holds, two bytes each, low byte
/// first.
pub open spec fn le_units(bytes: Seq<u8>) -> Seq<u16> {
    Seq::new(bytes.len() / 2, |i: int| (bytes[2 * i] + 256 * bytes[2 * i + 1]) as u16)
}

/// The bytes of a sequence of code units, low byte first.
pub open spec fn le_bytes(units: Seq<u16>) -> Seq<u8> {
    Seq::new(
        2 * units.len(),
        |i: int| if i % 2 == 0 { (units[i / 2] % 256) as u8 } else { (units[i / 2] / 256) as u8 },
    )
}

proof fn lemma_decode_front(c: char, rest: Seq<u16>)
    ensures
        decode_units(char_units(c) + rest) == seq![c] + decode_units(rest),
{
    let code = c as int;
    let all = char_units(c) + rest;
    if code < 0x10000 {
        assert(all.skip(1) =~= rest);
        assert(all[0] == code);
    } else {
        assert(all.skip(2) =~= rest);
        let hi = 0xd800 + (code - 0x10000) / 0x400;
        let lo = 0xdc00 + (code - 0x10000) % 0x400;
        assert(all[0] == hi);
        assert(all[1] == lo);
        assert((hi - 0xd800) * 0x400 + (lo - 0xdc00) + 0x10000 == code);
    }
}

proof fn lemma_decode_concat(s: Seq<char>, rest: Seq<u16>)
    ensures
        decode_units(encode_units(s) + rest) == s + decode_units(rest),
    decreases s.len(),
{
    if s.len() == 0 {
        assert(encode_units(s) + rest =~= rest);
        assert(s + decode_units(rest) =~= decode_units(rest));
    } else {
        let tail = char_units(s.last()) + rest;
        assert(encode_units(s) + rest =~= encode_units(s.drop_last()) + tail);
        lemma_decode_concat(s.drop_last(), tail);
        lemma_decode_front(s.last(), rest);
        assert(s =~= s.drop_last() + seq![s.last()]);
        assert(s.drop_last() + (seq![s.last()] + decode_units(rest)) =~= s + decode_units(rest));
    }
}

/// Decoding the code units of a text gives the text back.
pub proof fn law_utf16_round_trip(s: Seq<char>)
    ensures
        decode_units(encode_units(s)) == s,
{
    lemma_decode_concat(s, Seq::empty());
    assert(encode_units(s) + Seq::<u16>::empty() =~= encode_units(s));
    assert(s + decode_units(Seq::empty()) =~= s);
}

/// Reading the little-endian bytes of code units gives the code units back.
pub proof fn law_le_round_trip(units: Seq<u16>)
    ensures
        le_units(le_bytes(units)) == units,
{
    assert(le_units(le_bytes(units)) =~= units) by {
        assert forall|i: int| 0 <= i < units.len() implies le_units(le_bytes(units))[i]
            == units[i] by {
            let u = units[i];
            assert((2 * i) / 2 == i && (2 * i) % 2 == 0);
            assert((2 * i + 1) / 2 == i && (2 * i + 1) % 2 == 1);
            assert(u % 256 + 256 * (u / 256) == u);
        }
    }
}

/// The code units of a text.
pub fn utf16_units(s: &[char]) -> (units: Vec<u16>)
    ensures
        units@ == encode_units(s@),
{
    let mut units: Vec<u16> = Vec::new();
    let mut i: usize = 0;
    while i < s.len()
        invariant
            i <= s.len(),
            units@ == encode_units(s@.take(i as int)),
        decreases s.len() - i,
    {
        let c = s[i];
        proof {
            assert(s@.take(i as int + 1).drop_last() =~= s@.take(i as int));
            assert(s@.take(i as int + 1).last() == c);
        }
        let code: u32 = char_code(c);
        if code < 0x10000 {
            units.push(code as u16);
        } else {
            units.push((0xd800 + (code - 0x10000) / 0x400) as u16);
            units.push((0xdc00 + (code - 0x10000) % 0x400) as u16);
        }
        assert(units@ =~= encode_units(s@.take(i as int)) + char_units(c));
        i += 1;
    }
    assert(s@.take(s@.len() as int) =~= s@);
    units
}

/// The text that little-endian UTF-16 bytes hold.
pub fn decode_utf16le(bytes: &[u8]) -> (s: String)
    ensures
        s@ == decode_units(le_units(bytes@)),
{
    let mut s = String::new();
    let n: usize = bytes.len() / 2;
    let ghost units = le_units(bytes@);
    let mut i: usize = 0;
    assert(units.skip(0) =~= units);
    assert(s@ + decode_units(units) =~= decode_units(units));
    while i < n
        invariant
            i <= n == bytes.len() / 2,
            units == le_units(bytes@),
            s@ + decode_units(units.skip(i as int)) == decode_units(units),
        decreases n - i,
    {
        let unit: u16 = bytes[2 * i] as u16 + 256 * (bytes[2 * i + 1] as u16);
        let ghost rest = units.skip(i as int);
        assert(rest[0] == unit);
        assert(rest.skip(1) =~= units.skip(i + 1));
        let high = unit >= 0xd800 && unit < 0xdc00;
        let low = unit >= 0xdc00 && unit < 0xe000;
        let ghost before = s@;
        let mut paired = false;
        if high && i + 1 < n {
            let next: u16 = bytes[2 * i + 2] as u16 + 256 * (bytes[2 * i + 3] as u16);
            assert(rest[1] == next);
            if next >= 0xdc00 && next < 0xe000 {
                let code: u32 = 0x10000 + (unit as u32 - 0xd800) * 0x400 + (next as u32 - 0xdc00);
                if let Some(c) = char::from_u32(code) {
                    s.push(c);
                    proof {
                        crate::text::lemma_char_code(c, code);
                    }
                    assert(rest.skip(2) =~= units.skip(i + 2));
                    assert(s@ + decode_units(rest.skip(2)) =~= before + decode_units(rest));
                    paired = true;
                }
            }
        }
        if paired {
            i += 2;
        } else {
            if high || low {
                s.push('\u{fffd}');
                assert('\u{fffd}' == 0xfffd as char);
            } else {
                if let Some(c) = char::from_u32(unit as u32) {
                    s.push(c);
                    proof {
                        crate::text::lemma_char_code(c, unit as u32);
                    }
                }
            }
            assert(s@ + decode_units(rest.skip(1)) =~= before + decode_units(rest));
            i += 1;
        }
    }
    assert(decode_units(units.skip(i as int)) =~= Seq::<char>::empty());
    assert(s@ + Seq::<char>::empty() =~= s@);
    s
}

} // verus!
