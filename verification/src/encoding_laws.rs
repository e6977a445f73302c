//! The bytes of the numbers and of the texts in XLSB records.

use vstd::prelude::*;

verus! {

/// A record id or a length below 0x80 is one byte. Below 0x4000 it is two: the low
/// seven bits with the high bit set, and the bits above them.
pub proof fn law_short_numbers(value: nat)
    ensures
        value < 0x80 ==> crate::biff12::vlq(value) == seq![value as u8],
        0x80 <= value < 0x4000 ==> crate::biff12::vlq(value) == seq![
            (0x80 + value % 0x80) as u8,
            (value / 0x80) as u8,
        ],
{
    reveal_with_fuel(crate::biff12::vlq, 2);
    if 0x80 <= value < 0x4000 {
        assert(crate::biff12::vlq(value) =~= seq![(0x80 + value % 0x80) as u8, (value / 0x80) as u8]);
    }
}

/// A record is its id, the length of its payload, and the payload.
pub proof fn law_short_record(id: nat, payload: Seq<u8>)
    requires
        id < 0x80,
        payload.len() < 0x80,
    ensures
        crate::biff12::record(id, payload) == seq![id as u8, payload.len() as u8] + payload,
{
    law_short_numbers(id);
    law_short_numbers(payload.len());
    assert(crate::biff12::record(id, payload) =~= seq![id as u8, payload.len() as u8] + payload);
}

/// A character below U+10000 stands in a text as its code, low byte first. One above
/// stands as two code units: ten bits of its code less 0x10000 over 0xd800, and the
/// ten below them over 0xdc00.
pub proof fn law_character_bytes(before: Seq<char>, c: char)
    ensures
        ({
            let text = crate::utf16::le_bytes(crate::utf16::encode_units(before.push(c)));
            let front = crate::utf16::le_bytes(crate::utf16::encode_units(before));
            let code = c as int;
            let high = 0xd800 + (code - 0x10000) / 0x400;
            let low = 0xdc00 + (code - 0x10000) % 0x400;
            &&& code < 0x10000 ==> text == front + seq![(code % 0x100) as u8, (code / 0x100) as u8]
            &&& code >= 0x10000 ==> text == front + seq![
                (high % 0x100) as u8,
                (high / 0x100) as u8,
                (low % 0x100) as u8,
                (low / 0x100) as u8,
            ]
        }),
{
    let units = crate::utf16::encode_units(before.push(c));
    let ahead = crate::utf16::encode_units(before);
    assert(before.push(c).drop_last() =~= before);
    assert(units == ahead + crate::utf16::char_units(c));
    let text = crate::utf16::le_bytes(units);
    let front = crate::utf16::le_bytes(ahead);
    let code = c as int;
    if code < 0x10000 {
        assert(text =~= front + seq![(code % 0x100) as u8, (code / 0x100) as u8]);
    } else {
        let high = 0xd800 + (code - 0x10000) / 0x400;
        let low = 0xdc00 + (code - 0x10000) % 0x400;
        assert(text =~= front + seq![
            (high % 0x100) as u8,
            (high / 0x100) as u8,
            (low % 0x100) as u8,
            (low / 0x100) as u8,
        ]);
    }
}

} // verus!
