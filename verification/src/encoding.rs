//! Facts about UTF-8 text and 16-bit code units: how encoding goes along
//! with concatenation, which bytes a character can give, and that text
//! written as code units decodes to itself.

use vstd::prelude::*;
use vstd::utf8::*;
use crate::wide::{is_bmp, le_bytes, le_unit, le_units, unit_utf8, units_of_text, units_utf8};

verus! {

/// The UTF-8 encoding of a concatenation is the concatenation of the
/// encodings.
pub proof fn lemma_encode_concat(a: Seq<char>, b: Seq<char>)
    ensures
        encode_utf8(a + b) == encode_utf8(a) + encode_utf8(b),
    decreases a.len(),
{
    if a.len() == 0 {
        assert(a + b =~= b);
        assert(encode_utf8(a) + encode_utf8(b) =~= encode_utf8(b));
    } else {
        lemma_encode_concat(a.drop_first(), b);
        assert((a + b).drop_first() =~= a.drop_first() + b);
        assert((a + b)[0] == a[0]);
        assert(encode_utf8(a + b) =~= encode_utf8(a) + encode_utf8(b));
    }
}

/// The UTF-8 encoding of a single character.
pub proof fn lemma_encode_one(c: char)
    ensures
        encode_utf8(seq![c]) == encode_scalar(c as u32),
{
    assert(seq![c].drop_first() =~= Seq::<char>::empty());
    assert(encode_utf8(seq![c]) =~= encode_scalar(c as u32) + encode_utf8(Seq::<char>::empty()));
}

/// The bytes of a scalar's encoding: a scalar below `0x80` is its own single
/// byte, and every byte of a longer encoding is `0x80` or more.
proof fn lemma_scalar_bytes(s: u32)
    by (bit_vector)
    ensures
        s <= 0x7F ==> (s & 0x7F) as u8 == s,
        (0xC0u8 | ((s >> 6) & 0x1F) as u8) >= 0x80u8,
        (0xE0u8 | ((s >> 12) & 0x0F) as u8) >= 0x80u8,
        (0xF0u8 | ((s >> 18) & 0x7) as u8) >= 0x80u8,
        (0x80u8 | (s & 0x3F) as u8) >= 0x80u8,
        (0x80u8 | ((s >> 6) & 0x3F) as u8) >= 0x80u8,
        (0x80u8 | ((s >> 12) & 0x3F) as u8) >= 0x80u8,
{
}

/// A byte below `0x80` occurs in the encoding of a character only as the
/// encoding of the character with that code.
pub proof fn lemma_ascii_byte_in_scalar(c: char, b: u8, i: int)
    requires
        b < 0x80,
        0 <= i < encode_scalar(c as u32).len(),
        encode_scalar(c as u32)[i] == b,
    ensures
        c as u32 == b as u32,
        encode_scalar(c as u32) == seq![b],
{
    let s = c as u32;
    lemma_scalar_bytes(s);
    char_is_scalar(c);
    assert(encode_scalar(s) =~= seq![b]);
}

/// The encoding of a character with a code below `0x80` is the one byte
/// with that code.
pub proof fn lemma_encode_ascii(c: char)
    requires
        (c as u32) < 0x80,
    ensures
        encode_utf8(seq![c]) == seq![(c as u32) as u8],
{
    lemma_encode_one(c);
    lemma_scalar_bytes(c as u32);
    assert(encode_scalar(c as u32) =~= seq![(c as u32) as u8]);
}

/// A byte below `0x80` occurs in the encoding of a text exactly when the
/// character with that code occurs in the text.
pub proof fn lemma_ascii_byte_occurs(text: Seq<char>, b: u8)
    requires
        b < 0x80,
    ensures
        encode_utf8(text).contains(b) <==> text.contains((b as u32) as char),
    decreases text.len(),
{
    let c = (b as u32) as char;
    assert(c as u32 == b as u32);
    if text.len() > 0 {
        let first = encode_scalar(text[0] as u32);
        let rest = encode_utf8(text.drop_first());
        lemma_ascii_byte_occurs(text.drop_first(), b);
        if encode_utf8(text).contains(b) {
            let i = choose|i: int| 0 <= i < encode_utf8(text).len() && encode_utf8(text)[i] == b;
            if i < first.len() {
                assert(first[i] == b);
                lemma_ascii_byte_in_scalar(text[0], b, i);
                char_u32_cast(text[0], b as u32);
                assert(text[0] == c);
            } else {
                assert(rest[i - first.len()] == b);
                assert(rest.contains(b));
                let j = choose|j: int|
                    0 <= j < text.drop_first().len() && text.drop_first()[j] == c;
                assert(text[j + 1] == c);
            }
        }
        if text.contains(c) {
            let j = choose|j: int| 0 <= j < text.len() && text[j] == c;
            if j == 0 {
                lemma_scalar_bytes(c as u32);
                assert(first =~= seq![b]);
                assert(encode_utf8(text)[0] == b);
            } else {
                assert(text.drop_first()[j - 1] == c);
                assert(rest.contains(b));
                let i = choose|i: int| 0 <= i < rest.len() && rest[i] == b;
                assert(encode_utf8(text)[first.len() + i] == b);
            }
        }
    }
}

/// Decoding a code unit that is no surrogate gives the UTF-8 encoding of
/// the character with that code.
proof fn lemma_unit_bits(u: u16, s: u32)
    by (bit_vector)
    requires
        s == u as u32,
    ensures
        u < 0x80 ==> u as u8 == (s & 0x7F) as u8,
        0x80 <= u < 0x800 ==> (0xC0u16 + ((u >> 6) & 0x1F)) as u8 == (0xC0u8 | ((s >> 6)
            & 0x1F) as u8) && (0x80u16 + (u & 0x3F)) as u8 == (0x80u8 | (s & 0x3F) as u8),
        0x800 <= u ==> (0xE0u16 + ((u >> 12) & 0x0F)) as u8 == (0xE0u8 | ((s >> 12) & 0x0F) as u8)
            && (0x80u16 + ((u >> 6) & 0x3F)) as u8 == (0x80u8 | ((s >> 6) & 0x3F) as u8) && (
        0x80u16 + (u & 0x3F)) as u8 == (0x80u8 | (s & 0x3F) as u8),
        (0xC0u16 + ((u >> 6) & 0x1F)) < 0x100,
        (0xE0u16 + ((u >> 12) & 0x0F)) < 0x100,
        (0x80u16 + ((u >> 6) & 0x3F)) < 0x100,
        (0x80u16 + (u & 0x3F)) < 0x100,
{
}

/// The code unit of a character below `0x10000` decodes to the character's
/// UTF-8 encoding.
pub proof fn lemma_unit_of_char(c: char)
    requires
        c as u32 <= 0xFFFF,
    ensures
        unit_utf8((c as u32) as u16) == encode_scalar(c as u32),
{
    let s = c as u32;
    let u = s as u16;
    char_is_scalar(c);
    lemma_unit_bits(u, s);
    assert(unit_utf8(u) =~= encode_scalar(s));
}

/// Decoding goes along with concatenation of code units.
pub proof fn lemma_units_utf8_concat(a: Seq<u16>, b: Seq<u16>)
    ensures
        units_utf8(a + b) == units_utf8(a) + units_utf8(b),
    decreases b.len(),
{
    if b.len() == 0 {
        assert(a + b =~= a);
        assert(units_utf8(a) + units_utf8(b) =~= units_utf8(a));
    } else {
        lemma_units_utf8_concat(a, b.drop_last());
        assert((a + b).drop_last() =~= a + b.drop_last());
        assert((a + b).last() == b.last());
        assert(units_utf8(a + b) =~= units_utf8(a) + units_utf8(b));
    }
}

/// Text written as code units decodes to its UTF-8 encoding.
pub proof fn lemma_text_decodes_to_itself(text: Seq<char>)
    requires
        is_bmp(text),
    ensures
        units_utf8(units_of_text(text)) == encode_utf8(text),
    decreases text.len(),
{
    if text.len() == 0 {
        assert(units_of_text(text) =~= Seq::<u16>::empty());
    } else {
        let front = text.drop_last();
        let c = text.last();
        assert(is_bmp(front)) by {
            assert forall|i: int| 0 <= i < front.len() implies (#[trigger] front[i]) as u32
                <= 0xFFFF by {
                assert(front[i] == text[i]);
            }
        }
        lemma_text_decodes_to_itself(front);
        assert(units_of_text(text).drop_last() =~= units_of_text(front));
        assert(units_of_text(text).last() == (c as u32) as u16);
        lemma_unit_of_char(c);
        assert(text =~= front + seq![c]);
        lemma_encode_concat(front, seq![c]);
        lemma_encode_one(c);
    }
}

/// Bytes written from code units read back as the same units.
pub proof fn lemma_units_read_back(units: Seq<u16>)
    ensures
        le_bytes(units).len() == 2 * units.len(),
        le_units(le_bytes(units)) == units,
{
    let bytes = le_bytes(units);
    assert forall|i: int| 0 <= i < units.len() implies le_unit(bytes[2 * i], bytes[2 * i + 1])
        == units[i] by {
        let u = units[i];
        assert(bytes[2 * i] == (u % 256) as u8);
        assert(bytes[2 * i + 1] == (u / 256) as u8);
    }
    assert(le_units(bytes) =~= units);
}

/// Reading code units goes along with concatenation of bytes, as long as
/// the first part holds whole units.
pub proof fn lemma_le_units_concat(a: Seq<u8>, b: Seq<u8>)
    requires
        a.len() % 2 == 0,
    ensures
        le_units(a + b) == le_units(a) + le_units(b),
{
    let whole = a + b;
    assert forall|i: int| 0 <= i < le_units(whole).len() implies le_units(whole)[i] == (le_units(a)
        + le_units(b))[i] by {
        if i < a.len() / 2 {
            assert(whole[2 * i] == a[2 * i]);
            assert(whole[2 * i + 1] == a[2 * i + 1]);
        } else {
            let k = i - a.len() / 2;
            assert(whole[2 * i] == b[2 * k]);
            assert(whole[2 * i + 1] == b[2 * k + 1]);
        }
    }
    assert(le_units(whole) =~= le_units(a) + le_units(b));
}

/// A byte below `0x80` at the end of a byte sequence neither makes nor
/// breaks valid UTF-8, and decodes to the character with that code.
pub proof fn lemma_ascii_byte_appended(bytes: Seq<u8>, b: u8)
    requires
        b < 0x80,
    ensures
        valid_utf8(bytes + seq![b]) <==> valid_utf8(bytes),
        valid_utf8(bytes) ==> decode_utf8(bytes + seq![b]) == decode_utf8(bytes) + seq![
            (b as u32) as char,
        ],
{
    let c = (b as u32) as char;
    let whole = bytes + seq![b];
    assert(c as u32 == b as u32);
    lemma_encode_ascii(c);
    encode_utf8_valid_utf8(seq![c]);
    encode_utf8_decode_utf8(seq![c]);
    assert(whole.subrange(0, bytes.len() as int) =~= bytes);
    assert(whole.subrange(bytes.len() as int, whole.len() as int) =~= seq![b]);
    if valid_utf8(bytes) {
        valid_utf8_concat(bytes, seq![b]);
    }
    if valid_utf8(whole) {
        utf8_byte_ranges_bitwise(b);
        assert(!is_continuation_byte(whole[bytes.len() as int])) by {
            assert(whole[bytes.len() as int] == b);
            assert(b & 0xC0 != 0x80) by (bit_vector)
                requires
                    b < 0x80,
            ;
        }
        is_char_boundary_iff_not_is_continuation_byte(whole, bytes.len() as int);
        valid_utf8_split(whole, bytes.len() as int);
        decode_utf8_split(whole, bytes.len() as int);
    }
}

/// Every byte that a code unit of `0x80` or more decodes to is `0x80` or
/// more.
proof fn lemma_unit_high_bytes(u: u16)
    by (bit_vector)
    requires
        u >= 0x80,
    ensures
        (0xC0u16 + ((u >> 6) & 0x1F)) as u8 >= 0x80u8,
        (0x80u16 + (u & 0x3F)) as u8 >= 0x80u8,
        (0xE0u16 + ((u >> 12) & 0x0F)) as u8 >= 0x80u8,
        (0x80u16 + ((u >> 6) & 0x3F)) as u8 >= 0x80u8,
{
}

/// A byte below `0x80` occurs in what code units decode to only where the
/// unit with that code occurs.
pub proof fn lemma_ascii_byte_from_unit(units: Seq<u16>, b: u8)
    requires
        b < 0x80,
        units_utf8(units).contains(b),
    ensures
        units.contains(b as u16),
    decreases units.len(),
{
    if units.len() > 0 {
        let front = units_utf8(units.drop_last());
        let u = units.last();
        let back = unit_utf8(u);
        let i = choose|i: int| 0 <= i < units_utf8(units).len() && units_utf8(units)[i] == b;
        if i < front.len() {
            assert(front[i] == b);
            lemma_ascii_byte_from_unit(units.drop_last(), b);
            let j = choose|j: int|
                0 <= j < units.drop_last().len() && units.drop_last()[j] == b as u16;
            assert(units[j] == b as u16);
        } else {
            assert(back[i - front.len()] == b);
            if u >= 0x80 {
                lemma_unit_high_bytes(u);
                lemma_unit_bits(u, u as u32);
            }
            assert(units[units.len() - 1] == b as u16);
        }
    }
}

/// The first byte of the encoding of a scalar of `0x10000` or more is
/// `0xF0` or more.
proof fn lemma_scalar_high_lead(s: u32)
    by (bit_vector)
    ensures
        (0xF0u8 | ((s >> 18) & 0x7) as u8) >= 0xF0u8,
{
}

/// Every byte that a code unit decodes to is below `0xF0`.
proof fn lemma_unit_low_bytes(u: u16)
    by (bit_vector)
    ensures
        ((0xC0u16 + ((u >> 6) & 0x1F)) as u8) < 0xF0u8,
        ((0x80u16 + (u & 0x3F)) as u8) < 0xF0u8,
        ((0xE0u16 + ((u >> 12) & 0x0F)) as u8) < 0xF0u8,
        ((0x80u16 + ((u >> 6) & 0x3F)) as u8) < 0xF0u8,
{
}

/// Every byte that code units decode to is below `0xF0`: no code unit
/// decodes to the encoding of a character of `0x10000` or more.
pub proof fn lemma_units_bytes_low(units: Seq<u16>)
    ensures
        forall|i: int| 0 <= i < units_utf8(units).len() ==> #[trigger] units_utf8(units)[i] < 0xF0u8,
    decreases units.len(),
{
    if units.len() > 0 {
        let front = units_utf8(units.drop_last());
        let u = units.last();
        let back = unit_utf8(u);
        lemma_units_bytes_low(units.drop_last());
        lemma_unit_low_bytes(u);
        lemma_unit_bits(u, u as u32);
        assert forall|i: int| 0 <= i < units_utf8(units).len() implies #[trigger] units_utf8(
            units,
        )[i] < 0xF0u8 by {
            if i < front.len() {
                assert(units_utf8(units)[i] == front[i]);
            } else {
                assert(units_utf8(units)[i] == back[i - front.len()]);
            }
        }
    }
}

/// Text whose encoding holds no byte of `0xF0` or more holds no character
/// of `0x10000` or more.
pub proof fn lemma_low_bytes_are_bmp(text: Seq<char>)
    requires
        forall|i: int| 0 <= i < encode_utf8(text).len() ==> #[trigger] encode_utf8(text)[i] < 0xF0u8,
    ensures
        is_bmp(text),
    decreases text.len(),
{
    if text.len() > 0 {
        let c = text[0];
        let s = c as u32;
        let first = encode_scalar(s);
        let rest = encode_utf8(text.drop_first());
        char_is_scalar(c);
        lemma_scalar_high_lead(s);
        assert(encode_utf8(text)[0] == first[0]);
        assert(s <= 0xFFFF);
        assert forall|i: int| 0 <= i < rest.len() implies #[trigger] rest[i] < 0xF0u8 by {
            assert(rest[i] == encode_utf8(text)[first.len() + i]);
        }
        lemma_low_bytes_are_bmp(text.drop_first());
        assert forall|i: int| 0 <= i < text.len() implies (#[trigger] text[i]) as u32
            <= 0xFFFF by {
            if i > 0 {
                assert(text[i] == text.drop_first()[i - 1]);
            }
        }
    }
}

} // verus!
