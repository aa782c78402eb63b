//! The wide-character codec: a translation file is a run of 16-bit code
//! units, each stored low byte first, and stands for the UTF-8 text that the
//! units decode to.

use vstd::prelude::*;
use vstd::utf8::*;
use byte_slice_cast::AsByteSlice;
use byte_slice_cast::AsMutSliceOf;

verus! {

/// Why bytes could not be read as wide-character text, or text not be
/// written as such.
#[derive(Clone, Copy, Debug, PartialEq, Eq, Structural)]
pub enum EncodingError {
    /// The bytes cannot be taken as 16-bit code units: their count is odd.
    NotWide,
    /// The decoded text does not fit the space that a wide-character file of
    /// this size may take.
    BufferOverflow,
    /// The text holds a character that no single 16-bit code unit stands for.
    Unrepresentable,
}

/// The code unit that is stored as the bytes `low`, `high`.
pub open spec fn le_unit(low: u8, high: u8) -> u16 {
    (low as int + 256 * (high as int)) as u16
}

/// The code units that `bytes` store, two bytes to a unit, low byte first. A
/// last byte without a partner is left out.
pub open spec fn le_units(bytes: Seq<u8>) -> Seq<u16> {
    Seq::new((bytes.len() / 2) as nat, |i: int| le_unit(bytes[2 * i], bytes[2 * i + 1]))
}

/// The bytes that store `units`, low byte first.
pub open spec fn le_bytes(units: Seq<u16>) -> Seq<u8> {
    Seq::new(
        2 * units.len(),
        |i: int|
            if i % 2 == 0 {
                (units[i / 2] % 256) as u8
            } else {
                (units[i / 2] / 256) as u8
            },
    )
}

/// The UTF-8 bytes that one code unit decodes to: one byte below `0x80`, two
/// below `0x800`, three from there on.
pub open spec fn unit_utf8(u: u16) -> Seq<u8> {
    if u < 0x80 {
        seq![u as u8]
    } else if u < 0x800 {
        seq![(0xC0 + ((u >> 6) & 0x1F)) as u8, (0x80 + (u & 0x3F)) as u8]
    } else {
        seq![
            (0xE0 + ((u >> 12) & 0x0F)) as u8,
            (0x80 + ((u >> 6) & 0x3F)) as u8,
            (0x80 + (u & 0x3F)) as u8,
        ]
    }
}

/// The UTF-8 bytes that a run of code units decodes to.
pub open spec fn units_utf8(units: Seq<u16>) -> Seq<u8>
    decreases units.len(),
{
    if units.len() == 0 {
        Seq::empty()
    } else {
        units_utf8(units.drop_last()) + unit_utf8(units.last())
    }
}

/// Every character of `text` has a code point below `0x10000`, so that one
/// code unit can stand for it.
pub open spec fn is_bmp(text: Seq<char>) -> bool {
    forall|i: int| 0 <= i < text.len() ==> (#[trigger] text[i]) as u32 <= 0xFFFF
}

/// The code units that stand for `text`, one for each character.
pub open spec fn units_of_text(text: Seq<char>) -> Seq<u16> {
    Seq::new(text.len(), |i: int| (text[i] as u32) as u16)
}

/// Takes `bytes` as 16-bit code units with `byte_slice_cast`'s
/// `as_mut_slice_of::<u16>`, and reads each unit as stored low byte first
/// (`u16::from_le`). The cast accepts no bytes at all, and refuses a byte
/// count that is not even; it also refuses bytes that do not lie at an even
/// address, which nothing here can foretell. When it accepts, the units are
/// those that the bytes store, and the bytes are left as they were.
#[verifier::external_body]
fn cast_to_units(bytes: &mut Vec<u8>) -> (r: Option<Vec<u16>>)
    ensures
        final(bytes)@ == old(bytes)@,
        old(bytes)@.len() % 2 != 0 ==> r is None,
        old(bytes)@.len() == 0 ==> r is Some,
        r is Some ==> r->Some_0@ == le_units(old(bytes)@),
{
    match bytes.as_mut_slice_of::<u16>() {
        Ok(units) => Some(units.iter().map(|u| u16::from_le(*u)).collect()),
        Err(_) => None,
    }
}

/// Lays `units` out as bytes with `byte_slice_cast`'s `as_byte_slice`, each
/// unit stored low byte first (`u16::to_le`).
#[verifier::external_body]
fn cast_to_bytes(units: &Vec<u16>) -> (r: Vec<u8>)
    ensures
        r@ == le_bytes(units@),
{
    let stored: Vec<u16> = units.iter().map(|u| u.to_le()).collect();
    stored.as_byte_slice().to_vec()
}

/// Decodes `units` into `buffer` with `ucs2::decode`. When the decoded bytes
/// fit, they fill the front of the buffer, the rest of it stays as it was,
/// and their count is returned; when they do not fit, the call fails with
/// `BufferOverflow` and the buffer keeps its length.
#[verifier::external_body]
fn ucs2_decode(units: &Vec<u16>, buffer: &mut Vec<u8>) -> (r: Result<usize, EncodingError>)
    ensures
        final(buffer)@.len() == old(buffer)@.len(),
        units_utf8(units@).len() <= old(buffer)@.len() ==> r is Ok && r->Ok_0 == units_utf8(
            units@,
        ).len() && final(buffer)@ == units_utf8(units@) + old(buffer)@.skip(
            units_utf8(units@).len() as int,
        ),
        units_utf8(units@).len() > old(buffer)@.len() ==> r is Err && r->Err_0
            == EncodingError::BufferOverflow,
{
    match ucs2::decode(units.as_slice(), buffer.as_mut_slice()) {
        Ok(count) => Ok(count),
        Err(ucs2::Error::BufferOverflow) => Err(EncodingError::BufferOverflow),
        Err(ucs2::Error::MultiByte) => Err(EncodingError::Unrepresentable),
    }
}

/// Encodes `text` into `buffer` with `ucs2::encode`, given a buffer with
/// room for one unit per character. When every character has a code point
/// below `0x10000`, the units fill the front of the buffer, the rest of it
/// stays as it was, and their count is returned; otherwise the call fails
/// with `MultiByte`, reported as `Unrepresentable`.
#[verifier::external_body]
fn ucs2_encode(text: &str, buffer: &mut Vec<u16>) -> (r: Result<usize, EncodingError>)
    requires
        text@.len() <= old(buffer)@.len(),
    ensures
        final(buffer)@.len() == old(buffer)@.len(),
        is_bmp(text@) ==> r is Ok && r->Ok_0 == text@.len() && final(buffer)@ == units_of_text(
            text@,
        ) + old(buffer)@.skip(text@.len() as int),
        !is_bmp(text@) ==> r is Err && r->Err_0 == EncodingError::Unrepresentable,
{
    match ucs2::encode(text, buffer.as_mut_slice()) {
        Ok(count) => Ok(count),
        Err(ucs2::Error::BufferOverflow) => Err(EncodingError::BufferOverflow),
        Err(ucs2::Error::MultiByte) => Err(EncodingError::Unrepresentable),
    }
}

/// A string has at most as many characters as UTF-8 bytes.
pub proof fn lemma_chars_within_bytes(text: Seq<char>)
    ensures
        text.len() <= encode_utf8(text).len(),
    decreases text.len(),
{
    if text.len() > 0 {
        lemma_chars_within_bytes(text.drop_first());
    }
}

/// The code units that an even number of bytes hold, put together pair by
/// pair.
pub fn pair_up(bytes: &Vec<u8>) -> (r: Vec<u16>)
    requires
        bytes@.len() % 2 == 0,
    ensures
        r@ == le_units(bytes@),
{
    let n = bytes.len() / 2;
    assert(bytes@.len() <= usize::MAX);
    let mut units: Vec<u16> = Vec::new();
    let mut i: usize = 0;
    while i < n
        invariant
            i <= n,
            2 * n == bytes@.len(),
            bytes@.len() <= usize::MAX,
            units@.len() == i,
            forall|k: int| 0 <= k < i ==> units@[k] == le_unit(bytes@[2 * k], bytes@[2 * k + 1]),
        decreases n - i,
    {
        let low: u16 = bytes[2 * i] as u16;
        let high: u16 = bytes[2 * i + 1] as u16;
        units.push(low + 256 * high);
        i += 1;
    }
    assert(units@ =~= le_units(bytes@));
    units
}

/// The code units that the cast of `bytes` gave, or, where the cast
/// refused an even number of bytes, the units put together pair by pair. So
/// the place where the bytes happen to lie makes no difference: only an odd
/// byte count gives `None`.
pub fn units_after_cast(bytes: &Vec<u8>, cast: Option<Vec<u16>>) -> (r: Option<Vec<u16>>)
    requires
        cast is Some ==> bytes@.len() % 2 == 0 && cast->Some_0@ == le_units(bytes@),
    ensures
        r is Some <==> bytes@.len() % 2 == 0,
        r is Some ==> r->Some_0@ == le_units(bytes@),
{
    match cast {
        Some(units) => Some(units),
        None => if bytes.len() % 2 == 0 {
            Some(pair_up(bytes))
        } else {
            None
        },
    }
}

/// The code units that `bytes` hold, low byte first, or `None` when the
/// byte count is odd.
pub fn units_from_bytes(bytes: Vec<u8>) -> (r: Option<Vec<u16>>)
    ensures
        r is Some <==> bytes@.len() % 2 == 0,
        r is Some ==> r->Some_0@ == le_units(bytes@),
{
    let mut bytes = bytes;
    let cast = cast_to_units(&mut bytes);
    units_after_cast(&bytes, cast)
}

/// The bytes of a wide-character file that holds `units`.
pub fn bytes_from_units(units: &Vec<u16>) -> (r: Vec<u8>)
    ensures
        r@ == le_bytes(units@),
{
    cast_to_bytes(units)
}

/// The UTF-8 text that `units` decode to, provided that it takes no more
/// than `capacity` bytes.
pub fn decode_wide(units: &Vec<u16>, capacity: usize) -> (r: Result<Vec<u8>, EncodingError>)
    ensures
        units_utf8(units@).len() <= capacity ==> r is Ok && r->Ok_0@ == units_utf8(units@),
        units_utf8(units@).len() > capacity ==> r is Err && r->Err_0
            == EncodingError::BufferOverflow,
{
    let mut buffer: Vec<u8> = vec![0u8; capacity];
    match ucs2_decode(units, &mut buffer) {
        Ok(count) => {
            buffer.truncate(count);
            assert(buffer@ =~= units_utf8(units@));
            Ok(buffer)
        },
        Err(e) => Err(e),
    }
}

/// The code units that stand for `text`, provided that every character has
/// a code point below `0x10000`.
pub fn encode_wide(text: &str) -> (r: Result<Vec<u16>, EncodingError>)
    ensures
        is_bmp(text@) ==> r is Ok && r->Ok_0@ == units_of_text(text@),
        !is_bmp(text@) ==> r is Err && r->Err_0 == EncodingError::Unrepresentable,
{
    proof {
        lemma_chars_within_bytes(text@);
    }
    let mut buffer: Vec<u16> = vec![0u16; text.as_bytes().len()];
    match ucs2_encode(text, &mut buffer) {
        Ok(count) => {
            buffer.truncate(count);
            assert(buffer@ =~= units_of_text(text@));
            Ok(buffer)
        },
        Err(e) => Err(e),
    }
}

/// The bytes of a wide-character file that holds `text`.
pub open spec fn wide_bytes(text: Seq<char>) -> Seq<u8> {
    le_bytes(units_of_text(text))
}

/// The bytes of a wide-character file that holds `text`, provided that
/// every character has a code point below `0x10000`.
pub fn wide_text(text: &str) -> (r: Result<Vec<u8>, EncodingError>)
    ensures
        is_bmp(text@) ==> r is Ok && r->Ok_0@ == wide_bytes(text@),
        !is_bmp(text@) ==> r is Err && r->Err_0 == EncodingError::Unrepresentable,
{
    match encode_wide(text) {
        Ok(units) => Ok(bytes_from_units(&units)),
        Err(e) => Err(e),
    }
}

} // verus!
