use vstd::prelude::*;
use crate::mqtt::message_sender::read_u16_be;
use crate::mqtt::utils::{get_length, get_length_in_bounds, spec_get_length};

verus! {

/// Bytes read one character per byte (Latin-1), as the broker reads names and payloads.
pub open spec fn latin1(bytes: Seq<u8>) -> Seq<char> {
    bytes.map_values(|b: u8| b as char)
}

/// A length-prefixed field starts at `index`: its two length bytes and the
/// bytes they announce all lie within the buffer.
pub open spec fn field_fits(buffer: Seq<u8>, index: int) -> bool {
    0 <= index && index + 2 <= buffer.len() && index + 2 + read_u16_be(buffer, index) <= buffer.len()
}

/// Where the length-prefixed field at `index` ends.
pub open spec fn field_end(buffer: Seq<u8>, index: int) -> int {
    index + 2 + read_u16_be(buffer, index)
}

/// The characters of the length-prefixed field at `index`.
pub open spec fn field_chars(buffer: Seq<u8>, index: int) -> Seq<char> {
    latin1(buffer.subrange(index + 2, field_end(buffer, index)))
}

/// `String::push`: the string's characters become the old ones followed by `c`.
#[verifier::external_body]
pub(crate) fn push_char(s: &mut String, c: char)
    ensures
        final(s)@ == old(s)@.push(c),
{
    s.push(c);
}

/// The bytes `buffer[start..end]` read one character per byte.
pub fn read_latin1(buffer: &[u8], start: usize, end: usize) -> (res: String)
    requires
        start <= end <= buffer@.len(),
    ensures
        res@ == latin1(buffer@.subrange(start as int, end as int)),
{
    let mut s = String::new();
    let mut index = start;
    while index < end
        invariant
            start <= index <= end <= buffer@.len(),
            s@ == latin1(buffer@.subrange(start as int, index as int)),
        decreases end - index,
    {
        push_char(&mut s, buffer[index] as char);
        index = index + 1;
        assert(buffer@.subrange(start as int, index as int) == buffer@.subrange(start as int, index - 1).push(
            buffer@[index - 1],
        ));
        assert(s@ =~= latin1(buffer@.subrange(start as int, index as int)));
    }
    s
}

/// Reads the length-prefixed string at `index`; returns it and the index just past it.
pub fn read_uft_8_string_with_length_bytes(buffer: &[u8], index: usize) -> (res: (String, usize))
    requires
        field_fits(buffer@, index as int),
    ensures
        res.0@ == field_chars(buffer@, index as int),
        res.1 == field_end(buffer@, index as int),
{
    let length = buffer[index] as usize * 256 + buffer[index + 1] as usize;
    let start = index + 2;
    let s = read_latin1(buffer, start, start + length);
    (s, start + length)
}

/// Reads the string from `index` up to (not including) `end_index`; returns it and `end_index`.
pub fn read_uft_8_string_with_end_index(buffer: &[u8], index: usize, end_index: usize) -> (res: (String, usize))
    requires
        index <= end_index <= buffer@.len(),
    ensures
        res.0@ == latin1(buffer@.subrange(index as int, end_index as int)),
        res.1 == end_index,
{
    (read_latin1(buffer, index, end_index), end_index)
}

/// How many bytes the length field at `index` takes (see `get_length`).
pub open spec fn length_field_size(buffer: Seq<u8>, index: int) -> int {
    if buffer[index] < 128 {
        1
    } else {
        2
    }
}

/// Reads a packet's remaining length at `index`; returns it and the index just past the length field.
pub fn read_package_length(buffer: &[u8], index: u8) -> (res: (usize, usize))
    requires
        get_length_in_bounds(buffer@, index),
    ensures
        res.0 == spec_get_length(buffer@, index as int),
        res.1 == index + length_field_size(buffer@, index as int),
{
    let length = get_length(buffer, index);
    if buffer[index as usize] < 128 {
        (length, index as usize + 1)
    } else {
        (length, index as usize + 2)
    }
}

} // verus!
