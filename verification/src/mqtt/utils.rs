use vstd::prelude::*;
use vstd::slice::slice_to_vec;
use vstd::utf8::{decode_utf8, valid_utf8};

verus! {

/// The length field at `position`: one byte when its top bit is clear,
/// otherwise the low seven bits of that byte and the next byte, big-endian.
pub open spec fn spec_get_length(buffer: Seq<u8>, position: int) -> int {
    if buffer[position] < 128 {
        buffer[position] as int
    } else {
        (buffer[position] % 128) * 256 + buffer[position + 1]
    }
}

/// The bytes `get_length` reads lie within the buffer, and the second one's
/// position fits in a byte.
pub open spec fn get_length_in_bounds(buffer: Seq<u8>, position: u8) -> bool {
    position < buffer.len() && (buffer[position as int] >= 128 ==> position < 255 && position + 1 < buffer.len())
}

/// Reads the one- or two-byte length field at `position`.
pub fn get_length(buffer: &[u8], position: u8) -> (res: usize)
    requires
        get_length_in_bounds(buffer@, position),
    ensures
        res == spec_get_length(buffer@, position as int),
{
    if buffer[position as usize] < 128 {
        return buffer[position as usize] as usize;
    }
    let high = buffer[position as usize];
    let low = buffer[(position + 1) as usize];
    let len = ((high & 0x7F) as usize) << 8 | low as usize;
    assert(((high & 0x7Fu8) as usize) << 8usize | low as usize == (high % 128) as usize * 256 + low as usize)
        by (bit_vector);
    len
}

/// `String::from_utf8`, its error dropped with `Result::ok`: the string the
/// bytes decode to exactly when they are valid UTF-8, and nothing otherwise.
#[verifier::external_body]
fn string_from_utf8(bytes: Vec<u8>) -> (res: Option<String>)
    ensures
        match res {
            Some(s) => valid_utf8(bytes@) && s@ == decode_utf8(bytes@),
            None => !valid_utf8(bytes@),
        },
{
    String::from_utf8(bytes).ok()
}

/// The bytes decoded as UTF-8, or the text `"Invalid UTF-8"` when they are not valid UTF-8.
pub fn bytes_to_string(bytes: &[u8]) -> (res: String)
    ensures
        res@ == if valid_utf8(bytes@) {
            decode_utf8(bytes@)
        } else {
            seq!['I', 'n', 'v', 'a', 'l', 'i', 'd', ' ', 'U', 'T', 'F', '-', '8']
        },
{
    match string_from_utf8(slice_to_vec(bytes)) {
        Some(s) => s,
        None => {
            let text = String::from_str("Invalid UTF-8");
            proof {
                reveal_strlit("Invalid UTF-8");
            }
            text
        },
    }
}

} // verus!
