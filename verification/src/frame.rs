//! Where one message ends in a stream of bytes: the length of a message by
//! the first sixteen bytes of its header.

use vstd::prelude::*;

verus! {

/// The length of the part of the header that tells the length of the rest.
pub const MIN_HEADER_LEN: usize = 16;

/// The longest message that the protocol allows: 128 MiB.
pub const MAX_MESSAGE_LEN: usize = 134_217_728;

/// Why the length of a message could not be told.
#[derive(Debug, Clone, Copy, PartialEq, Eq, Structural)]
pub enum FrameError {
    /// Fewer than sixteen bytes were given.
    TooShort,
    /// The first byte names neither byte order.
    UnknownByteOrder,
    /// The header tells of a message longer than the protocol allows.
    TooLong,
}

/// The number that four bytes from `at` on make up, lowest byte first.
pub open spec fn u32_le(bytes: Seq<u8>, at: int) -> int {
    bytes[at] as int + 256 * bytes[at + 1] as int + 65_536 * bytes[at + 2] as int + 16_777_216
        * bytes[at + 3] as int
}

/// The number that four bytes from `at` on make up, highest byte first.
pub open spec fn u32_be(bytes: Seq<u8>, at: int) -> int {
    16_777_216 * bytes[at] as int + 65_536 * bytes[at + 1] as int + 256 * bytes[at + 2] as int
        + bytes[at + 3] as int
}

/// Whether the first byte of a header names a byte order: `l` for lowest
/// byte first, `B` for highest byte first.
pub open spec fn known_byte_order(header: Seq<u8>) -> bool {
    header[0] == 108 || header[0] == 66
}

/// The number at `at` in the byte order of the header.
pub open spec fn header_u32(header: Seq<u8>, at: int) -> int {
    if header[0] == 108 {
        u32_le(header, at)
    } else {
        u32_be(header, at)
    }
}

/// The length of the whole message: the fixed part of the header and the
/// header fields, whose length stands at byte 12, filled up to a multiple
/// of eight, and then the body, whose length stands at byte 4.
pub open spec fn message_len(header: Seq<u8>) -> int {
    8 * ((16 + header_u32(header, 12) + 7) / 8) + header_u32(header, 4)
}

/// The number that four bytes from `at` on make up in the byte order given.
fn read_u32(bytes: &[u8], at: usize, little_endian: bool) -> (value: u64)
    requires
        at + 4 <= bytes@.len(),
    ensures
        value == if little_endian {
            u32_le(bytes@, at as int)
        } else {
            u32_be(bytes@, at as int)
        },
        value <= u32::MAX,
{
    let a = bytes[at] as u64;
    let b = bytes[at + 1] as u64;
    let c = bytes[at + 2] as u64;
    let d = bytes[at + 3] as u64;
    if little_endian {
        a + 256 * b + 65_536 * c + 16_777_216 * d
    } else {
        16_777_216 * a + 65_536 * b + 256 * c + d
    }
}

/// How many bytes the message has whose first bytes are `header`.
pub fn bytes_needed(header: &[u8]) -> (r: Result<usize, FrameError>)
    ensures
        r == Err::<usize, FrameError>(FrameError::TooShort) <==> header@.len() < MIN_HEADER_LEN,
        r == Err::<usize, FrameError>(FrameError::UnknownByteOrder) <==> header@.len()
            >= MIN_HEADER_LEN && !known_byte_order(header@),
        r == Err::<usize, FrameError>(FrameError::TooLong) <==> header@.len() >= MIN_HEADER_LEN
            && known_byte_order(header@) && message_len(header@) > MAX_MESSAGE_LEN,
        r matches Ok(n) ==> n == message_len(header@) && MIN_HEADER_LEN <= n <= MAX_MESSAGE_LEN,
{
    if header.len() < MIN_HEADER_LEN {
        return Err(FrameError::TooShort);
    }
    let little_endian = if header[0] == 108 {
        true
    } else if header[0] == 66 {
        false
    } else {
        return Err(FrameError::UnknownByteOrder);
    };
    let body_len = read_u32(header, 4, little_endian);
    let fields_len = read_u32(header, 12, little_endian);
    let total: u64 = 8 * ((16 + fields_len + 7) / 8) + body_len;
    if total > MAX_MESSAGE_LEN as u64 {
        Err(FrameError::TooLong)
    } else {
        Ok(total as usize)
    }
}

} // verus!
