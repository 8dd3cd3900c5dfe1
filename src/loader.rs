//! Turns the raw bytes of a file into a buffer that is safe to parse: a
//! leading byte-order mark is dropped and the last line is terminated.
use vstd::prelude::*;

use crate::bytes::{append_bytes, NEWLINE};

verus! {

/// Whether `head` starts with a UTF-16 byte-order mark, big or little endian.
pub open spec fn starts_with_utf16_bom(head: Seq<u8>) -> bool {
    head.len() >= 2 && ((head[0] == 0xFE && head[1] == 0xFF) || (head[0] == 0xFF && head[1]
        == 0xFE))
}

/// Whether `head` is exactly the UTF-8 byte-order mark.
pub open spec fn is_utf8_bom(head: Seq<u8>) -> bool {
    head.len() == 3 && head[0] == 0xEF && head[1] == 0xBB && head[2] == 0xBF
}

/// The peeked bytes that stay in the buffer.
pub open spec fn strip_bom(head: Seq<u8>) -> Seq<u8> {
    if starts_with_utf16_bom(head) {
        head.subrange(2, head.len() as int)
    } else if is_utf8_bom(head) {
        Seq::empty()
    } else {
        head
    }
}

/// `data` with a newline at its end: one is added unless the last byte is
/// already a newline; an empty buffer becomes a single newline.
pub open spec fn with_eol(data: Seq<u8>) -> Seq<u8> {
    if data.len() == 0 {
        seq![NEWLINE]
    } else if data.last() == NEWLINE {
        data
    } else {
        data.push(NEWLINE)
    }
}

/// The normalised buffer of a file whose first bytes, peeked, are `head`
/// and whose remaining bytes are `rest`.
pub open spec fn normalized(head: Seq<u8>, rest: Seq<u8>) -> Seq<u8> {
    with_eol(strip_bom(head) + rest)
}

/// Builds the parser-safe buffer from the peeked bytes `head` (up to three)
/// and the rest of the file.
pub fn eol_buffer(head: &[u8], rest: &[u8]) -> (r: Vec<u8>)
    requires
        head@.len() <= 3,
    ensures
        r@ == normalized(head@, rest@),
{
    let mut data: Vec<u8> = Vec::new();
    let n = head.len();
    if n >= 2 && ((head[0] == 0xFE && head[1] == 0xFF) || (head[0] == 0xFF && head[1] == 0xFE)) {
        if n == 3 {
            data.push(head[2]);
        }
    } else if !(n == 3 && head[0] == 0xEF && head[1] == 0xBB && head[2] == 0xBF) {
        append_bytes(&mut data, head);
    }
    assert(data@ =~= strip_bom(head@));
    append_bytes(&mut data, rest);
    let len = data.len();
    if len == 0 || data[len - 1] != NEWLINE {
        data.push(NEWLINE);
    }
    assert(data@ =~= normalized(head@, rest@));
    data
}

/// Builds the parser-safe buffer from the whole content of a file: its
/// first three bytes (or fewer, for a shorter file) are the peeked ones.
pub fn normalize_buffer(content: &[u8]) -> (r: Vec<u8>)
    ensures
        r@ == normalized(
            content@.take(if content@.len() < 3 { content@.len() as int } else { 3 }),
            content@.skip(if content@.len() < 3 { content@.len() as int } else { 3 }),
        ),
{
    let k: usize = if content.len() < 3 { content.len() } else { 3 };
    let (head, rest) = content.split_at(k);
    assert(head@ =~= content@.take(k as int));
    assert(rest@ =~= content@.skip(k as int));
    eol_buffer(head, rest)
}

} // verus!
