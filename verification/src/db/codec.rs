//! Encoding and decoding of the fields that make up a record payload.
//!
//! An unsigned 32-bit field is four little-endian bytes. A text field is the
//! byte length of its UTF-8 encoding as such a field, followed by the bytes.

use crate::error::StoreError;
use vstd::bytes::*;
use vstd::prelude::*;
use vstd::slice::*;
use vstd::utf8::*;

verus! {

/// The bytes of a text field: length prefix, then the UTF-8 bytes.
pub open spec fn text_bytes(s: Seq<char>) -> Seq<u8> {
    spec_u32_to_le_bytes(encode_utf8(s).len() as u32) + encode_utf8(s)
}

/// Whether the UTF-8 length of a text fits its four-byte prefix.
pub open spec fn text_fits(s: Seq<char>) -> bool {
    encode_utf8(s).len() <= u32::MAX
}

/// The integer field that starts at `pos`, with the position behind it, or
/// `None` when fewer than four bytes follow `pos`.
pub open spec fn u32_at(bytes: Seq<u8>, pos: int) -> Option<(u32, int)> {
    if 0 <= pos && pos + 4 <= bytes.len() {
        Some((spec_u32_from_le_bytes(bytes.subrange(pos, pos + 4)), pos + 4))
    } else {
        None
    }
}

/// The text field that starts at `pos`, with the position behind it, or `None`
/// when the prefix is cut short, claims more bytes than follow it, or the bytes
/// are not valid UTF-8.
pub open spec fn text_at(bytes: Seq<u8>, pos: int) -> Option<(Seq<char>, int)> {
    match u32_at(bytes, pos) {
        None => None,
        Some((n, start)) => {
            if start + n <= bytes.len() && valid_utf8(bytes.subrange(start, start + n)) {
                Some((decode_utf8(bytes.subrange(start, start + n)), start + n))
            } else {
                None
            }
        },
    }
}

/// An integer field written between any two byte strings is read back at the
/// position where it starts.
pub proof fn lemma_u32_at_written(pre: Seq<u8>, v: u32, post: Seq<u8>)
    ensures
        u32_at(pre + spec_u32_to_le_bytes(v) + post, pre.len() as int) == Some(
            (v, (pre.len() + 4) as int),
        ),
{
    lemma_auto_spec_u32_to_from_le_bytes();
    let field = spec_u32_to_le_bytes(v);
    let all = pre + field + post;
    let at = pre.len() as int;
    assert(all.subrange(at, at + 4) =~= field);
}

/// A text field that fits its prefix, written between any two byte strings, is
/// read back at the position where it starts.
pub proof fn lemma_text_at_written(pre: Seq<u8>, s: Seq<char>, post: Seq<u8>)
    requires
        text_fits(s),
    ensures
        text_at(pre + text_bytes(s) + post, pre.len() as int) == Some(
            (s, (pre.len() + text_bytes(s).len()) as int),
        ),
        text_bytes(s).len() == 4 + encode_utf8(s).len(),
{
    lemma_auto_spec_u32_to_from_le_bytes();
    let body = encode_utf8(s);
    let n = body.len() as u32;
    let all = pre + text_bytes(s) + post;
    assert(all =~= pre + spec_u32_to_le_bytes(n) + (body + post));
    lemma_u32_at_written(pre, n, body + post);
    let at = pre.len() as int;
    assert(all.subrange(at + 4, at + 4 + n) =~= body);
    encode_utf8_valid_utf8(s);
    encode_utf8_decode_utf8(s);
}

/// The length as the format stores it, if it fits in four bytes.
pub fn length_prefix(len: usize) -> (r: Result<u32, StoreError>)
    ensures
        r == (if len <= u32::MAX {
            Ok::<u32, StoreError>(len as u32)
        } else {
            Err::<u32, StoreError>(StoreError::TooLarge)
        }),
{
    if len <= u32::MAX as usize {
        Ok(len as u32)
    } else {
        Err(StoreError::TooLarge)
    }
}

/// Appends the bytes of a slice to a buffer.
pub fn put_bytes(buf: &mut Vec<u8>, bytes: &[u8])
    ensures
        final(buf)@ == old(buf)@ + bytes@,
{
    let mut tail = slice_to_vec(bytes);
    buf.append(&mut tail);
}

/// Appends an integer field to a buffer.
pub fn put_u32(buf: &mut Vec<u8>, v: u32)
    ensures
        final(buf)@ == old(buf)@ + spec_u32_to_le_bytes(v),
{
    let mut field = u32_to_le_bytes(v);
    buf.append(&mut field);
}

/// Appends a text field to a buffer, or leaves the buffer as it is when the
/// text is too long for its prefix.
pub fn put_text(buf: &mut Vec<u8>, s: &str) -> (r: Result<(), StoreError>)
    ensures
        match r {
            Ok(_) => text_fits(s@) && final(buf)@ == old(buf)@ + text_bytes(s@),
            Err(e) => !text_fits(s@) && e == StoreError::TooLarge && final(buf)@ == old(buf)@,
        },
{
    let body = s.as_bytes();
    match length_prefix(body.len()) {
        Ok(n) => {
            put_u32(buf, n);
            put_bytes(buf, body);
            assert(buf@ =~= old(buf)@ + text_bytes(s@));
            Ok(())
        },
        Err(e) => Err(e),
    }
}

/// Reads the integer field at the cursor and moves the cursor behind it. On
/// failure the cursor stays.
pub fn take_u32(bytes: &[u8], cursor: &mut usize) -> (r: Result<u32, StoreError>)
    ensures
        match r {
            Ok(v) => u32_at(bytes@, *old(cursor) as int) == Some((v, *final(cursor) as int)),
            Err(e) => e == StoreError::Decode && u32_at(bytes@, *old(cursor) as int).is_none()
                && *final(cursor) == *old(cursor),
        },
{
    let start = *cursor;
    if start > bytes.len() || bytes.len() - start < 4 {
        return Err(StoreError::Decode);
    }
    let v = u32_from_le_bytes(slice_subrange(bytes, start, start + 4));
    *cursor = start + 4;
    Ok(v)
}

/// The error of `String::from_utf8`; nothing is read from it.
#[verifier::external_type_specification]
#[verifier::external_body]
pub struct ExFromUtf8Error(std::string::FromUtf8Error);

/// `String::from_utf8`: the bytes are accepted exactly when they are valid
/// UTF-8, and the accepted string consists of the characters they encode.
pub assume_specification[ String::from_utf8 ](vec: Vec<u8>) -> (r: Result<
    String,
    std::string::FromUtf8Error,
>)
    ensures
        match r {
            Ok(s) => valid_utf8(vec@) && s@ == decode_utf8(vec@),
            Err(_) => !valid_utf8(vec@),
        },
;

/// Reads the text field at the cursor and moves the cursor behind it. On
/// failure the cursor stays.
pub fn take_text(bytes: &[u8], cursor: &mut usize) -> (r: Result<String, StoreError>)
    ensures
        match r {
            Ok(s) => text_at(bytes@, *old(cursor) as int) == Some((s@, *final(cursor) as int)),
            Err(e) => e == StoreError::Decode && text_at(bytes@, *old(cursor) as int).is_none()
                && *final(cursor) == *old(cursor),
        },
{
    let mut pos = *cursor;
    let n = match take_u32(bytes, &mut pos) {
        Ok(n) => n as usize,
        Err(e) => {
            return Err(e);
        },
    };
    if bytes.len() - pos < n {
        return Err(StoreError::Decode);
    }
    let body = slice_to_vec(slice_subrange(bytes, pos, pos + n));
    match String::from_utf8(body) {
        Ok(s) => {
            *cursor = pos + n;
            Ok(s)
        },
        Err(_) => Err(StoreError::Decode),
    }
}

} // verus!
