//! The editable text buffer behind every file view.
//!
//! The buffer is `crop::Rope`, a UTF-8 text rope with sublinear insertion
//! and deletion.  Its contents are modelled as the byte sequence
//! [`rope_bytes`]; every operation the library uses states its effect on
//! that sequence, in terms of byte offsets exactly as `crop` documents them.

use vstd::prelude::*;
use vstd::string::StringSliceAdditionalSpecFns;
use vstd::utf8::is_char_boundary;

verus! {

#[verifier::external_type_specification]
#[verifier::external_body]
pub struct ExRope(crop::Rope);

/// The bytes a rope holds.
pub uninterp spec fn rope_bytes(r: crop::Rope) -> Seq<u8>;

/// Relies on `crop::Rope::From<&str>`: the rope is created holding exactly
/// the bytes of the string.
#[verifier::external_body]
pub fn rope_from(s: &str) -> (r: crop::Rope)
    ensures
        rope_bytes(r) == s.spec_bytes(),
{
    crop::Rope::from(s)
}

/// Relies on `crop::Rope::byte_len`: the length of the rope in bytes.
#[verifier::external_body]
pub fn rope_byte_len(r: &crop::Rope) -> (n: usize)
    ensures
        n == rope_bytes(*r).len(),
{
    r.byte_len()
}

/// Relies on `crop::Rope::is_char_boundary`: whether the byte offset lies on
/// a character boundary; it panics when the offset is out of bounds.
#[verifier::external_body]
pub fn rope_is_char_boundary(r: &crop::Rope, byte_offset: usize) -> (b: bool)
    requires
        byte_offset <= rope_bytes(*r).len(),
    ensures
        b == is_char_boundary(rope_bytes(*r), byte_offset as int),
{
    r.is_char_boundary(byte_offset)
}

/// Relies on `crop::Rope::insert`: the text is spliced in at the byte
/// offset; it panics when the offset is out of bounds or off a character
/// boundary.
#[verifier::external_body]
pub fn rope_insert(r: &mut crop::Rope, byte_offset: usize, text: &str)
    requires
        byte_offset <= rope_bytes(*old(r)).len(),
        is_char_boundary(rope_bytes(*old(r)), byte_offset as int),
    ensures
        rope_bytes(*final(r)) == rope_bytes(*old(r)).subrange(0, byte_offset as int)
            + text.spec_bytes() + rope_bytes(*old(r)).skip(byte_offset as int),
{
    r.insert(byte_offset, text);
}

/// Relies on `crop::Rope::delete`: the byte range is removed; it panics
/// when the range is out of bounds, reversed, or off character boundaries.
#[verifier::external_body]
pub fn rope_delete(r: &mut crop::Rope, start: usize, end: usize)
    requires
        start <= end <= rope_bytes(*old(r)).len(),
        is_char_boundary(rope_bytes(*old(r)), start as int),
        is_char_boundary(rope_bytes(*old(r)), end as int),
    ensures
        rope_bytes(*final(r)) == rope_bytes(*old(r)).subrange(0, start as int)
            + rope_bytes(*old(r)).skip(end as int),
{
    r.delete(start..end);
}

/// Relies on `crop::Rope::Display`: rendering the rope yields exactly the
/// text it holds, so the bytes of the rendered string are the rope's bytes.
#[verifier::external_body]
pub fn rope_to_string(r: &crop::Rope) -> (s: String)
    ensures
        vstd::utf8::encode_utf8(s@) == rope_bytes(*r),
{
    r.to_string()
}

} // verus!
