//! The cursors that headers are read from and written to.
//!
//! What is stated of them here is not proved. It is what the source of `ironrdp_core` shows: a
//! cursor is a slice of bytes with a position in it.

use crate::bytes;
use ironrdp_core::{ReadCursor, WriteCursor};
use vstd::prelude::*;

verus! {

/// `ironrdp_core::ReadCursor`.
#[verifier::external_type_specification]
#[verifier::external_body]
pub struct ExReadCursor<'a>(ironrdp_core::ReadCursor<'a>);

/// `ironrdp_core::WriteCursor`.
#[verifier::external_type_specification]
#[verifier::external_body]
pub struct ExWriteCursor<'a>(ironrdp_core::WriteCursor<'a>);

/// The bytes of a read cursor from its position on.
pub uninterp spec fn unread(c: ReadCursor<'_>) -> Seq<u8>;

/// The bytes of a write cursor up to its position.
pub uninterp spec fn written(c: WriteCursor<'_>) -> Seq<u8>;

/// The bytes of a write cursor from its position on, which are to be overwritten.
pub uninterp spec fn ahead(c: WriteCursor<'_>) -> Seq<u8>;

/// `n` zero bytes.
pub open spec fn zeros(n: int) -> Seq<u8> {
    Seq::new(n as nat, |i: int| 0u8)
}

/// `ReadCursor::len` counts the bytes that are left.
pub assume_specification<'a>[ ironrdp_core::ReadCursor::<'a>::len ](c: &ReadCursor<'a>) -> (r:
    usize)
    ensures
        r == unread(*c).len(),
;

/// `ReadCursor::remaining` gives the bytes that are left, and leaves them.
pub assume_specification<'a>[ ironrdp_core::ReadCursor::<'a>::remaining ](
    c: &ReadCursor<'a>,
) -> (r: &'a [u8])
    ensures
        r@ == unread(*c),
;

/// `ReadCursor::read_u8` takes a byte. It panics where there is none.
pub assume_specification<'a>[ ironrdp_core::ReadCursor::<'a>::read_u8 ](
    c: &mut ReadCursor<'a>,
) -> (r: u8)
    requires
        unread(*old(c)).len() >= 1,
    ensures
        r == unread(*old(c))[0],
        unread(*final(c)) == unread(*old(c)).skip(1),
;

/// `ReadCursor::read_u16` takes a little-endian number of two bytes. It panics where there are
/// fewer.
pub assume_specification<'a>[ ironrdp_core::ReadCursor::<'a>::read_u16 ](
    c: &mut ReadCursor<'a>,
) -> (r: u16)
    requires
        unread(*old(c)).len() >= 2,
    ensures
        r == bytes::le16(unread(*old(c)), 0),
        unread(*final(c)) == unread(*old(c)).skip(2),
;

/// `ReadCursor::read_u32` takes a little-endian number of four bytes. It panics where there are
/// fewer.
pub assume_specification<'a>[ ironrdp_core::ReadCursor::<'a>::read_u32 ](
    c: &mut ReadCursor<'a>,
) -> (r: u32)
    requires
        unread(*old(c)).len() >= 4,
    ensures
        r == bytes::le32(unread(*old(c)), 0),
        unread(*final(c)) == unread(*old(c)).skip(4),
;

/// `ReadCursor::read_slice` takes `n` bytes. It panics where there are fewer, and on a cursor that
/// was moved past its end it panics even for none.
pub assume_specification<'a>[ ironrdp_core::ReadCursor::<'a>::read_slice ](
    c: &mut ReadCursor<'a>,
    n: usize,
) -> (r: &'a [u8])
    requires
        0 < n <= unread(*old(c)).len(),
    ensures
        r@ == unread(*old(c)).take(n as int),
        unread(*final(c)) == unread(*old(c)).skip(n as int),
;

/// `read_padding` skips `n` bytes. It does not check that there are as many.
pub assume_specification[ ironrdp_core::read_padding ](src: &mut ReadCursor<'_>, n: usize)
    requires
        n <= unread(*old(src)).len(),
    ensures
        unread(*final(src)) == unread(*old(src)).skip(n as int),
;

/// `WriteCursor::remaining` gives the bytes from the position on.
pub assume_specification<'a, 'b>[ ironrdp_core::WriteCursor::<'a>::remaining ](
    c: &'b WriteCursor<'a>,
) -> (r: &'b [u8])
    ensures
        r@ == ahead(*c),
;

/// `WriteCursor::write_u8` puts a byte. It panics where there is no room.
pub assume_specification<'a>[ ironrdp_core::WriteCursor::<'a>::write_u8 ](
    c: &mut WriteCursor<'a>,
    value: u8,
)
    requires
        ahead(*old(c)).len() >= 1,
    ensures
        written(*final(c)) == written(*old(c)).push(value),
        ahead(*final(c)) == ahead(*old(c)).skip(1),
;

/// `WriteCursor::write_u16` puts a number as two bytes, little-endian. It panics where there is no
/// room.
pub assume_specification<'a>[ ironrdp_core::WriteCursor::<'a>::write_u16 ](
    c: &mut WriteCursor<'a>,
    value: u16,
)
    requires
        ahead(*old(c)).len() >= 2,
    ensures
        written(*final(c)) == written(*old(c)) + bytes::le16_bytes(value),
        ahead(*final(c)) == ahead(*old(c)).skip(2),
;

/// `WriteCursor::write_u32` puts a number as four bytes, little-endian. It panics where there is
/// no room.
pub assume_specification<'a>[ ironrdp_core::WriteCursor::<'a>::write_u32 ](
    c: &mut WriteCursor<'a>,
    value: u32,
)
    requires
        ahead(*old(c)).len() >= 4,
    ensures
        written(*final(c)) == written(*old(c)) + bytes::le32_bytes(value),
        ahead(*final(c)) == ahead(*old(c)).skip(4),
;

/// `WriteCursor::write_slice` puts bytes. It panics where there is no room for them, and on a
/// cursor that was moved past its end it panics even for none.
pub assume_specification<'a>[ ironrdp_core::WriteCursor::<'a>::write_slice ](
    c: &mut WriteCursor<'a>,
    slice: &[u8],
)
    requires
        0 < slice@.len() <= ahead(*old(c)).len(),
    ensures
        written(*final(c)) == written(*old(c)) + slice@,
        ahead(*final(c)) == ahead(*old(c)).skip(slice@.len() as int),
;

/// `write_padding` puts `n` zero bytes. It panics where there is no room for them.
pub assume_specification[ ironrdp_core::write_padding ](dst: &mut WriteCursor<'_>, n: usize)
    requires
        n <= ahead(*old(dst)).len(),
    ensures
        written(*final(dst)) == written(*old(dst)) + zeros(n as int),
        ahead(*final(dst)) == ahead(*old(dst)).skip(n as int),
;

/// Puts bytes, which may be none.
pub fn put(dst: &mut WriteCursor<'_>, image: &[u8])
    requires
        image@.len() <= ahead(*old(dst)).len(),
    ensures
        written(*final(dst)) == written(*old(dst)) + image@,
        ahead(*final(dst)) == ahead(*old(dst)).skip(image@.len() as int),
{
    if image.len() > 0 {
        dst.write_slice(image);
    }
    assert(image@.len() == 0 ==> written(*dst) + image@ =~= written(*dst));
    assert(image@.len() == 0 ==> ahead(*dst).skip(0) =~= ahead(*dst));
}

/// Takes `n` bytes, which may be none.
pub fn take(src: &mut ReadCursor<'_>, n: usize) -> (r: Vec<u8>)
    requires
        n <= unread(*old(src)).len(),
    ensures
        r@ == unread(*old(src)).take(n as int),
        unread(*final(src)) == unread(*old(src)).skip(n as int),
{
    if n == 0 {
        let r: Vec<u8> = Vec::new();
        assert(r@ =~= unread(*src).take(0));
        assert(unread(*src).skip(0) =~= unread(*src));
        r
    } else {
        vstd::slice::slice_to_vec(src.read_slice(n))
    }
}

} // verus!
