//! Length-delimited frames, as a link to a remote subnet sends them: the
//! payload's length as a big-endian number of two or four bytes, then the
//! payload. A frame longer than the link's limit is refused on either side.

use vstd::prelude::*;

verus! {

/// The width of the length field of the handshake's frames.
pub const HANDSHAKE_LEN_FIELD: usize = 2;

/// The longest frame of the handshake.
pub const HANDSHAKE_MAX_FRAME_LEN: usize = 1024;

/// The width of the length field of the frames that carry messages.
pub const LINK_LEN_FIELD: usize = 4;

/// The longest frame that carries a message.
pub const LINK_MAX_FRAME_LEN: usize = 65536;

/// A frame longer than the limit.
#[derive(Debug, Clone, Copy, PartialEq, Eq, Structural)]
pub struct FrameTooLong;

/// The number that big-endian bytes stand for.
pub open spec fn be_value(b: Seq<u8>) -> nat
    decreases b.len(),
{
    if b.len() == 0 {
        0
    } else {
        be_value(b.drop_last()) * 256 + b.last() as nat
    }
}

/// The widths that a length field can have.
pub open spec fn valid_field(width: usize) -> bool {
    width == 2 || width == 4
}

/// The greatest length that a field of `width` bytes holds.
pub open spec fn field_capacity(width: usize) -> nat {
    if width == 2 {
        0xffff
    } else {
        0xffff_ffff
    }
}

/// The length field of a payload of `len` bytes: `width` bytes whose
/// big-endian value is `len`.
pub fn length_field(width: usize, len: usize) -> (r: Vec<u8>)
    requires
        valid_field(width),
        len <= field_capacity(width),
    ensures
        r.len() == width,
        be_value(r@) == len,
{
    if width == 2 {
        let n = len as u32;
        let hi = (n / 256) as u8;
        let lo = (n % 256) as u8;
        let r = vec![hi, lo];
        proof {
            reveal_with_fuel(be_value, 3);
            assert(r@.drop_last() =~= seq![hi]);
            assert(r@.drop_last().drop_last() =~= Seq::<u8>::empty());
        }
        r
    } else {
        let n = len as u32;
        let b0 = (n / 16777216) as u8;
        let b1 = ((n / 65536) % 256) as u8;
        let b2 = ((n / 256) % 256) as u8;
        let b3 = (n % 256) as u8;
        let r = vec![b0, b1, b2, b3];
        proof {
            reveal_with_fuel(be_value, 5);
            assert(r@.drop_last() =~= seq![b0, b1, b2]);
            assert(r@.drop_last().drop_last() =~= seq![b0, b1]);
            assert(r@.drop_last().drop_last().drop_last() =~= seq![b0]);
            assert(r@.drop_last().drop_last().drop_last().drop_last() =~= Seq::<u8>::empty());
            assert(((b0 as nat * 256 + b1) * 256 + b2) * 256 + b3 == n) by (nonlinear_arith)
                requires
                    b0 == n / 16777216,
                    b1 == (n / 65536) % 256,
                    b2 == (n / 256) % 256,
                    b3 == n % 256,
            {
            }
        }
        r
    }
}

/// Frames a payload where it is no longer than `max`: `width` bytes of its
/// length, big-endian, then the payload.
pub fn frame(width: usize, max: usize, payload: &Vec<u8>) -> (r: Result<Vec<u8>, FrameTooLong>)
    requires
        valid_field(width),
        max <= field_capacity(width),
    ensures
        r is Ok <==> payload.len() <= max,
        r matches Ok(f) ==> f.len() == width + payload.len() && be_value(f@.subrange(0, width as int)) == payload.len()
            && f@.subrange(width as int, f.len() as int) == payload@,
{
    if payload.len() > max {
        return Err(FrameTooLong);
    }
    let mut f = length_field(width, payload.len());
    let ghost prefix = f@;
    let mut i: usize = 0;
    while i < payload.len()
        invariant
            0 <= i <= payload.len(),
            prefix.len() == width,
            f@ == prefix + payload@.take(i as int),
        decreases payload.len() - i,
    {
        f.push(payload[i]);
        i = i + 1;
        assert(f@ =~= prefix + payload@.take(i as int));
    }
    assert(f@.subrange(0, width as int) =~= prefix);
    assert(f@.subrange(width as int, f.len() as int) =~= payload@);
    Ok(f)
}

/// The length of the payload that a length field announces, where it is no
/// longer than `max`.
pub fn payload_len(max: usize, field: &Vec<u8>) -> (r: Result<usize, FrameTooLong>)
    requires
        valid_field(field.len()),
    ensures
        r is Ok <==> be_value(field@) <= max,
        r matches Ok(n) ==> n == be_value(field@),
{
    let mut v: u64 = 0;
    let mut i: usize = 0;
    while i < field.len()
        invariant
            0 <= i <= field.len() <= 4,
            v == be_value(field@.take(i as int)),
            v < pow256(i as nat),
        decreases field.len() - i,
    {
        proof {
            assert(field@.take(i + 1).drop_last() =~= field@.take(i as int));
            assert(field@.take(i + 1).last() == field@[i as int]);
            assert(v * 256 + field@[i as int] < pow256(i as nat) * 256) by (nonlinear_arith)
                requires
                    v < pow256(i as nat),
                    field@[i as int] < 256,
            {
            }
            assert(pow256(i as nat) * 256 <= 0x1_0000_0000) by {
                reveal_with_fuel(pow256, 5);
            }
        }
        v = v * 256 + field[i] as u64;
        i = i + 1;
    }
    assert(field@.take(field.len() as int) =~= field@);
    if v > max as u64 {
        Err(FrameTooLong)
    } else {
        Ok(v as usize)
    }
}

/// 256 to the power `n`.
pub open spec fn pow256(n: nat) -> nat
    decreases n,
{
    if n == 0 {
        1
    } else {
        256 * pow256((n - 1) as nat)
    }
}

/// A frame reads back: its length field announces the payload's length, which
/// is within the limit it was framed with.
pub proof fn law_frame_reads_back(width: usize, max: usize, payload: Seq<u8>, f: Seq<u8>)
    requires
        valid_field(width),
        max <= field_capacity(width),
        payload.len() <= max,
        f.len() == width + payload.len(),
        be_value(f.subrange(0, width as int)) == payload.len(),
        f.subrange(width as int, f.len() as int) == payload,
    ensures
        be_value(f.subrange(0, width as int)) <= max,
        f.subrange(width as int, width + be_value(f.subrange(0, width as int))) == payload,
{
}

} // verus!
