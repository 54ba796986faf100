//! Unsigned LEB128 integers of 32 bits.

use vstd::prelude::*;
use crate::wasm::error::Error;
use crate::wasm::reader::ByteReader;

verus! {

/// The unsigned LEB128 integer whose group number `k` stands at `at`: the
/// value of the groups from that one on, little end first, and how many bytes
/// they take. Seven bits to a byte, the eighth set on all bytes but the last;
/// a 32-bit integer has at most five groups, the fifth of four bits.
pub open spec fn spec_varint_groups(bytes: Seq<u8>, at: int, k: nat) -> Result<(nat, nat), Error>
    decreases 5 - k,
{
    if !(0 <= at < bytes.len()) {
        Err(Error::UnexpectedEof)
    } else if k >= 4 && bytes[at] >= 128 {
        Err(Error::IntegerTooLong)
    } else if k >= 4 && bytes[at] >= 16 {
        Err(Error::IntegerTooLarge)
    } else if bytes[at] < 128 {
        Ok((bytes[at] as nat, 1))
    } else {
        match spec_varint_groups(bytes, at + 1, k + 1) {
            Ok((high, n)) => Ok(((bytes[at] - 128 + 128 * high) as nat, n + 1)),
            Err(e) => Err(e),
        }
    }
}

/// The 32-bit integer encoded at `at`, with the number of bytes of its
/// encoding.
pub open spec fn spec_decode_u32(bytes: Seq<u8>, at: int) -> Result<(u32, u8), Error> {
    match spec_varint_groups(bytes, at, 0) {
        Ok((value, n)) => Ok((value as u32, n as u8)),
        Err(e) => Err(e),
    }
}

/// What group `k` and its successors can amount to: `bound` is two to the
/// number of bits that are left for them.
pub open spec fn groups_bound(k: nat) -> nat {
    if k == 0 {
        0x1_0000_0000
    } else if k == 1 {
        0x200_0000
    } else if k == 2 {
        0x4_0000
    } else if k == 3 {
        0x800
    } else {
        0x10
    }
}

/// A decoded integer fits its bits, and its encoding its bytes.
pub proof fn lemma_varint_groups_bounds(bytes: Seq<u8>, at: int, k: nat)
    requires
        k <= 4,
        spec_varint_groups(bytes, at, k) is Ok,
    ensures
        spec_varint_groups(bytes, at, k)->Ok_0.0 < groups_bound(k),
        1 <= spec_varint_groups(bytes, at, k)->Ok_0.1 <= 5 - k,
        at + spec_varint_groups(bytes, at, k)->Ok_0.1 <= bytes.len(),
        0 <= at,
    decreases 5 - k,
{
    if bytes[at] >= 128 {
        lemma_varint_groups_bounds(bytes, at + 1, k + 1);
    }
}

/// A successful decoding says what it is: the value is below two to the
/// thirty-second, and between one and five bytes were read, all inside the
/// input.
pub proof fn lemma_decode_u32_bounds(bytes: Seq<u8>, at: int)
    requires
        spec_decode_u32(bytes, at) is Ok,
    ensures
        spec_decode_u32(bytes, at)->Ok_0.0 == spec_varint_groups(bytes, at, 0)->Ok_0.0,
        spec_decode_u32(bytes, at)->Ok_0.1 == spec_varint_groups(bytes, at, 0)->Ok_0.1,
        1 <= spec_decode_u32(bytes, at)->Ok_0.1 <= 5,
        0 <= at,
        at + spec_decode_u32(bytes, at)->Ok_0.1 <= bytes.len(),
{
    lemma_varint_groups_bounds(bytes, at, 0);
}

/// The groups from `k` on, weighed by `scale` and added to what the groups
/// before them gave.
pub open spec fn spec_varint_resume(
    acc: nat,
    scale: nat,
    k: nat,
    rest: Result<(nat, nat), Error>,
) -> Result<(nat, nat), Error> {
    match rest {
        Ok((high, n)) => Ok((acc + scale * high, k + n)),
        Err(e) => Err(e),
    }
}

/// To take one group into the sum is to go on with the next group at 128
/// times the weight.
proof fn lemma_varint_step(bytes: Seq<u8>, at: int, k: nat, acc: nat, scale: nat)
    requires
        0 <= at < bytes.len(),
        k < 4,
        bytes[at] >= 128,
    ensures
        spec_varint_resume(acc, scale, k, spec_varint_groups(bytes, at, k)) == spec_varint_resume(
            (acc + scale * (bytes[at] - 128)) as nat,
            scale * 128,
            k + 1,
            spec_varint_groups(bytes, at + 1, k + 1),
        ),
{
    match spec_varint_groups(bytes, at + 1, k + 1) {
        Ok((high, n)) => {
            let low = (bytes[at] - 128) as int;
            assert(acc + scale * (low + 128 * high) == acc + scale * low + (scale * 128) * high)
                by (nonlinear_arith);
            assert(scale * low >= 0) by (nonlinear_arith)
                requires
                    scale >= 0,
                    low >= 0,
            ;
        },
        Err(e) => {},
    }
}

/// Decodes the unsigned LEB128 integer that starts at `at`: its value and the
/// number of bytes it takes.
pub fn decode_u32_at(bytes: &[u8], at: usize) -> (r: Result<(u32, u8), Error>)
    ensures
        r == spec_decode_u32(bytes@, at as int),
{
    let mut value: u32 = 0;
    let mut scale: u32 = 1;
    let mut k: u8 = 0;
    let mut pos: usize = at;
    loop
        invariant
            k <= 4,
            pos == at + k,
            scale * groups_bound(k as nat) == 0x1_0000_0000,
            value < scale,
            spec_varint_groups(bytes@, at as int, 0) == spec_varint_resume(
                value as nat,
                scale as nat,
                k as nat,
                spec_varint_groups(bytes@, pos as int, k as nat),
            ),
        decreases 5 - k,
    {
        if pos >= bytes.len() {
            return Err(Error::UnexpectedEof);
        }
        let byte = bytes[pos];
        if k == 4 && byte >= 128 {
            return Err(Error::IntegerTooLong);
        }
        if k == 4 && byte >= 16 {
            return Err(Error::IntegerTooLarge);
        }
        if byte < 128 {
            proof {
                lemma_varint_groups_bounds(bytes@, pos as int, k as nat);
                assert(value + scale * byte < 0x1_0000_0000) by (nonlinear_arith)
                    requires
                        value < scale,
                        byte < groups_bound(k as nat),
                        scale * groups_bound(k as nat) == 0x1_0000_0000,
                ;
            }
            return Ok((value + scale * (byte as u32), k + 1));
        }
        proof {
            lemma_varint_step(bytes@, pos as int, k as nat, value as nat, scale as nat);
            assert(value + scale * (byte - 128) < scale * 128) by (nonlinear_arith)
                requires
                    value < scale,
                    128 <= byte < 256,
            ;
        }
        value = value + scale * ((byte - 128) as u32);
        scale = scale * 128;
        k = k + 1;
        pos = pos + 1;
    }
}

/// Reads an unsigned LEB128 integer and steps over it. Where the bytes are no
/// such integer, the reader stays where it was.
pub fn decode_u32(reader: &mut ByteReader) -> (r: Result<(u32, u8), Error>)
    ensures
        r == spec_decode_u32(old(reader).bytes@, old(reader).position as int),
        final(reader).bytes == old(reader).bytes,
        final(reader).position == match r {
            Ok((_, n)) => old(reader).position + n,
            Err(_) => old(reader).position as int,
        },
{
    let r = decode_u32_at(reader.bytes, reader.position);
    if let Ok((_, n)) = r {
        proof {
            lemma_decode_u32_bounds(reader.bytes@, reader.position as int);
        }
        assert(reader.position + n <= reader.bytes.len());
        reader.position = reader.position + n as usize;
    }
    r
}

} // verus!
