//! Canonical byte codec primitives.
//!
//! Every multi-byte value is little-endian; variable-length fields carry a
//! 64-bit length prefix; optional fields carry a one-byte tag (0 absent,
//! 1 present). Each decoder has an exact specification, and each encoding
//! has a lemma that decoding recovers the value wherever it stands in a
//! larger buffer.

use vstd::prelude::*;

use crate::hash::Hash32;

verus! {

/// Encoding of a 64-bit integer: eight bytes, little-endian.
pub open spec fn enc_u64(x: u64) -> Seq<u8> {
    vstd::bytes::spec_u64_to_le_bytes(x)
}

/// Encoding of a length-prefixed byte string.
pub open spec fn enc_bytes(b: Seq<u8>) -> Seq<u8>
    recommends
        b.len() <= u64::MAX,
{
    enc_u64(b.len() as u64) + b
}

/// Encoding of an optional 64-bit integer.
pub open spec fn enc_opt_u64(o: Option<u64>) -> Seq<u8> {
    match o {
        None => seq![0u8],
        Some(x) => seq![1u8] + enc_u64(x),
    }
}

/// Encoding of an optional length-prefixed byte string.
pub open spec fn enc_opt_bytes(o: Option<Seq<u8>>) -> Seq<u8> {
    match o {
        None => seq![0u8],
        Some(b) => seq![1u8] + enc_bytes(b),
    }
}

/// Encoding of a 32-bit integer: four bytes, little-endian.
pub open spec fn enc_u32(x: u32) -> Seq<u8> {
    vstd::bytes::spec_u32_to_le_bytes(x)
}

/// Decode one byte.
pub open spec fn dec_u8(data: Seq<u8>, pos: int) -> Option<(u8, int)> {
    if 0 <= pos && pos + 1 <= data.len() {
        Some((data[pos], pos + 1))
    } else {
        None
    }
}

/// Decode a 64-bit little-endian integer.
pub open spec fn dec_u64(data: Seq<u8>, pos: int) -> Option<(u64, int)> {
    if 0 <= pos && pos + 8 <= data.len() {
        Some((vstd::bytes::spec_u64_from_le_bytes(data.subrange(pos, pos + 8)), pos + 8))
    } else {
        None
    }
}

/// Decode a 32-bit little-endian integer.
pub open spec fn dec_u32(data: Seq<u8>, pos: int) -> Option<(u32, int)> {
    if 0 <= pos && pos + 4 <= data.len() {
        Some((vstd::bytes::spec_u32_from_le_bytes(data.subrange(pos, pos + 4)), pos + 4))
    } else {
        None
    }
}

/// Decode a length-prefixed byte string.
pub open spec fn dec_bytes(data: Seq<u8>, pos: int) -> Option<(Seq<u8>, int)> {
    match dec_u64(data, pos) {
        None => None,
        Some((n, p)) => if n <= data.len() - p {
            Some((data.subrange(p, p + n), p + n))
        } else {
            None
        },
    }
}

/// Decode 32 raw bytes.
pub open spec fn dec_h32(data: Seq<u8>, pos: int) -> Option<(Seq<u8>, int)> {
    if 0 <= pos && pos + 32 <= data.len() {
        Some((data.subrange(pos, pos + 32), pos + 32))
    } else {
        None
    }
}

/// Decode an optional 64-bit integer.
pub open spec fn dec_opt_u64(data: Seq<u8>, pos: int) -> Option<(Option<u64>, int)> {
    match dec_u8(data, pos) {
        None => None,
        Some((tag, p)) => if tag == 0 {
            Some((None, p))
        } else if tag == 1 {
            match dec_u64(data, p) {
                None => None,
                Some((x, p2)) => Some((Some(x), p2)),
            }
        } else {
            None
        },
    }
}

/// Decode an optional length-prefixed byte string.
pub open spec fn dec_opt_bytes(data: Seq<u8>, pos: int) -> Option<(Option<Seq<u8>>, int)> {
    match dec_u8(data, pos) {
        None => None,
        Some((tag, p)) => if tag == 0 {
            Some((None, p))
        } else if tag == 1 {
            match dec_bytes(data, p) {
                None => None,
                Some((b, p2)) => Some((Some(b), p2)),
            }
        } else {
            None
        },
    }
}

/// Append one byte.
pub fn write_u8(out: &mut Vec<u8>, x: u8)
    ensures
        final(out)@ == old(out)@ + seq![x],
{
    out.push(x);
    proof {
        assert(out@ =~= old(out)@ + seq![x]);
    }
}

/// Append a 64-bit integer, little-endian.
pub fn write_u64(out: &mut Vec<u8>, x: u64)
    ensures
        final(out)@ == old(out)@ + enc_u64(x),
{
    let b = vstd::bytes::u64_to_le_bytes(x);
    out.extend_from_slice(b.as_slice());
}

/// Append a 32-bit integer, little-endian.
pub fn write_u32(out: &mut Vec<u8>, x: u32)
    ensures
        final(out)@ == old(out)@ + enc_u32(x),
{
    let b = vstd::bytes::u32_to_le_bytes(x);
    out.extend_from_slice(b.as_slice());
}

/// Append a length-prefixed byte string.
pub fn write_bytes(out: &mut Vec<u8>, b: &[u8])
    ensures
        final(out)@ == old(out)@ + enc_bytes(b@),
{
    write_u64(out, b.len() as u64);
    out.extend_from_slice(b);
    proof {
        assert(out@ =~= old(out)@ + enc_bytes(b@));
    }
}

/// Append 32 raw bytes.
pub fn write_h32(out: &mut Vec<u8>, h: &Hash32)
    ensures
        final(out)@ == old(out)@ + h@,
{
    out.extend_from_slice(h.as_slice());
}

/// Append an optional 64-bit integer.
pub fn write_opt_u64(out: &mut Vec<u8>, o: &Option<u64>)
    ensures
        final(out)@ == old(out)@ + enc_opt_u64(*o),
{
    match o {
        None => {
            write_u8(out, 0);
        },
        Some(x) => {
            write_u8(out, 1);
            write_u64(out, *x);
            proof {
                assert(out@ =~= old(out)@ + enc_opt_u64(*o));
            }
        },
    }
}

/// Append an optional length-prefixed byte string.
pub fn write_opt_bytes(out: &mut Vec<u8>, o: &Option<Vec<u8>>)
    ensures
        final(out)@ == old(out)@ + enc_opt_bytes(crate::merkle::opt_bytes(*o)),
{
    match o {
        None => {
            write_u8(out, 0);
        },
        Some(b) => {
            write_u8(out, 1);
            write_bytes(out, b.as_slice());
            proof {
                assert(out@ =~= old(out)@ + enc_opt_bytes(crate::merkle::opt_bytes(*o)));
            }
        },
    }
}

/// Read one byte.
pub fn read_u8(data: &[u8], pos: usize) -> (r: Option<(u8, usize)>)
    ensures
        match r {
            Some((x, p)) => dec_u8(data@, pos as int) == Some((x, p as int)),
            None => dec_u8(data@, pos as int) is None,
        },
{
    if pos < data.len() {
        Some((data[pos], pos + 1))
    } else {
        None
    }
}

/// Read a 64-bit little-endian integer.
pub fn read_u64(data: &[u8], pos: usize) -> (r: Option<(u64, usize)>)
    ensures
        match r {
            Some((x, p)) => dec_u64(data@, pos as int) == Some((x, p as int)),
            None => dec_u64(data@, pos as int) is None,
        },
{
    if pos < data.len() && data.len() - pos >= 8 {
        let mut buf: Vec<u8> = Vec::new();
        let mut i: usize = 0;
        while i < 8
            invariant
                i <= 8,
                pos + 8 <= data@.len() <= usize::MAX,
                buf@.len() == i,
                forall|j: int| 0 <= j < i ==> buf@[j] == data@[pos + j],
            decreases 8 - i,
        {
            buf.push(data[pos + i]);
            i += 1;
        }
        proof {
            assert(buf@ =~= data@.subrange(pos as int, pos as int + 8));
        }
        let x = vstd::bytes::u64_from_le_bytes(buf.as_slice());
        Some((x, pos + 8))
    } else {
        None
    }
}

/// Read a 32-bit little-endian integer.
pub fn read_u32(data: &[u8], pos: usize) -> (r: Option<(u32, usize)>)
    ensures
        match r {
            Some((x, p)) => dec_u32(data@, pos as int) == Some((x, p as int)),
            None => dec_u32(data@, pos as int) is None,
        },
{
    if pos < data.len() && data.len() - pos >= 4 {
        let mut buf: Vec<u8> = Vec::new();
        let mut i: usize = 0;
        while i < 4
            invariant
                i <= 4,
                pos + 4 <= data@.len() <= usize::MAX,
                buf@.len() == i,
                forall|j: int| 0 <= j < i ==> buf@[j] == data@[pos + j],
            decreases 4 - i,
        {
            buf.push(data[pos + i]);
            i += 1;
        }
        proof {
            assert(buf@ =~= data@.subrange(pos as int, pos as int + 4));
        }
        let x = vstd::bytes::u32_from_le_bytes(buf.as_slice());
        Some((x, pos + 4))
    } else {
        None
    }
}

/// Read a length-prefixed byte string.
pub fn read_bytes(data: &[u8], pos: usize) -> (r: Option<(Vec<u8>, usize)>)
    ensures
        match r {
            Some((b, p)) => dec_bytes(data@, pos as int) == Some((b@, p as int)),
            None => dec_bytes(data@, pos as int) is None,
        },
{
    match read_u64(data, pos) {
        None => None,
        Some((n, p)) => {
            if n <= (data.len() - p) as u64 {
                let len = n as usize;
                let mut buf: Vec<u8> = Vec::new();
                let mut i: usize = 0;
                while i < len
                    invariant
                        i <= len,
                        p + len <= data@.len() <= usize::MAX,
                        buf@.len() == i,
                        forall|j: int| 0 <= j < i ==> buf@[j] == data@[p + j],
                    decreases len - i,
                {
                    buf.push(data[p + i]);
                    i += 1;
                }
                proof {
                    assert(buf@ =~= data@.subrange(p as int, p as int + n as int));
                }
                Some((buf, p + len))
            } else {
                None
            }
        },
    }
}

/// Read 32 raw bytes.
pub fn read_h32(data: &[u8], pos: usize) -> (r: Option<(Hash32, usize)>)
    ensures
        match r {
            Some((h, p)) => dec_h32(data@, pos as int) == Some((h@, p as int)),
            None => dec_h32(data@, pos as int) is None,
        },
{
    if pos < data.len() && data.len() - pos >= 32 {
        let mut h: Hash32 = [0u8; 32];
        let mut i: usize = 0;
        while i < 32
            invariant
                i <= 32,
                pos + 32 <= data@.len() <= usize::MAX,
                h@.len() == 32,
                forall|j: int| 0 <= j < i ==> h@[j] == data@[pos + j],
        decreases 32 - i,
        {
            h[i] = data[pos + i];
            i += 1;
        }
        proof {
            assert(h@ =~= data@.subrange(pos as int, pos as int + 32));
        }
        Some((h, pos + 32))
    } else {
        None
    }
}

/// Read an optional 64-bit integer.
pub fn read_opt_u64(data: &[u8], pos: usize) -> (r: Option<(Option<u64>, usize)>)
    ensures
        match r {
            Some((o, p)) => dec_opt_u64(data@, pos as int) == Some((o, p as int)),
            None => dec_opt_u64(data@, pos as int) is None,
        },
{
    match read_u8(data, pos) {
        None => None,
        Some((tag, p)) => {
            if tag == 0 {
                Some((None, p))
            } else if tag == 1 {
                match read_u64(data, p) {
                    None => None,
                    Some((x, p2)) => Some((Some(x), p2)),
                }
            } else {
                None
            }
        },
    }
}

/// Read an optional length-prefixed byte string.
pub fn read_opt_bytes(data: &[u8], pos: usize) -> (r: Option<(Option<Vec<u8>>, usize)>)
    ensures
        match r {
            Some((o, p)) => dec_opt_bytes(data@, pos as int) == Some(
                (crate::merkle::opt_bytes(o), p as int),
            ),
            None => dec_opt_bytes(data@, pos as int) is None,
        },
{
    match read_u8(data, pos) {
        None => None,
        Some((tag, p)) => {
            if tag == 0 {
                Some((None, p))
            } else if tag == 1 {
                match read_bytes(data, p) {
                    None => None,
                    Some((b, p2)) => Some((Some(b), p2)),
                }
            } else {
                None
            }
        },
    }
}

/// Decoding recovers a byte wherever its encoding stands.
pub proof fn lemma_dec_u8_concat(pre: Seq<u8>, x: u8, post: Seq<u8>)
    ensures
        dec_u8(pre + seq![x] + post, pre.len() as int) == Some((x, pre.len() as int + 1)),
{
    let data = pre + seq![x] + post;
    assert(data[pre.len() as int] == x);
}

/// Decoding recovers a 64-bit integer wherever its encoding stands.
pub proof fn lemma_dec_u64_concat(pre: Seq<u8>, x: u64, post: Seq<u8>)
    ensures
        dec_u64(pre + enc_u64(x) + post, pre.len() as int) == Some((x, pre.len() as int + 8)),
{
    let data = pre + enc_u64(x) + post;
    vstd::bytes::lemma_auto_spec_u64_to_from_le_bytes();
    assert(enc_u64(x).len() == 8);
    assert(data.subrange(pre.len() as int, pre.len() as int + 8) =~= enc_u64(x));
}

/// Decoding recovers a 32-bit integer wherever its encoding stands.
pub proof fn lemma_dec_u32_concat(pre: Seq<u8>, x: u32, post: Seq<u8>)
    ensures
        dec_u32(pre + enc_u32(x) + post, pre.len() as int) == Some((x, pre.len() as int + 4)),
{
    let data = pre + enc_u32(x) + post;
    vstd::bytes::lemma_auto_spec_u32_to_from_le_bytes();
    assert(enc_u32(x).len() == 4);
    assert(data.subrange(pre.len() as int, pre.len() as int + 4) =~= enc_u32(x));
}

/// Decoding recovers a byte string wherever its encoding stands.
pub proof fn lemma_dec_bytes_concat(pre: Seq<u8>, b: Seq<u8>, post: Seq<u8>)
    requires
        b.len() <= u64::MAX,
    ensures
        dec_bytes(pre + enc_bytes(b) + post, pre.len() as int) == Some(
            (b, pre.len() as int + 8 + b.len() as int),
        ),
{
    vstd::bytes::lemma_auto_spec_u64_to_from_le_bytes();
    let data = pre + enc_bytes(b) + post;
    assert(pre + enc_bytes(b) + post =~= pre + enc_u64(b.len() as u64) + (b + post));
    lemma_dec_u64_concat(pre, b.len() as u64, b + post);
    assert(data.subrange(pre.len() as int + 8, pre.len() as int + 8 + b.len() as int) =~= b);
}

/// Decoding recovers 32 raw bytes wherever they stand.
pub proof fn lemma_dec_h32_concat(pre: Seq<u8>, h: Seq<u8>, post: Seq<u8>)
    requires
        h.len() == 32,
    ensures
        dec_h32(pre + h + post, pre.len() as int) == Some((h, pre.len() as int + 32)),
{
    let data = pre + h + post;
    assert(data.subrange(pre.len() as int, pre.len() as int + 32) =~= h);
}

/// Decoding recovers an optional integer wherever its encoding stands.
pub proof fn lemma_dec_opt_u64_concat(pre: Seq<u8>, o: Option<u64>, post: Seq<u8>)
    ensures
        dec_opt_u64(pre + enc_opt_u64(o) + post, pre.len() as int) == Some(
            (o, pre.len() as int + enc_opt_u64(o).len() as int),
        ),
{
    vstd::bytes::lemma_auto_spec_u64_to_from_le_bytes();
    match o {
        None => {
            assert(pre + enc_opt_u64(o) + post =~= pre + seq![0u8] + post);
            lemma_dec_u8_concat(pre, 0u8, post);
        },
        Some(x) => {
            assert(pre + enc_opt_u64(o) + post =~= pre + seq![1u8] + (enc_u64(x) + post));
            lemma_dec_u8_concat(pre, 1u8, enc_u64(x) + post);
            assert(pre + seq![1u8] + (enc_u64(x) + post) =~= (pre + seq![1u8]) + enc_u64(x)
                + post);
            lemma_dec_u64_concat(pre + seq![1u8], x, post);
        },
    }
}

/// Decoding recovers an optional byte string wherever its encoding stands.
pub proof fn lemma_dec_opt_bytes_concat(pre: Seq<u8>, o: Option<Seq<u8>>, post: Seq<u8>)
    requires
        o is Some ==> o->0.len() <= u64::MAX,
    ensures
        dec_opt_bytes(pre + enc_opt_bytes(o) + post, pre.len() as int) == Some(
            (o, pre.len() as int + enc_opt_bytes(o).len() as int),
        ),
{
    vstd::bytes::lemma_auto_spec_u64_to_from_le_bytes();
    match o {
        None => {
            assert(pre + enc_opt_bytes(o) + post =~= pre + seq![0u8] + post);
            lemma_dec_u8_concat(pre, 0u8, post);
        },
        Some(b) => {
            assert(pre + enc_opt_bytes(o) + post =~= pre + seq![1u8] + (enc_bytes(b) + post));
            lemma_dec_u8_concat(pre, 1u8, enc_bytes(b) + post);
            assert(pre + seq![1u8] + (enc_bytes(b) + post) =~= (pre + seq![1u8]) + enc_bytes(b)
                + post);
            lemma_dec_bytes_concat(pre + seq![1u8], b, post);
        },
    }
}

} // verus!
