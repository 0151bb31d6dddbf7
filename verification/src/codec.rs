//! The on-disk byte formats: slots as fixed-width big-endian keys (so the
//! store's lexicographic order is numeric order), and values framed as a
//! two-element array of an unsigned number and a byte string -- the shape
//! both the index values (era and output bytes) and the persisted cursor
//! (slot and block hash) are stored in.

use vstd::prelude::*;

verus! {

/// The eight big-endian bytes of a slot key.
pub open spec fn slot_key_of(n: u64) -> Seq<u8> {
    seq![
        (n >> 56) as u8,
        (n >> 48) as u8,
        (n >> 40) as u8,
        (n >> 32) as u8,
        (n >> 24) as u8,
        (n >> 16) as u8,
        (n >> 8) as u8,
        n as u8,
    ]
}

/// The slot a key encodes.
pub open spec fn slot_of_key(b: Seq<u8>) -> u64
    recommends
        b.len() == 8,
{
    (((b[0] as u64) << 56) | ((b[1] as u64) << 48) | ((b[2] as u64) << 40) | ((b[3] as u64)
        << 32) | ((b[4] as u64) << 24) | ((b[5] as u64) << 16) | ((b[6] as u64) << 8) | (
    b[7] as u64)) as u64
}

/// Encoding a slot and reading the key back is the identity.
pub proof fn lemma_slot_key_round_trip(n: u64)
    ensures
        slot_of_key(slot_key_of(n)) == n,
{
    assert((((((n >> 56) as u8) as u64) << 56) | ((((n >> 48) as u8) as u64) << 48) | ((((n
        >> 40) as u8) as u64) << 40) | ((((n >> 32) as u8) as u64) << 32) | ((((n >> 24) as u8)
        as u64) << 24) | ((((n >> 16) as u8) as u64) << 16) | ((((n >> 8) as u8) as u64) << 8)
        | ((n as u8) as u64)) == n) by (bit_vector);
}

/// Two distinct slots never share a key.
pub proof fn lemma_slot_key_injective(a: u64, b: u64)
    requires
        slot_key_of(a) == slot_key_of(b),
    ensures
        a == b,
{
    lemma_slot_key_round_trip(a);
    lemma_slot_key_round_trip(b);
}

/// Render a slot as its store key.
pub fn slot_key(n: u64) -> (r: Vec<u8>)
    ensures
        r@ == slot_key_of(n),
{
    let mut out: Vec<u8> = Vec::new();
    out.push((n >> 56) as u8);
    out.push((n >> 48) as u8);
    out.push((n >> 40) as u8);
    out.push((n >> 32) as u8);
    out.push((n >> 24) as u8);
    out.push((n >> 16) as u8);
    out.push((n >> 8) as u8);
    out.push(n as u8);
    proof {
        assert(out@ =~= slot_key_of(n));
    }
    out
}

/// Read a slot back from its store key.
pub fn slot_from_key(b: &Vec<u8>) -> (r: Option<u64>)
    ensures
        b@.len() == 8 ==> r == Some(slot_of_key(b@)),
        b@.len() != 8 ==> r is None,
{
    if b.len() != 8 {
        return None;
    }
    Some(
        ((b[0] as u64) << 56) | ((b[1] as u64) << 48) | ((b[2] as u64) << 40) | ((b[3] as u64)
            << 32) | ((b[4] as u64) << 24) | ((b[5] as u64) << 16) | ((b[6] as u64) << 8) | (
        b[7] as u64),
    )
}

/// The header of one unsigned argument under a major type (`0x00` for a
/// number, `0x40` for a byte string): the argument itself below 24, and a
/// marker plus its big-endian bytes above.
pub open spec fn cbor_hdr(major: u8, n: u64) -> Seq<u8>
    recommends
        major == 0x00 || major == 0x40,
{
    if n < 24 {
        seq![(major + n as u8) as u8]
    } else if n < 256 {
        seq![(major + 0x18) as u8, n as u8]
    } else if n < 65536 {
        seq![(major + 0x19) as u8, (n >> 8) as u8, n as u8]
    } else if n < 4294967296 {
        seq![(major + 0x1a) as u8, (n >> 24) as u8, (n >> 16) as u8, (n >> 8) as u8, n as u8]
    } else {
        seq![
            (major + 0x1b) as u8,
            (n >> 56) as u8,
            (n >> 48) as u8,
            (n >> 40) as u8,
            (n >> 32) as u8,
            (n >> 24) as u8,
            (n >> 16) as u8,
            (n >> 8) as u8,
            n as u8,
        ]
    }
}

/// A number and a byte string, framed as a two-element array.
pub open spec fn cbor_pair_of(n: u64, body: Seq<u8>) -> Seq<u8> {
    seq![0x82u8] + cbor_hdr(0x00, n) + cbor_hdr(0x40, body.len() as u64) + body
}

/// Parse one unsigned argument under a major type, returning the value and
/// the position after it.
pub open spec fn parse_hdr(b: Seq<u8>, at: int, major: u8) -> Option<(u64, int)> {
    if at < 0 || at >= b.len() {
        None
    } else {
        let h = b[at];
        if major <= h && h < major + 24 {
            Some(((h - major) as u64, at + 1))
        } else if h == major + 0x18 && at + 2 <= b.len() {
            Some((b[at + 1] as u64, at + 2))
        } else if h == major + 0x19 && at + 3 <= b.len() {
            Some((((b[at + 1] as u64) << 8 | (b[at + 2] as u64)) as u64, at + 3))
        } else if h == major + 0x1a && at + 5 <= b.len() {
            Some(
                (
                    ((b[at + 1] as u64) << 24 | (b[at + 2] as u64) << 16 | (b[at + 3] as u64)
                        << 8 | (b[at + 4] as u64)) as u64,
                    at + 5,
                ),
            )
        } else if h == major + 0x1b && at + 9 <= b.len() {
            Some(
                (
                    ((b[at + 1] as u64) << 56 | (b[at + 2] as u64) << 48 | (b[at + 3] as u64)
                        << 40 | (b[at + 4] as u64) << 32 | (b[at + 5] as u64) << 24 | (b[at
                        + 6] as u64) << 16 | (b[at + 7] as u64) << 8 | (b[at + 8] as u64)) as u64,
                    at + 9,
                ),
            )
        } else {
            None
        }
    }
}

/// What a framed pair decodes to, when the bytes hold one.
pub open spec fn cbor_pair_decode(b: Seq<u8>) -> Option<(u64, Seq<u8>)> {
    if b.len() < 1 || b[0] != 0x82 {
        None
    } else {
        match parse_hdr(b, 1, 0x00) {
            None => None,
            Some((n, at)) => match parse_hdr(b, at, 0x40) {
                None => None,
                Some((len, ds)) => if ds + len == b.len() {
                    Some((n, b.subrange(ds, b.len() as int)))
                } else {
                    None
                },
            },
        }
    }
}

/// A header parses back to the number it encodes, at the position after
/// it, wherever it stands in a larger frame.
pub proof fn lemma_parse_hdr_round(pre: Seq<u8>, major: u8, n: u64, post: Seq<u8>)
    requires
        major == 0x00 || major == 0x40,
    ensures
        parse_hdr(pre + cbor_hdr(major, n) + post, pre.len() as int, major) == Some(
            (n, pre.len() as int + cbor_hdr(major, n).len() as int),
        ),
{
    let h = cbor_hdr(major, n);
    let b = pre + h + post;
    let at = pre.len() as int;
    assert(forall|i: int| 0 <= i < h.len() ==> b[at + i] == h[i]);
    if n < 24 {
        assert(b[at] == (major + n as u8) as u8);
        assert((((major + n as u8) as u8) - major) as u64 == n) by (bit_vector)
            requires
                n < 24 && (major == 0x00 || major == 0x40),
        ;
    } else if n < 256 {
        assert(b[at] == (major + 0x18) as u8 && b[at + 1] == n as u8);
        assert(!(major <= (major + 0x18) as u8 && ((major + 0x18) as u8) < major + 24))
            by (bit_vector)
            requires
                major == 0x00 || major == 0x40,
        ;
        assert((n as u8) as u64 == n) by (bit_vector)
            requires
                n < 256,
        ;
    } else if n < 65536 {
        assert(b[at] == (major + 0x19) as u8);
        assert(!(major <= (major + 0x19) as u8 && ((major + 0x19) as u8) < major + 24)
            && (major + 0x19) as u8 != (major + 0x18) as u8) by (bit_vector)
            requires
                major == 0x00 || major == 0x40,
        ;
        assert(((((n >> 8) as u8) as u64) << 8 | ((n as u8) as u64)) == n) by (bit_vector)
            requires
                n < 65536,
        ;
    } else if n < 4294967296 {
        assert(b[at] == (major + 0x1a) as u8);
        assert(!(major <= (major + 0x1a) as u8 && ((major + 0x1a) as u8) < major + 24)
            && (major + 0x1a) as u8 != (major + 0x18) as u8 && (major + 0x1a) as u8 != (major
            + 0x19) as u8) by (bit_vector)
            requires
                major == 0x00 || major == 0x40,
        ;
        assert(((((n >> 24) as u8) as u64) << 24 | (((n >> 16) as u8) as u64) << 16 | (((n
            >> 8) as u8) as u64) << 8 | ((n as u8) as u64)) == n) by (bit_vector)
            requires
                n < 4294967296,
        ;
    } else {
        assert(b[at] == (major + 0x1b) as u8);
        assert(!(major <= (major + 0x1b) as u8 && ((major + 0x1b) as u8) < major + 24)
            && (major + 0x1b) as u8 != (major + 0x18) as u8 && (major + 0x1b) as u8 != (major
            + 0x19) as u8 && (major + 0x1b) as u8 != (major + 0x1a) as u8) by (bit_vector)
            requires
                major == 0x00 || major == 0x40,
        ;
        assert(((((n >> 56) as u8) as u64) << 56 | (((n >> 48) as u8) as u64) << 48 | (((n
            >> 40) as u8) as u64) << 40 | (((n >> 32) as u8) as u64) << 32 | (((n >> 24) as u8)
            as u64) << 24 | (((n >> 16) as u8) as u64) << 16 | (((n >> 8) as u8) as u64) << 8
            | ((n as u8) as u64)) == n) by (bit_vector);
    }
}

/// Framing a pair and decoding it back is the identity.
pub proof fn lemma_cbor_pair_round_trip(n: u64, body: Seq<u8>)
    requires
        body.len() <= u64::MAX,
    ensures
        cbor_pair_decode(cbor_pair_of(n, body)) == Some((n, body)),
{
    let hn = cbor_hdr(0x00, n);
    let hl = cbor_hdr(0x40, body.len() as u64);
    let b = cbor_pair_of(n, body);
    assert(b =~= (seq![0x82u8] + hn) + hl + body);
    assert(b =~= seq![0x82u8] + hn + (hl + body));
    lemma_parse_hdr_round(seq![0x82u8], 0x00, n, hl + body);
    assert(parse_hdr(b, 1, 0x00) == Some((n, 1 + hn.len() as int)));
    lemma_parse_hdr_round(seq![0x82u8] + hn, 0x40, body.len() as u64, body);
    assert(parse_hdr(b, 1 + hn.len() as int, 0x40) == Some(
        (body.len() as u64, 1 + hn.len() as int + hl.len() as int),
    ));
    assert(b.subrange(1 + hn.len() as int + hl.len() as int, b.len() as int) =~= body);
}

/// Frame a number and a byte string for storage.
pub fn encode_pair(n: u64, body: &Vec<u8>) -> (r: Vec<u8>)
    ensures
        r@ == cbor_pair_of(n, body@),
{
    let mut out: Vec<u8> = Vec::new();
    out.push(0x82);
    push_hdr(&mut out, 0x00, n);
    push_hdr(&mut out, 0x40, body.len() as u64);
    let mut i: usize = 0;
    let m = body.len();
    let ghost framed = out@;
    while i < m
        invariant
            m == body@.len(),
            i <= m,
            out@ == framed + body@.take(i as int),
        decreases m - i,
    {
        out.push(body[i]);
        proof {
            assert(out@ =~= framed + body@.take(i + 1));
        }
        i += 1;
    }
    proof {
        assert(body@.take(m as int) =~= body@);
        assert(out@ =~= cbor_pair_of(n, body@));
    }
    out
}

/// Append one header.
fn push_hdr(out: &mut Vec<u8>, major: u8, n: u64)
    requires
        major == 0x00 || major == 0x40,
    ensures
        final(out)@ == old(out)@ + cbor_hdr(major, n),
{
    let ghost base = out@;
    if n < 24 {
        out.push(major + n as u8);
    } else if n < 256 {
        out.push(major + 0x18);
        out.push(n as u8);
    } else if n < 65536 {
        out.push(major + 0x19);
        out.push((n >> 8) as u8);
        out.push(n as u8);
    } else if n < 4294967296 {
        out.push(major + 0x1a);
        out.push((n >> 24) as u8);
        out.push((n >> 16) as u8);
        out.push((n >> 8) as u8);
        out.push(n as u8);
    } else {
        out.push(major + 0x1b);
        out.push((n >> 56) as u8);
        out.push((n >> 48) as u8);
        out.push((n >> 40) as u8);
        out.push((n >> 32) as u8);
        out.push((n >> 24) as u8);
        out.push((n >> 16) as u8);
        out.push((n >> 8) as u8);
        out.push(n as u8);
    }
    proof {
        assert(out@ =~= base + cbor_hdr(major, n));
    }
}

/// Read a framed pair back; bytes that hold no pair yield nothing.
pub fn decode_pair(b: &Vec<u8>) -> (r: Option<(u64, Vec<u8>)>)
    ensures
        match r {
            Some(p) => cbor_pair_decode(b@) == Some((p.0, p.1@)),
            None => cbor_pair_decode(b@) is None,
        },
{
    if b.len() < 1 {
        return None;
    }
    if b[0] != 0x82 {
        return None;
    }
    let first = match read_hdr(b, 1, 0x00) {
        Some(p) => p,
        None => {
            return None;
        },
    };
    let second = match read_hdr(b, first.1, 0x40) {
        Some(p) => p,
        None => {
            return None;
        },
    };
    let len = second.0;
    let ds = second.1;
    if len > usize::MAX as u64 {
        proof {
            assert(ds + len != b@.len());
        }
        return None;
    }
    let len_u = len as usize;
    if len_u > b.len() || ds != b.len() - len_u {
        return None;
    }
    let mut body: Vec<u8> = Vec::new();
    let mut i: usize = ds;
    while i < b.len()
        invariant
            ds <= i <= b@.len(),
            body@ == b@.subrange(ds as int, i as int),
        decreases b@.len() - i,
    {
        body.push(b[i]);
        proof {
            assert(body@ =~= b@.subrange(ds as int, i + 1));
        }
        i += 1;
    }
    Some((first.0, body))
}

/// Read one header.
fn read_hdr(b: &Vec<u8>, at: usize, major: u8) -> (r: Option<(u64, usize)>)
    requires
        major == 0x00 || major == 0x40,
        1 <= at,
    ensures
        match r {
            Some(p) => parse_hdr(b@, at as int, major) == Some((p.0, p.1 as int)) && at < p.1
                <= b@.len(),
            None => parse_hdr(b@, at as int, major) is None,
        },
{
    if at >= b.len() {
        return None;
    }
    let h = b[at];
    if major <= h && h < major + 24 {
        Some((((h - major) as u64), at + 1))
    } else if h == major + 0x18 && b.len() - at >= 2 {
        Some((b[at + 1] as u64, at + 2))
    } else if h == major + 0x19 && b.len() - at >= 3 {
        Some(((b[at + 1] as u64) << 8 | (b[at + 2] as u64), at + 3))
    } else if h == major + 0x1a && b.len() - at >= 5 {
        Some(
            (
                (b[at + 1] as u64) << 24 | (b[at + 2] as u64) << 16 | (b[at + 3] as u64) << 8 | (
                b[at + 4] as u64),
                at + 5,
            ),
        )
    } else if h == major + 0x1b && b.len() - at >= 9 {
        Some(
            (
                (b[at + 1] as u64) << 56 | (b[at + 2] as u64) << 48 | (b[at + 3] as u64) << 40 | (
                b[at + 4] as u64) << 32 | (b[at + 5] as u64) << 24 | (b[at + 6] as u64) << 16 | (
                b[at + 7] as u64) << 8 | (b[at + 8] as u64),
                at + 9,
            ),
        )
    } else {
        None
    }
}

} // verus!
