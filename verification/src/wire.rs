//! Wire codec: 2 bytes per sample, big-endian, channel-interleaved, with an
//! optional 4-byte big-endian sequence-number prefix added by the chunker.

use vstd::prelude::*;

verus! {

/// The unsigned 16-bit value whose big-endian bytes encode sample `s`
/// (two's complement).
pub open spec fn sample_as_unsigned(s: i16) -> int {
    if s < 0 {
        s + 0x10000
    } else {
        s as int
    }
}

/// The two big-endian bytes that encode sample `s` on the wire.
pub open spec fn be16(s: i16) -> Seq<u8> {
    seq![
        (sample_as_unsigned(s) / 0x100) as u8,
        (sample_as_unsigned(s) % 0x100) as u8,
    ]
}

/// The signed 16-bit sample read from two big-endian bytes.
pub open spec fn sample_of_bytes(hi: u8, lo: u8) -> i16 {
    let v = hi * 0x100 + lo;
    if v >= 0x8000 {
        (v - 0x10000) as i16
    } else {
        v as i16
    }
}

/// The byte payload encoding a sample sequence: 2 bytes per sample,
/// big-endian, in order.
pub open spec fn sample_bytes(samples: Seq<i16>) -> Seq<u8> {
    Seq::new(
        2 * samples.len(),
        |i: int| if i % 2 == 0 {
            be16(samples[i / 2])[0]
        } else {
            be16(samples[i / 2])[1]
        },
    )
}

/// The sample sequence decoded from a byte payload: whole big-endian pairs
/// only; a trailing odd byte is dropped.
pub open spec fn decoded_samples(bytes: Seq<u8>) -> Seq<i16> {
    Seq::new((bytes.len() as int / 2) as nat, |j: int| sample_of_bytes(bytes[2 * j], bytes[2 * j + 1]))
}

/// The four big-endian bytes that encode a chunk sequence number.
pub open spec fn be32(n: u32) -> Seq<u8> {
    seq![
        (n / 0x1000000) as u8,
        ((n / 0x10000) % 0x100) as u8,
        ((n / 0x100) % 0x100) as u8,
        (n % 0x100) as u8,
    ]
}

/// A chunk sequence number advances as a native 32-bit unsigned counter:
/// it wraps to zero past `u32::MAX`.
pub open spec fn wrap_inc(n: u32) -> u32 {
    if n == u32::MAX {
        0
    } else {
        (n + 1) as u32
    }
}

/// Appending one sample to a sequence appends its two bytes to the payload.
pub proof fn lemma_sample_bytes_push(s: Seq<i16>, x: i16)
    ensures
        sample_bytes(s.push(x)) == sample_bytes(s) + be16(x),
{
    let a = sample_bytes(s.push(x));
    let b = sample_bytes(s) + be16(x);
    assert forall|i: int| 0 <= i < a.len() implies a[i] == b[i] by {
        if i < 2 * s.len() {
            assert(0 <= i / 2 < s.len()) by (nonlinear_arith)
                requires 0 <= i < 2 * s.len();
        } else {
            assert(i / 2 == s.len() && (i % 2 == 0 <==> i == 2 * s.len())) by (nonlinear_arith)
                requires 2 * s.len() <= i < 2 * s.len() + 2;
        }
    }
    assert(a =~= b);
}

/// The payload of a concatenation is the concatenation of the payloads.
pub proof fn lemma_sample_bytes_concat(a: Seq<i16>, b: Seq<i16>)
    ensures
        sample_bytes(a + b) == sample_bytes(a) + sample_bytes(b),
{
    let x = sample_bytes(a + b);
    let y = sample_bytes(a) + sample_bytes(b);
    assert forall|i: int| 0 <= i < x.len() implies x[i] == y[i] by {
        if i < 2 * a.len() {
            assert(0 <= i / 2 < a.len()) by (nonlinear_arith)
                requires 0 <= i < 2 * a.len();
        } else {
            let k = i - 2 * a.len();
            assert(k / 2 == i / 2 - a.len() && k % 2 == i % 2 && 0 <= k / 2 < b.len())
                by (nonlinear_arith)
                requires
                    k == i - 2 * a.len(),
                    2 * a.len() <= i < 2 * a.len() + 2 * b.len(),
                    0 <= a.len();
            assert((a + b)[i / 2] == b[k / 2]);
        }
    }
    assert(x =~= y);
}

/// Decoding the two big-endian bytes of a sample gives the sample back.
pub proof fn lemma_sample_round_trip(s: i16)
    ensures
        sample_of_bytes(be16(s)[0], be16(s)[1]) == s,
{
    let u = sample_as_unsigned(s);
    assert(0 <= u < 0x10000);
    assert(u == 0x100 * (u / 0x100) + u % 0x100) by (nonlinear_arith);
    assert(0 <= u / 0x100 < 0x100) by (nonlinear_arith)
        requires 0 <= u < 0x10000;
}

/// Decoding the payload bytes of a sample sequence reconstructs the
/// sequence exactly.
pub proof fn lemma_payload_round_trip(samples: Seq<i16>)
    ensures
        decoded_samples(sample_bytes(samples)) == samples,
{
    let d = decoded_samples(sample_bytes(samples));
    assert forall|j: int| 0 <= j < samples.len() implies d[j] == samples[j] by {
        assert((2 * j) % 2 == 0 && (2 * j) / 2 == j) by (nonlinear_arith);
        assert((2 * j + 1) % 2 == 1 && (2 * j + 1) / 2 == j) by (nonlinear_arith);
        lemma_sample_round_trip(samples[j]);
    }
    assert(d =~= samples);
}

/// Appends the two big-endian bytes of `s` to `out`.
pub(crate) fn push_sample_be(out: &mut Vec<u8>, s: i16)
    ensures
        final(out)@ == old(out)@ + be16(s),
{
    let u: u32 = if s < 0 {
        (s as i32 + 0x10000) as u32
    } else {
        s as u32
    };
    proof {
        assert(u == sample_as_unsigned(s));
        assert(0 <= u / 0x100 < 0x100) by (nonlinear_arith)
            requires 0 <= u < 0x10000;
    }
    out.push((u / 0x100) as u8);
    out.push((u % 0x100) as u8);
    assert(out@ =~= old(out)@ + be16(s));
}

/// Appends the four big-endian bytes of sequence number `n` to `out`.
pub(crate) fn push_u32_be(out: &mut Vec<u8>, n: u32)
    ensures
        final(out)@ == old(out)@ + be32(n),
{
    proof {
        assert(0 <= n / 0x1000000 < 0x100) by (nonlinear_arith)
            requires 0 <= n < 0x100000000;
    }
    out.push((n / 0x1000000) as u8);
    out.push(((n / 0x10000) % 0x100) as u8);
    out.push(((n / 0x100) % 0x100) as u8);
    out.push((n % 0x100) as u8);
    assert(out@ =~= old(out)@ + be32(n));
}

/// Decodes a received datagram payload into samples: every whole big-endian
/// pair yields one sample; a trailing odd byte is dropped, not an error.
pub fn decode_samples(bytes: &[u8]) -> (samples: Vec<i16>)
    ensures
        samples@ == decoded_samples(bytes@),
{
    let len: usize = bytes.len();
    let n: usize = len / 2;
    let mut samples: Vec<i16> = Vec::new();
    let mut j: usize = 0;
    while j < n
        invariant
            len == bytes@.len(),
            n == len as int / 2,
            j <= n,
            samples@ =~= decoded_samples(bytes@).take(j as int),
        decreases n - j,
    {
        proof {
            assert(2 * (j as int) + 1 < len as int) by (nonlinear_arith)
                requires (j as int) < len as int / 2;
        }
        let hi = bytes[2 * j];
        let lo = bytes[2 * j + 1];
        let v: u32 = (hi as u32) * 0x100 + (lo as u32);
        let s32: i32 = if v >= 0x8000 {
            v as i32 - 0x10000
        } else {
            v as i32
        };
        let s = s32 as i16;
        assert(s == sample_of_bytes(hi, lo));
        samples.push(s);
        j = j + 1;
        assert(samples@ =~= decoded_samples(bytes@).take(j as int));
    }
    proof {
        assert(decoded_samples(bytes@).take(n as int) =~= decoded_samples(bytes@));
    }
    samples
}

} // verus!
