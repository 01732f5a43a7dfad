//! Frame demuxer: turns a raw byte buffer holding a whole number of
//! fixed-width samples into the ordered sequence of decoded scalar samples,
//! and back. Only signed 32-bit little-endian samples are supported; a buffer
//! whose length is not a multiple of the sample width is a framing error.

use vstd::prelude::*;

use crate::format::SampleFormat;

verus! {

/// Why a byte buffer could not be demultiplexed.
#[derive(Clone, Copy, Debug, PartialEq, Eq, Structural)]
pub enum DemuxError {
    /// The buffer length is not a multiple of the sample width: the stream
    /// carries a partial trailing sample, which violates the negotiated
    /// framing contract.
    PartialFrame,
    /// The negotiated sample format is one the decoder does not support.
    UnsupportedFormat,
}

/// The sample decoded from the four little-endian bytes starting at `4 * k`.
pub open spec fn sample_at(b: Seq<u8>, k: int) -> i32
    recommends
        0 <= k,
        4 * k + 3 < b.len(),
{
    ((b[4 * k] as u32) | (b[4 * k + 1] as u32) << 8 | (b[4 * k + 2] as u32) << 16 | (b[4 * k
        + 3] as u32) << 24) as i32
}

/// The ordered samples decoded from a byte buffer, in buffer order. A partial
/// trailing sample, if any, is not represented here; the executable decoder
/// rejects such a buffer outright.
pub open spec fn decode_spec(b: Seq<u8>) -> Seq<i32> {
    Seq::new((b.len() / 4) as nat, |k: int| sample_at(b, k))
}

/// The four little-endian bytes of one signed 32-bit sample.
pub open spec fn le_bytes_of(s: i32) -> Seq<u8> {
    seq![
        (s as u32 & 0xff) as u8,
        ((s as u32 >> 8) & 0xff) as u8,
        ((s as u32 >> 16) & 0xff) as u8,
        ((s as u32 >> 24) & 0xff) as u8,
    ]
}

/// The byte stream encoding the given samples, each as four little-endian
/// bytes, in sample order.
pub open spec fn encode_spec(s: Seq<i32>) -> Seq<u8> {
    Seq::new(4 * s.len(), |i: int| le_bytes_of(s[i / 4])[i % 4])
}

/// Packing four bytes little-endian into a signed 32-bit sample and taking
/// the sample's little-endian bytes gives the four bytes back.
proof fn lemma_pack_then_unpack(b0: u8, b1: u8, b2: u8, b3: u8)
    by (bit_vector)
    ensures
        ((((b0 as u32) | (b1 as u32) << 8 | (b2 as u32) << 16 | (b3 as u32) << 24) as i32) as u32
            & 0xff) as u8 == b0,
        (((((b0 as u32) | (b1 as u32) << 8 | (b2 as u32) << 16 | (b3 as u32) << 24) as i32) as u32
            >> 8) & 0xff) as u8 == b1,
        (((((b0 as u32) | (b1 as u32) << 8 | (b2 as u32) << 16 | (b3 as u32) << 24) as i32) as u32
            >> 16) & 0xff) as u8 == b2,
        (((((b0 as u32) | (b1 as u32) << 8 | (b2 as u32) << 16 | (b3 as u32) << 24) as i32) as u32
            >> 24) & 0xff) as u8 == b3,
{
}

/// Taking a sample's four little-endian bytes and packing them back
/// little-endian gives the sample back.
proof fn lemma_unpack_then_pack(s: i32)
    by (bit_vector)
    ensures
        ((((s as u32 & 0xff) as u8) as u32) | ((((s as u32 >> 8) & 0xff) as u8) as u32) << 8 | ((((
        s as u32 >> 16) & 0xff) as u8) as u32) << 16 | ((((s as u32 >> 24) & 0xff) as u8) as u32)
            << 24) as i32 == s,
{
}

/// Decoding a whole-frame buffer and re-encoding the samples reproduces the
/// original bytes exactly.
pub proof fn lemma_decode_then_encode(b: Seq<u8>)
    requires
        b.len() % 4 == 0,
    ensures
        encode_spec(decode_spec(b)) == b,
{
    let s = decode_spec(b);
    let e = encode_spec(s);
    assert(e.len() == b.len());
    assert forall|i: int| 0 <= i < e.len() implies e[i] == b[i] by {
        let k = i / 4;
        assert(0 <= k < s.len());
        assert(4 * k + 3 < b.len());
        lemma_pack_then_unpack(b[4 * k], b[4 * k + 1], b[4 * k + 2], b[4 * k + 3]);
        assert(4 * k + i % 4 == i);
    }
    assert(e =~= b);
}

/// Encoding samples and decoding the byte stream reproduces the samples
/// exactly.
pub proof fn lemma_encode_then_decode(s: Seq<i32>)
    ensures
        decode_spec(encode_spec(s)) == s,
{
    let e = encode_spec(s);
    let d = decode_spec(e);
    assert(d.len() == s.len());
    assert forall|k: int| 0 <= k < d.len() implies d[k] == s[k] by {
        assert(e[4 * k] == le_bytes_of(s[k])[0] && e[4 * k + 1] == le_bytes_of(s[k])[1] && e[4 * k
            + 2] == le_bytes_of(s[k])[2] && e[4 * k + 3] == le_bytes_of(s[k])[3]) by {
            assert((4 * k) / 4 == k && (4 * k + 1) / 4 == k && (4 * k + 2) / 4 == k && (4 * k + 3)
                / 4 == k);
            assert((4 * k) % 4 == 0 && (4 * k + 1) % 4 == 1 && (4 * k + 2) % 4 == 2 && (4 * k + 3)
                % 4 == 3);
        }
        lemma_unpack_then_pack(s[k]);
    }
    assert(d =~= s);
}

/// Decode a raw byte buffer of the given format into its samples, in buffer
/// order. Succeeds exactly on a supported format and a whole number of
/// frames; a partial trailing sample or an unsupported format is rejected
/// outright, never silently truncated.
pub fn decode_samples(bytes: &Vec<u8>, format: SampleFormat) -> (r: Result<Vec<i32>, DemuxError>)
    ensures
        (r matches Ok(s) ==> format == SampleFormat::S32Le && bytes@.len() % 4 == 0 && s@
            == decode_spec(bytes@)),
        format != SampleFormat::S32Le ==> r == Err::<Vec<i32>, DemuxError>(
            DemuxError::UnsupportedFormat,
        ),
        format == SampleFormat::S32Le && bytes@.len() % 4 != 0 ==> r == Err::<Vec<i32>, DemuxError>(
            DemuxError::PartialFrame,
        ),
        format == SampleFormat::S32Le && bytes@.len() % 4 == 0 ==> r matches Ok(_),
{
    match format {
        SampleFormat::S32Le => {},
        _ => {
            return Err(DemuxError::UnsupportedFormat);
        },
    }
    let n = bytes.len();
    if n % 4 != 0 {
        return Err(DemuxError::PartialFrame);
    }
    let count = n / 4;
    let mut out: Vec<i32> = Vec::new();
    let mut i: usize = 0;
    while i < count
        invariant
            n == bytes@.len(),
            n % 4 == 0,
            count == n / 4,
            i <= count,
            out@ == decode_spec(bytes@).take(i as int),
        decreases count - i,
    {
        assert(4 * i + 4 <= n);
        let b0 = bytes[4 * i] as u32;
        let b1 = bytes[4 * i + 1] as u32;
        let b2 = bytes[4 * i + 2] as u32;
        let b3 = bytes[4 * i + 3] as u32;
        let v = b0 | b1 << 8 | b2 << 16 | b3 << 24;
        out.push(v as i32);
        proof {
            assert(v as i32 == sample_at(bytes@, i as int));
            assert(out@ =~= decode_spec(bytes@).take(i + 1));
        }
        i = i + 1;
    }
    proof {
        assert(out@ =~= decode_spec(bytes@));
    }
    Ok(out)
}

/// Encode samples back into the signed 32-bit little-endian byte stream.
pub fn encode_samples(samples: &Vec<i32>) -> (r: Vec<u8>)
    requires
        4 * samples@.len() <= usize::MAX,
    ensures
        r@ == encode_spec(samples@),
{
    let mut out: Vec<u8> = Vec::new();
    let mut i: usize = 0;
    while i < samples.len()
        invariant
            i <= samples@.len(),
            4 * samples@.len() <= usize::MAX,
            out@ == encode_spec(samples@).take(4 * i),
        decreases samples@.len() - i,
    {
        let s = samples[i] as u32;
        out.push((s & 0xff) as u8);
        out.push(((s >> 8) & 0xff) as u8);
        out.push(((s >> 16) & 0xff) as u8);
        out.push(((s >> 24) & 0xff) as u8);
        proof {
            let all = encode_spec(samples@);
            assert forall|j: int| 4 * i <= j < 4 * (i + 1) implies all[j] == out@[j] by {
                assert(j / 4 == i && (j == 4 * i + j % 4));
            }
            assert(out@ =~= all.take(4 * (i + 1)));
        }
        i = i + 1;
    }
    proof {
        assert(out@ =~= encode_spec(samples@));
    }
    out
}

} // verus!
