//! Decoder for the voice-clip container: a RIFF/WAVE stream of
//! 16-bit PCM samples.  The parser walks the chunk list, takes the
//! channel count and sample rate from the format chunk, and the
//! interleaved samples from the data chunk; anything malformed is
//! rejected rather than guessed at.

use vstd::prelude::*;

verus! {

/// A decoded voice clip: interleaved 16-bit samples.
pub struct Clip {
    pub channels: u16,
    pub sample_rate: u32,
    pub samples: Vec<i16>,
}

/// A little-endian 16-bit word at byte offset `i`.
pub open spec fn le16(b: Seq<u8>, i: int) -> int {
    b[i] + 256 * b[i + 1]
}

/// A little-endian 32-bit word at byte offset `i`.
pub open spec fn le32(b: Seq<u8>, i: int) -> int {
    b[i] + 256 * b[i + 1] + 65536 * b[i + 2] + 16777216 * b[i + 3]
}

/// The signed sample stored little-endian at byte offset `i`.
pub open spec fn sample16(b: Seq<u8>, i: int) -> int {
    if le16(b, i) < 32768 {
        le16(b, i)
    } else {
        le16(b, i) - 65536
    }
}

/// The sample run carried by a data chunk's payload.
pub open spec fn spec_data_samples(d: Seq<u8>) -> Seq<i16> {
    Seq::new((d.len() / 2) as nat, |k: int| sample16(d, 2 * k) as i16)
}

/// The outer container frame: "RIFF" ... "WAVE".
pub open spec fn is_riff(b: Seq<u8>) -> bool {
    &&& b.len() >= 12
    &&& b[0] == 0x52u8
    &&& b[1] == 0x49u8
    &&& b[2] == 0x46u8
    &&& b[3] == 0x46u8
    &&& b[8] == 0x57u8
    &&& b[9] == 0x41u8
    &&& b[10] == 0x56u8
    &&& b[11] == 0x45u8
}

/// A format chunk this decoder accepts: integer PCM, at least one
/// channel, a positive rate, 16 bits per sample.
pub open spec fn fmt_ok(d: Seq<u8>) -> bool {
    &&& d.len() >= 16
    &&& le16(d, 0) == 1
    &&& le16(d, 2) >= 1
    &&& le32(d, 4) >= 1
    &&& le16(d, 14) == 16
}

/// Walks the chunk list.  The format chunk must precede the data
/// chunk; unknown chunks are skipped; the first data chunk decides.
pub open spec fn scan_chunks(b: Seq<u8>, fmt: Option<(int, int)>) -> Option<(int, int, Seq<i16>)>
    decreases b.len(),
{
    if b.len() < 8 {
        None
    } else {
        let size = le32(b, 4);
        if 8 + size > b.len() {
            None
        } else if b[0] == 0x66u8 && b[1] == 0x6du8 && b[2] == 0x74u8 && b[3] == 0x20u8 {
            let d = b.subrange(8, 8 + size);
            if fmt_ok(d) {
                scan_chunks(b.skip(8 + size), Some((le16(d, 2), le32(d, 4))))
            } else {
                None
            }
        } else if b[0] == 0x64u8 && b[1] == 0x61u8 && b[2] == 0x74u8 && b[3] == 0x61u8 {
            match fmt {
                Option::None => None,
                Option::Some((c, r)) => {
                    if size % (2 * c) == 0 {
                        Some((c, r, spec_data_samples(b.subrange(8, 8 + size))))
                    } else {
                        None
                    }
                },
            }
        } else {
            scan_chunks(b.skip(8 + size), fmt)
        }
    }
}

/// What a byte stream decodes to, if anything: channel count,
/// sample rate, and interleaved samples.
pub open spec fn spec_parse_wav(b: Seq<u8>) -> Option<(int, int, Seq<i16>)> {
    if is_riff(b) {
        scan_chunks(b.skip(12), None)
    } else {
        None
    }
}

/// Reads the little-endian 16-bit word at `i`.
fn read_le16(bytes: &Vec<u8>, i: usize) -> (r: u16)
    requires
        i + 2 <= bytes@.len(),
    ensures
        r as int == le16(bytes@, i as int),
{
    let n = bytes.len();
    bytes[i] as u16 + 256 * (bytes[i + 1] as u16)
}

/// Reads the little-endian 32-bit word at `i`.
fn read_le32(bytes: &Vec<u8>, i: usize) -> (r: u32)
    requires
        i + 4 <= bytes@.len(),
    ensures
        r as int == le32(bytes@, i as int),
{
    let n = bytes.len();
    bytes[i] as u32 + 256 * (bytes[i + 1] as u32) + 65536 * (bytes[i + 2] as u32)
        + 16777216 * (bytes[i + 3] as u32)
}

/// Decodes a voice clip, or nothing if the bytes are not a stream
/// this decoder accepts.
pub fn parse_wav(bytes: &Vec<u8>) -> (r: Option<Clip>)
    ensures
        match r {
            Option::Some(clip) => {
                &&& spec_parse_wav(bytes@) == Some(
                    (clip.channels as int, clip.sample_rate as int, clip.samples@),
                )
                &&& clip.channels >= 1
                &&& clip.sample_rate >= 1
            },
            Option::None => spec_parse_wav(bytes@) is None,
        },
{
    let len = bytes.len();
    if len < 12 {
        return None;
    }
    if !(bytes[0] == 0x52 && bytes[1] == 0x49 && bytes[2] == 0x46 && bytes[3] == 0x46
        && bytes[8] == 0x57 && bytes[9] == 0x41 && bytes[10] == 0x56 && bytes[11] == 0x45) {
        return None;
    }
    let mut pos: usize = 12;
    let mut have_fmt: bool = false;
    let mut channels: u16 = 0;
    let mut rate: u32 = 0;
    loop
        invariant
            12 <= pos <= bytes@.len(),
            bytes@.len() == len,
            have_fmt ==> channels >= 1 && rate >= 1,
            spec_parse_wav(bytes@) == scan_chunks(
                bytes@.skip(pos as int),
                if have_fmt {
                    Some((channels as int, rate as int))
                } else {
                    None
                },
            ),
        decreases bytes@.len() - pos,
    {
        let ghost rest = bytes@.skip(pos as int);
        let ghost fmt_arg: Option<(int, int)> = if have_fmt {
            Some((channels as int, rate as int))
        } else {
            None
        };
        if len - pos < 8 {
            return None;
        }
        proof {
            assert(rest.len() >= 8);
            assert forall|i: int| 0 <= i < rest.len() implies rest[i] == bytes@[pos + i] by {}
        }
        let size32 = read_le32(bytes, pos + 4);
        let size = size32 as usize;
        proof {
            assert(le32(rest, 4) == le32(bytes@, pos as int + 4));
        }
        if size > len - pos - 8 {
            proof {
                assert(8 + le32(rest, 4) > rest.len());
            }
            return None;
        }
        let next = pos + 8 + size;
        let ghost d = bytes@.subrange(pos as int + 8, pos as int + 8 + size as int);
        proof {
            assert(d =~= rest.subrange(8, 8 + le32(rest, 4)));
            assert(bytes@.skip(next as int) =~= rest.skip(8 + le32(rest, 4)));
        }
        if bytes[pos] == 0x66 && bytes[pos + 1] == 0x6d && bytes[pos + 2] == 0x74
            && bytes[pos + 3] == 0x20 {
            // format chunk
            if size < 16 {
                return None;
            }
            let tag = read_le16(bytes, pos + 8);
            let ch = read_le16(bytes, pos + 10);
            let sr = read_le32(bytes, pos + 12);
            let bits = read_le16(bytes, pos + 8 + 14);
            proof {
                assert(le16(d, 0) == le16(bytes@, pos as int + 8));
                assert(le16(d, 2) == le16(bytes@, pos as int + 10));
                assert(le32(d, 4) == le32(bytes@, pos as int + 12));
                assert(le16(d, 14) == le16(bytes@, pos as int + 8 + 14));
            }
            if !(tag == 1 && ch >= 1 && sr >= 1 && bits == 16) {
                return None;
            }
            have_fmt = true;
            channels = ch;
            rate = sr;
            pos = next;
        } else if bytes[pos] == 0x64 && bytes[pos + 1] == 0x61 && bytes[pos + 2] == 0x74
            && bytes[pos + 3] == 0x61 {
            // data chunk
            if !have_fmt {
                return None;
            }
            let align: usize = 2 * (channels as usize);
            if size % align != 0 {
                return None;
            }
            let mut samples: Vec<i16> = Vec::new();
            let half: usize = size / 2;
            proof {
                vstd::arithmetic::div_mod::lemma_fundamental_div_mod(d.len() as int, 2);
                vstd::arithmetic::div_mod::lemma_mod_pos_bound(d.len() as int, 2);
            }
            let mut k: usize = 0;
            while k < half
                invariant
                    k <= half,
                    bytes@.len() <= usize::MAX,
                    pos + 8 + size <= bytes@.len(),
                    half == d.len() / 2,
                    2 * (half as int) <= d.len(),
                    d == bytes@.subrange(pos as int + 8, pos as int + 8 + size as int),
                    d.len() == size,
                    samples@.len() == k,
                    forall|i: int| 0 <= i < k ==> samples@[i] == spec_data_samples(d)[i],
                decreases half - k,
            {
                let lo = bytes[pos + 8 + 2 * k];
                let hi = bytes[pos + 8 + 2 * k + 1];
                let w: u16 = lo as u16 + 256 * (hi as u16);
                let s: i16 = if w < 32768 {
                    w as i16
                } else {
                    ((w as i32) - 65536) as i16
                };
                proof {
                    assert(d[2 * k as int] == bytes@[pos as int + 8 + 2 * k as int]);
                    assert(d[2 * k as int + 1] == bytes@[pos as int + 8 + 2 * k as int + 1]);
                    assert(s as int == sample16(d, 2 * k as int));
                }
                samples.push(s);
                k += 1;
            }
            proof {
                assert(samples@ =~= spec_data_samples(d));
                assert(le32(rest, 4) == size as int);
                assert(size as int % (2 * channels as int) == 0);
            }
            return Some(Clip { channels, sample_rate: rate, samples });
        } else {
            pos = next;
        }
        proof {
            assert(spec_parse_wav(bytes@) == scan_chunks(
                bytes@.skip(pos as int),
                if have_fmt {
                    Some((channels as int, rate as int))
                } else {
                    None
                },
            ));
        }
    }
}

} // verus!
