//! The mixdown engine's arithmetic: channel averaging, linear-
//! interpolation resampling, and saturating accumulation of clips
//! into one mono buffer.  Amplitudes are 16-bit integer samples,
//! the native resolution of the stored clips; every operation here
//! is a pure function of its inputs, so a rebuild from the same
//! state always yields the same buffer.

use vstd::prelude::*;
use vstd::pervasive::VecAdditionalExecFns;
use crate::models::Phrase;
use crate::store::{Voice, voice_lookup};
use crate::wav::spec_parse_wav;
use vstd::arithmetic::div_mod::{
    lemma_fundamental_div_mod, lemma_fundamental_div_mod_converse,
};
use vstd::arithmetic::mul::lemma_mul_inequality;

verus! {

/// The representable amplitude range: a value clipped into it.
pub open spec fn clamp16(v: int) -> int {
    if v < -32768 {
        -32768
    } else if v > 32767 {
        32767
    } else {
        v
    }
}

/// Adds two samples, saturating at the representable bounds
/// instead of wrapping.
pub fn sat_add16(a: i16, b: i16) -> (r: i16)
    ensures
        r as int == clamp16(a as int + b as int),
{
    let s: i32 = a as i32 + b as i32;
    if s < -32768 {
        -32768
    } else if s > 32767 {
        32767
    } else {
        s as i16
    }
}

/// Saturation never wraps: a sum past either bound comes back as
/// that bound, and a representable sum comes back exact.
pub proof fn lemma_saturation(a: int, b: int)
    requires
        -32768 <= a <= 32767,
        -32768 <= b <= 32767,
    ensures
        a + b > 32767 ==> clamp16(a + b) == 32767,
        a + b < -32768 ==> clamp16(a + b) == -32768,
        -32768 <= a + b <= 32767 ==> clamp16(a + b) == a + b,
        -32768 <= clamp16(a + b) <= 32767,
{
}

/// Division rounding toward negative infinity, as used for sample
/// positions and averages.
fn div_floor(a: i128, b: u64) -> (r: i128)
    requires
        b >= 1,
        a > i128::MIN,
    ensures
        r == a as int / b as int,
{
    let bb = b as u128;
    if a >= 0 {
        let q = (a as u128) / bb;
        proof {
            lemma_fundamental_div_mod(a as int, b as int);
            vstd::arithmetic::div_mod::lemma_div_nonincreasing(a as int, b as int);
        }
        q as i128
    } else {
        let m = (-a) as u128;
        let q = m / bb;
        let rem = m % bb;
        proof {
            let mi = m as int;
            let bi = b as int;
            lemma_fundamental_div_mod(mi, bi);
            vstd::arithmetic::div_mod::lemma_mod_pos_bound(mi, bi);
            // the quotient never exceeds the magnitude it divides
            assert(q as int <= mi && (mi % bi >= 1 ==> q as int + 1 <= mi)) by (nonlinear_arith)
                requires
                    mi == bi * (q as int) + mi % bi,
                    mi % bi >= 0,
                    bi >= 1,
                    q as int >= 0,
            {}
            // a == -m; reassemble a over the Euclidean quotient
            if mi % bi == 0 {
                assert(a as int == (-(mi / bi)) * bi + 0) by (nonlinear_arith)
                    requires
                        mi == bi * (mi / bi) + mi % bi,
                        mi % bi == 0,
                        a as int == -mi,
                {}
                lemma_fundamental_div_mod_converse(a as int, bi, -(mi / bi), 0);
            } else {
                assert(a as int == (-(mi / bi) - 1) * bi + (bi - mi % bi)) by (nonlinear_arith)
                    requires
                        mi == bi * (mi / bi) + mi % bi,
                        a as int == -mi,
                {}
                lemma_fundamental_div_mod_converse(
                    a as int,
                    bi,
                    -(mi / bi) - 1,
                    bi - (mi % bi),
                );
            }
        }
        if rem == 0 {
            -(q as i128)
        } else {
            -((q + 1) as i128)
        }
    }
}

/// The signed sum of `cnt` samples starting at `start`.
pub open spec fn frame_sum(s: Seq<i16>, start: int, cnt: int) -> int
    decreases cnt,
{
    if cnt <= 0 {
        0
    } else {
        s[start] + frame_sum(s, start + 1, cnt - 1)
    }
}

/// A multi-channel clip folded to mono: each output sample is the
/// floor of the average of one frame's channels.
pub open spec fn spec_mono(s: Seq<i16>, c: int) -> Seq<i16> {
    if c <= 0 {
        Seq::empty()
    } else {
        Seq::new((s.len() as int / c) as nat, |k: int| clamp16(frame_sum(s, k * c, c) / c) as i16)
    }
}

/// Folds interleaved channels to mono by channel averaging.  A
/// one-channel clip passes through unchanged.
pub fn downmix_mono(samples: &Vec<i16>, channels: u16) -> (r: Vec<i16>)
    requires
        channels >= 1,
    ensures
        r@ == spec_mono(samples@, channels as int),
{
    let c: usize = channels as usize;
    let frames: usize = samples.len() / c;
    proof {
        lemma_fundamental_div_mod(samples@.len() as int, c as int);
        vstd::arithmetic::div_mod::lemma_mod_pos_bound(samples@.len() as int, c as int);
    }
    let mut out: Vec<i16> = Vec::new();
    let mut k: usize = 0;
    while k < frames
        invariant
            k <= frames,
            c == channels as usize,
            channels >= 1,
            samples@.len() <= usize::MAX,
            frames == samples@.len() as int / c as int,
            frames * c <= samples@.len(),
            out@.len() == k,
            forall|i: int| 0 <= i < k ==> out@[i] == spec_mono(samples@, c as int)[i],
        decreases frames - k,
    {
        proof {
            lemma_mul_inequality(k as int + 1, frames as int, c as int);
            assert(k as int * c as int + c as int <= samples@.len()) by (nonlinear_arith)
                requires
                    (k as int + 1) * (c as int) <= frames as int * c as int,
                    frames as int * c as int <= samples@.len(),
            {}
        }
        let base: usize = k * c;
        let mut sum: i64 = 0;
        let mut j: usize = 0;
        while j < c
            invariant
                j <= c,
                c <= 65535,
                samples@.len() <= usize::MAX,
                base == k as int * c as int,
                base + c <= samples@.len(),
                sum == frame_sum(samples@, base as int, j as int),
                -32768 * (j as int) <= sum <= 32767 * (j as int),
            decreases c - j,
        {
            proof {
                lemma_frame_sum_step(samples@, base as int, j as int);
            }
            let idx: usize = base + j;
            sum = sum + samples[idx] as i64;
            j += 1;
        }
        let q = div_floor(sum as i128, channels as u64);
        let v: i16 = if q < -32768 {
            -32768
        } else if q > 32767 {
            32767
        } else {
            q as i16
        };
        out.push(v);
        proof {
            assert(v as int == clamp16(frame_sum(samples@, k as int * c as int, c as int)
                / c as int));
        }
        k += 1;
    }
    proof {
        assert(out@ =~= spec_mono(samples@, c as int));
    }
    out
}

/// Clamped linear interpolation between two samples, `num/den` of
/// the way from the first to the second, rounded toward negative
/// infinity.
pub open spec fn spec_lerp16(s0: int, s1: int, num: int, den: int) -> int {
    clamp16((s0 * (den - num) + s1 * num) / den)
}

/// A clip resampled from `from` to `to` frames per second by linear
/// interpolation.  Output sample `j` sits at position `j*from/to`
/// of the input and interpolates between the samples on either side.
pub open spec fn spec_resample(s: Seq<i16>, from: int, to: int) -> Seq<i16> {
    if from <= 0 || to <= 0 {
        Seq::empty()
    } else {
        let n = s.len() as int;
        Seq::new(((n * to) / from) as nat, |j: int| {
            let k = (j * from) / to;
            let s1 = if k + 1 < n { s[k + 1] as int } else { s[n - 1] as int };
            spec_lerp16(s[k] as int, s1, (j * from) % to, to) as i16
        })
    }
}

/// The product of a sample-sized value and a rate-sized value stays
/// within narrow 128-bit bounds.
proof fn lemma_sample_rate_product(x: int, y: int, yb: int)
    requires
        -32768 <= x <= 32767,
        0 <= y <= yb,
    ensures
        -32768 * yb <= x * y <= 32767 * yb,
{
    assert(-32768 * yb <= x * y <= 32767 * yb) by (nonlinear_arith)
        requires
            -32768 <= x <= 32767,
            0 <= y <= yb,
    {}
}

/// Resamples by linear interpolation.  A clip already at the target
/// rate passes through unchanged.
pub fn resample_linear(samples: &Vec<i16>, from_rate: u32, to_rate: u32) -> (r: Vec<i16>)
    requires
        from_rate >= 1,
        to_rate >= 1,
        samples@.len() as int * to_rate as int / from_rate as int <= usize::MAX as int,
    ensures
        r@ == spec_resample(samples@, from_rate as int, to_rate as int),
        from_rate == to_rate ==> r@ == samples@,
{
    let n: usize = samples.len();
    let from128 = from_rate as u128;
    let to128 = to_rate as u128;
    proof {
        vstd::arithmetic::mul::lemma_mul_upper_bound(
            n as int,
            0xffff_ffff_ffff_ffff,
            to_rate as int,
            0x1_0000_0000,
        );
    }
    let out_len128: u128 = (n as u128) * to128 / from128;
    let out_len: usize = out_len128 as usize;
    let ghost fi: int = from_rate as int;
    let ghost ti: int = to_rate as int;
    let mut out: Vec<i16> = Vec::new();
    let mut j: usize = 0;
    while j < out_len
        invariant
            j <= out_len,
            n == samples@.len(),
            1 <= fi <= 4294967296,
            1 <= ti <= 4294967296,
            fi == from_rate as int,
            ti == to_rate as int,
            from128 as int == fi,
            to128 as int == ti,
            out_len == (n as int * ti) / fi,
            out@.len() == j,
            forall|i: int| 0 <= i < j ==> out@[i] == spec_resample(samples@, fi, ti)[i],
        decreases out_len - j,
    {
        proof {
            let ni = n as int;
            let q = (ni * ti) / fi;
            lemma_fundamental_div_mod(ni * ti, fi);
            vstd::arithmetic::div_mod::lemma_mod_pos_bound(ni * ti, fi);
            lemma_mul_inequality(j as int, q - 1, fi);
            // j's input position falls short of the clip's end
            assert(j as int * fi <= ni * ti - fi) by (nonlinear_arith)
                requires
                    j as int <= q - 1,
                    j as int * fi <= (q - 1) * fi,
                    ni * ti == fi * q + (ni * ti) % fi,
                    (ni * ti) % fi >= 0,
                    fi >= 1,
            {}
            assert(ni >= 1) by (nonlinear_arith)
                requires
                    ni * ti >= fi,
                    fi >= 1,
                    ti >= 1,
                    ni >= 0,
            {}
            lemma_fundamental_div_mod(j as int * fi, ti);
            vstd::arithmetic::div_mod::lemma_mod_pos_bound(j as int * fi, ti);
            // the base sample index stays inside the clip
            assert(ni * ti - 1 == (ni - 1) * ti + (ti - 1)) by (nonlinear_arith) {}
            lemma_fundamental_div_mod_converse(ni * ti - 1, ti, ni - 1, ti - 1);
            vstd::arithmetic::div_mod::lemma_div_is_ordered(
                j as int * fi,
                ni * ti - 1,
                ti,
            );
        }
        proof {
            vstd::arithmetic::mul::lemma_mul_upper_bound(
                j as int,
                0xffff_ffff_ffff_ffff,
                fi,
                0x1_0000_0000,
            );
        }
        let pos: u128 = (j as u128) * from128;
        let k128: u128 = pos / to128;
        let frac: u128 = pos % to128;
        let k: usize = k128 as usize;
        let s0: i16 = samples[k];
        let s1: i16 = if k + 1 < n {
            samples[k + 1]
        } else {
            samples[n - 1]
        };
        proof {
            lemma_sample_rate_product(s0 as int, ti - frac as int, 4294967296);
            lemma_sample_rate_product(s1 as int, frac as int, 4294967296);
        }
        let numer: i128 = (s0 as i128) * ((to_rate as i128) - (frac as i128))
            + (s1 as i128) * (frac as i128);
        let q = div_floor(numer, to_rate as u64);
        let v: i16 = if q < -32768 {
            -32768
        } else if q > 32767 {
            32767
        } else {
            q as i16
        };
        out.push(v);
        proof {
            assert(v as int == spec_lerp16(s0 as int, s1 as int, frac as int, ti));
            assert(out@[j as int] == spec_resample(samples@, fi, ti)[j as int]);
        }
        j += 1;
    }
    proof {
        assert(out@ =~= spec_resample(samples@, fi, ti));
        if from_rate == to_rate {
            lemma_resample_identity(samples@, fi);
        }
    }
    out
}

/// Resampling to the clip's own rate is the identity: the resample
/// step leaves a clip already at the target rate unchanged.
pub proof fn lemma_resample_identity(s: Seq<i16>, r: int)
    requires
        r >= 1,
    ensures
        spec_resample(s, r, r) == s,
{
    let n = s.len() as int;
    vstd::arithmetic::div_mod::lemma_div_multiples_vanish(n, r);
    assert(n * r == r * n) by (nonlinear_arith) {}
    assert((n * r) / r == n);
    assert forall|j: int| 0 <= j < n implies spec_resample(s, r, r)[j] == s[j] by {
        vstd::arithmetic::div_mod::lemma_div_multiples_vanish(j, r);
        assert(j * r == r * j) by (nonlinear_arith) {}
        assert((j * r) / r == j);
        vstd::arithmetic::div_mod::lemma_mod_multiples_basic(j, r);
        assert((j * r) % r == 0);
        let s0 = s[j] as int;
        vstd::arithmetic::div_mod::lemma_div_multiples_vanish(s0, r);
        assert(s0 * r == r * s0) by (nonlinear_arith) {}
        assert((s0 * (r - 0) + (if j + 1 < n { s[j + 1] as int } else { s[n - 1] as int }) * 0) / r
            == s0);
    }
    assert(spec_resample(s, r, r) =~= s);
}

/// A run of silent samples.
pub open spec fn zero_seq(n: int) -> Seq<i16> {
    Seq::new(if n >= 0 { n as nat } else { 0 }, |i: int| 0i16)
}

/// A clip accumulated into the mix at an integer sample offset: the
/// buffer grows to hold the clip's end, each overlapped sample is a
/// saturating sum, and any part of the clip before sample zero is
/// dropped.
pub open spec fn spec_place(mix: Seq<i16>, clip: Seq<i16>, offset: int) -> Seq<i16> {
    let end = offset + clip.len() as int;
    let grown = if end > mix.len() as int {
        mix + zero_seq(end - mix.len() as int)
    } else {
        mix
    };
    Seq::new(grown.len(), |idx: int| if offset <= idx < end {
        clamp16(grown[idx] as int + clip[idx - offset] as int) as i16
    } else {
        grown[idx]
    })
}

/// Adds a clip into the mix buffer at `offset`, growing the buffer
/// as needed and saturating each sum.
pub fn place_clip(mix: &mut Vec<i16>, clip: &Vec<i16>, offset: i128)
    requires
        offset + clip@.len() <= usize::MAX,
    ensures
        final(mix)@ == spec_place(old(mix)@, clip@, offset as int),
{
    let ghost pre = mix@;
    let end128: i128 = offset + clip.len() as i128;
    if end128 > mix.len() as i128 {
        let target: usize = end128 as usize;
        proof {
            assert(pre + zero_seq(0) =~= pre);
        }
        while mix.len() < target
            invariant
                pre.len() <= mix@.len(),
                mix@.len() <= target,
                mix@ == pre + zero_seq(mix@.len() - pre.len() as int),
            decreases target - mix.len(),
        {
            let ghost before = mix@;
            mix.push(0i16);
            proof {
                assert(mix@ =~= pre + zero_seq(mix@.len() - pre.len() as int));
            }
        }
    }
    let ghost grown = mix@;
    proof {
        if offset as int + clip@.len() > pre.len() {
            assert(grown =~= pre + zero_seq(offset as int + clip@.len() - pre.len() as int));
        } else {
            assert(grown == pre);
        }
    }
    let mut i: usize = 0;
    while i < clip.len()
        invariant
            i <= clip@.len(),
            offset as int + clip@.len() <= usize::MAX,
            mix@.len() == grown.len(),
            offset as int + clip@.len() <= grown.len(),
            forall|idx: int| 0 <= idx < grown.len() ==> mix@[idx] == (
                if offset as int <= idx < offset as int + i {
                    clamp16(grown[idx] as int + clip@[idx - offset as int] as int) as i16
                } else {
                    grown[idx]
                }),
        decreases clip@.len() - i,
    {
        let frame128: i128 = offset + i as i128;
        if frame128 >= 0 {
            let frame: usize = frame128 as usize;
            let v = sat_add16(mix[frame], clip[i]);
            mix.set(frame, v);
        }
        i += 1;
    }
    proof {
        assert(mix@ =~= spec_place(pre, clip@, offset as int));
    }
}

/// The sample offset a phrase starts at when rendered at `rate`
/// frames per second: the floor of start seconds times the rate,
/// with starts kept in milliseconds.
pub open spec fn phrase_offset(p: Phrase, rate: int) -> int {
    (p.start_millis * rate) / 1000
}

/// The buffer length the engine allocates before any clip lands:
/// far enough to cover the start of every phrase whose offset is
/// addressable.
pub open spec fn spec_initial_len(ps: Seq<Phrase>, rate: int) -> int
    decreases ps.len(),
{
    if ps.len() == 0 {
        0
    } else {
        let rest = spec_initial_len(ps.drop_last(), rate);
        let o = phrase_offset(ps.last(), rate);
        let o2 = if 0 <= o <= usize::MAX { o } else { 0 };
        if o2 > rest {
            o2
        } else {
            rest
        }
    }
}

/// The samples one phrase contributes at the target rate: its
/// stored clip decoded, folded to mono and resampled.  A missing
/// or undecodable clip contributes nothing.
pub open spec fn spec_phrase_clip(vs: Seq<Voice>, p: Phrase, rate: int) -> Option<Seq<i16>> {
    match voice_lookup(vs, p.voice@) {
        Option::None => None,
        Option::Some(bytes) => match spec_parse_wav(bytes) {
            Option::None => None,
            Option::Some((c, r, samples)) => Some(spec_resample(spec_mono(samples, c), r, rate)),
        },
    }
}

/// One phrase accumulated into the buffer.  A phrase whose clip
/// would end past the addressable range is skipped whole.
pub open spec fn spec_mix_step(mix: Seq<i16>, vs: Seq<Voice>, p: Phrase, rate: int) -> Seq<i16> {
    match spec_phrase_clip(vs, p, rate) {
        Option::None => mix,
        Option::Some(clip) => {
            let o = phrase_offset(p, rate);
            if clip.len() <= usize::MAX && o + clip.len() <= usize::MAX {
                spec_place(mix, clip, o)
            } else {
                mix
            }
        },
    }
}

/// The phrases accumulated in order into a starting buffer.
pub open spec fn spec_mix_fold(
    mix: Seq<i16>,
    ps: Seq<Phrase>,
    vs: Seq<Voice>,
    rate: int,
) -> Seq<i16>
    decreases ps.len(),
{
    if ps.len() == 0 {
        mix
    } else {
        spec_mix_step(spec_mix_fold(mix, ps.drop_last(), vs, rate), vs, ps.last(), rate)
    }
}

/// The whole mixdown: what the engine's buffer holds for a phrase
/// list, a voice store and a target sample rate.
pub open spec fn spec_build_mix(ps: Seq<Phrase>, vs: Seq<Voice>, rate: int) -> Seq<i16> {
    if rate <= 0 {
        Seq::empty()
    } else {
        spec_mix_fold(zero_seq(spec_initial_len(ps, rate)), ps, vs, rate)
    }
}

/// The mixdown is a pure function of its inputs: the same phrases,
/// voices and target rate always rebuild the identical buffer.
pub proof fn lemma_mix_deterministic(
    m1: Seq<i16>,
    m2: Seq<i16>,
    ps: Seq<Phrase>,
    vs: Seq<Voice>,
    rate: int,
)
    requires
        m1 == spec_build_mix(ps, vs, rate),
        m2 == spec_build_mix(ps, vs, rate),
    ensures
        m1 == m2,
{
}

/// A signed value times a nonnegative one, bounded by the bounds.
proof fn lemma_mul_signed_bound(x: int, xb: int, y: int, yb: int)
    requires
        -xb <= x <= xb,
        0 <= y <= yb,
        0 <= xb,
    ensures
        -(xb * yb) <= x * y <= xb * yb,
{
    assert(-(xb * yb) <= x * y <= xb * yb) by (nonlinear_arith)
        requires
            -xb <= x <= xb,
            0 <= y <= yb,
            0 <= xb,
    {}
}

/// Computes a phrase's sample offset at the target rate.
fn phrase_offset_at(p: &Phrase, rate: u32) -> (o: i128)
    ensures
        o == phrase_offset(*p, rate as int),
        -39614081257132168796771975168 <= o <= 39614081257132168796771975168,
{
    proof {
        lemma_mul_signed_bound(
            p.start_millis as int,
            9223372036854775808,
            rate as int,
            4294967296,
        );
    }
    let a: i128 = (p.start_millis as i128) * (rate as i128);
    let o = div_floor(a, 1000);
    proof {
        let ai = a as int;
        lemma_fundamental_div_mod(ai, 1000);
        vstd::arithmetic::div_mod::lemma_mod_bound(ai, 1000);
        if ai >= 0 {
            vstd::arithmetic::div_mod::lemma_div_nonincreasing(ai, 1000);
            vstd::arithmetic::div_mod::lemma_div_pos_is_pos(ai, 1000);
        } else {
            // a negative dividend gives a nonpositive floor quotient
            assert(ai / 1000 <= 0) by (nonlinear_arith)
                requires
                    ai == 1000 * (ai / 1000) + ai % 1000,
                    0 <= ai % 1000 < 1000,
                    ai < 0,
            {}
            assert(ai / 1000 >= -39614081257132168796771975168) by (nonlinear_arith)
                requires
                    ai == 1000 * (ai / 1000) + ai % 1000,
                    0 <= ai % 1000 < 1000,
                    ai >= -39614081257132168796771975168,
            {}
        }
    }
    o
}

/// Builds the whole mix buffer for a phrase list against a voice
/// store at the host's sample rate.  Phrases without a stored or
/// decodable clip are skipped; every clip is folded to mono,
/// resampled, and accumulated with saturation at its offset.
pub fn build_mix(phrases: &Vec<Phrase>, voices: &Vec<Voice>, target_rate: u32) -> (mix: Vec<i16>)
    ensures
        mix@ == spec_build_mix(phrases@, voices@, target_rate as int),
{
    let ghost rate: int = target_rate as int;
    if target_rate == 0 {
        let mix: Vec<i16> = Vec::new();
        proof {
            assert(mix@ =~= spec_build_mix(phrases@, voices@, rate));
        }
        return mix;
    }
    // size the buffer to cover every addressable phrase start
    let mut init: usize = 0;
    let mut i: usize = 0;
    while i < phrases.len()
        invariant
            i <= phrases.len(),
            target_rate >= 1,
            rate == target_rate as int,
            init as int == spec_initial_len(phrases@.take(i as int), rate),
        decreases phrases.len() - i,
    {
        let o = phrase_offset_at(&phrases[i], target_rate);
        if 0 <= o && o <= usize::MAX as i128 {
            let ou = o as usize;
            if ou > init {
                init = ou;
            }
        }
        proof {
            assert(phrases@.take(i as int + 1).drop_last() =~= phrases@.take(i as int));
            assert(phrases@.take(i as int + 1).last() == phrases@[i as int]);
        }
        i += 1;
    }
    proof {
        assert(phrases@.take(phrases@.len() as int) =~= phrases@);
    }
    let mut mix: Vec<i16> = Vec::new();
    while mix.len() < init
        invariant
            mix@.len() <= init,
            mix@ =~= zero_seq(mix@.len() as int),
        decreases init - mix.len(),
    {
        mix.push(0i16);
        proof {
            assert(mix@ =~= zero_seq(mix@.len() as int));
        }
    }
    let ghost base = mix@;
    proof {
        assert(base == zero_seq(spec_initial_len(phrases@, rate)));
    }
    let mut j: usize = 0;
    while j < phrases.len()
        invariant
            j <= phrases.len(),
            target_rate >= 1,
            rate == target_rate as int,
            base == zero_seq(spec_initial_len(phrases@, rate)),
            mix@ == spec_mix_fold(base, phrases@.take(j as int), voices@, rate),
        decreases phrases.len() - j,
    {
        let ghost pre = mix@;
        let p = &phrases[j];
        match crate::store::find_voice(voices, &p.voice) {
            Option::None => {},
            Option::Some(bytes) => {
                match crate::wav::parse_wav(bytes) {
                    Option::None => {},
                    Option::Some(clip) => {
                        let mono = downmix_mono(&clip.samples, clip.channels);
                        proof {
                            vstd::arithmetic::mul::lemma_mul_upper_bound(
                                mono@.len() as int,
                                0xffff_ffff_ffff_ffff,
                                rate,
                                0x1_0000_0000,
                            );
                            vstd::arithmetic::div_mod::lemma_div_nonincreasing(
                                mono@.len() as int * rate,
                                clip.sample_rate as int,
                            );
                            vstd::arithmetic::div_mod::lemma_div_pos_is_pos(
                                mono@.len() as int * rate,
                                clip.sample_rate as int,
                            );
                        }
                        let rl: u128 = (mono.len() as u128) * (target_rate as u128)
                            / (clip.sample_rate as u128);
                        let o = phrase_offset_at(p, target_rate);
                        if rl <= usize::MAX as u128 && o + (rl as i128) <= usize::MAX as i128 {
                            let rs = resample_linear(&mono, clip.sample_rate, target_rate);
                            place_clip(&mut mix, &rs, o);
                        }
                    },
                }
            },
        }
        proof {
            assert(phrases@.take(j as int + 1).drop_last() =~= phrases@.take(j as int));
            assert(phrases@.take(j as int + 1).last() == phrases@[j as int]);
            assert(mix@ == spec_mix_step(pre, voices@, phrases@[j as int], rate));
        }
        j += 1;
    }
    proof {
        assert(phrases@.take(phrases@.len() as int) =~= phrases@);
    }
    mix
}

/// The live mix: a complete, internally consistent snapshot of the
/// rendered timeline at one sample rate.  Rebuilds happen against
/// private working storage and replace a buffer of this type whole,
/// so a reader never observes a partial rebuild.
pub struct MixBuffer {
    pub samples: Vec<i16>,
    pub sample_rate: u32,
}

impl MixBuffer {
    /// The silent, rate-less buffer the engine starts with.
    pub fn new() -> (m: MixBuffer)
        ensures
            m.samples@ =~= Seq::<i16>::empty(),
            m.sample_rate == 0,
    {
        MixBuffer { samples: Vec::new(), sample_rate: 0 }
    }

    /// A freshly rebuilt snapshot for the current state and rate.
    pub fn rebuilt(phrases: &Vec<Phrase>, voices: &Vec<Voice>, target_rate: u32) -> (m: MixBuffer)
        ensures
            m.samples@ == spec_build_mix(phrases@, voices@, target_rate as int),
            m.sample_rate == target_rate,
    {
        MixBuffer { samples: build_mix(phrases, voices, target_rate), sample_rate: target_rate }
    }
}

/// What one audio callback does with the mix.
#[derive(PartialEq, Eq, Structural, Debug, Clone, Copy)]
pub enum CallbackAction {
    Copy,
    Silence,
    Rebuild,
}

/// The callback's decision: silence when the buffer is mid-swap or
/// playback is idle, a rebuild when the host rate moved away from
/// the mix's rate, a copy otherwise.  The decision itself never
/// waits on anything.
pub fn callback_action(
    acquired: bool,
    mix_rate: u32,
    host_rate: u32,
    playing: bool,
    mix_len: usize,
) -> (a: CallbackAction)
    ensures
        a == if !acquired {
            CallbackAction::Silence
        } else if mix_rate != host_rate {
            CallbackAction::Rebuild
        } else if playing && mix_len > 0 {
            CallbackAction::Copy
        } else {
            CallbackAction::Silence
        },
{
    if !acquired {
        CallbackAction::Silence
    } else if mix_rate != host_rate {
        CallbackAction::Rebuild
    } else if playing && mix_len > 0 {
        CallbackAction::Copy
    } else {
        CallbackAction::Silence
    }
}

/// The block of samples the callback copies out for one cycle:
/// the mix from the playback position on, padded with silence past
/// the end of the mix.
pub fn render_block(mix: &Vec<i16>, start: usize, block_len: usize) -> (out: Vec<i16>)
    ensures
        out@.len() == block_len,
        forall|i: int| 0 <= i < block_len ==> out@[i] == (if start + i < mix@.len() {
            mix@[start + i]
        } else {
            0i16
        }),
{
    let n = mix.len();
    let mut out: Vec<i16> = Vec::new();
    let mut i: usize = 0;
    while i < block_len
        invariant
            i <= block_len,
            n == mix@.len(),
            out@.len() == i,
            forall|j: int| 0 <= j < i ==> out@[j] == (if start + j < mix@.len() {
                mix@[start + j]
            } else {
                0i16
            }),
        decreases block_len - i,
    {
        if start < n && i < n - start {
            out.push(mix[start + i]);
        } else {
            out.push(0i16);
        }
        i += 1;
    }
    out
}

/// Extending a frame sum by one sample appends that sample.
proof fn lemma_frame_sum_step(s: Seq<i16>, start: int, j: int)
    requires
        j >= 0,
    ensures
        frame_sum(s, start, j + 1) == frame_sum(s, start, j) + s[start + j],
    decreases j,
{
    if j > 0 {
        lemma_frame_sum_step(s, start + 1, j - 1);
        assert(frame_sum(s, start, j + 1) == s[start] + frame_sum(s, start + 1, j));
        assert(frame_sum(s, start, j) == s[start] + frame_sum(s, start + 1, j - 1));
    } else {
        assert(frame_sum(s, start, 1) == s[start] + frame_sum(s, start + 1, 0));
        assert(frame_sum(s, start + 1, 0) == 0);
    }
}

} // verus!
