//! Audio utilities.
//!
//! Given the speech segments an engine detected, these functions extract the
//! raw samples the segments cover, or remove them and keep the rest.  Audio
//! is a buffer of signed 16-bit PCM samples tagged with its sample rate; a
//! segment's millisecond bounds are mapped to sample indices by
//! `index = ms * sample_rate / 1000`.

use vstd::prelude::*;

use crate::Error;
use crate::vad::SpeechTimestamps;
use crate::vad::seg_wf;

verus! {

/// Index of the sample at which millisecond `ms` begins, at sample rate `sr`.
pub open spec fn spec_sample_index(ms: u64, sr: u32) -> int {
    ms * sr / 1000
}

/// Both sample bounds of `ts` lie inside a buffer of `audio_len` samples.
pub open spec fn chunk_in_bounds(ts: SpeechTimestamps, audio_len: int, sr: u32) -> bool {
    &&& spec_sample_index(ts.start_ms, sr) < audio_len
    &&& spec_sample_index(ts.end_ms, sr) <= audio_len
}

/// Mapping milliseconds to sample indices preserves order.
pub proof fn lemma_sample_index_monotone(a: u64, b: u64, sr: u32)
    requires
        a <= b,
    ensures
        spec_sample_index(a, sr) <= spec_sample_index(b, sr),
{
    vstd::arithmetic::mul::lemma_mul_inequality(a as int, b as int, sr as int);
    vstd::arithmetic::div_mod::lemma_div_is_ordered(a as int * sr, b as int * sr, 1000);
}

/// Exact sample index of millisecond `ms`, computed without overflow.
fn sample_index_u128(ms: u64, sr: u32) -> (r: u128)
    ensures
        r == spec_sample_index(ms, sr),
{
    proof {
        assert((ms as int) * (sr as int) <= (u64::MAX as int) * (u32::MAX as int))
            by (nonlinear_arith)
            requires
                ms <= u64::MAX,
                sr <= u32::MAX,
        ;
    }
    (ms as u128) * (sr as u128) / 1000
}

/// Concatenation of the sample ranges that the segments cover, in order.
pub open spec fn collect_spec(tss: Seq<SpeechTimestamps>, audio: Seq<i16>, sr: u32) -> Seq<i16>
    decreases tss.len(),
{
    if tss.len() == 0 {
        Seq::empty()
    } else {
        let start = spec_sample_index(tss[0].start_ms, sr);
        let end = spec_sample_index(tss[0].end_ms, sr);
        audio.subrange(start, end) + collect_spec(tss.skip(1), audio, sr)
    }
}

/// Extract the audio that the speech segments cover and concatenate it, in
/// segment order.  A segment whose sample range leaves the buffer makes the
/// whole call fail with `Error::InvalidInput`.
pub fn collect_chunks(
    timestamps: &Vec<SpeechTimestamps>,
    audio: &Vec<i16>,
    sampling_rate: u32,
) -> (r: Result<Vec<i16>, Error>)
    requires
        forall|i: int| 0 <= i < timestamps@.len() ==> seg_wf(#[trigger] timestamps@[i]),
    ensures
        r is Ok <==> forall|i: int|
            0 <= i < timestamps@.len() ==> chunk_in_bounds(
                #[trigger] timestamps@[i],
                audio@.len() as int,
                sampling_rate,
            ),
        r matches Ok(v) ==> v@ == collect_spec(timestamps@, audio@, sampling_rate),
        r is Err ==> r == Result::<Vec<i16>, Error>::Err(Error::InvalidInput),
{
    let mut result: Vec<i16> = Vec::new();
    let len128 = audio.len() as u128;
    let n = timestamps.len();
    let mut i: usize = 0;
    proof {
        assert(timestamps@.skip(0) =~= timestamps@);
        assert(result@ + collect_spec(timestamps@, audio@, sampling_rate) =~= collect_spec(
            timestamps@,
            audio@,
            sampling_rate,
        ));
    }
    while i < n
        invariant
            n == timestamps@.len(),
            0 <= i <= n,
            len128 == audio@.len(),
            audio@.len() <= usize::MAX,
            forall|k: int| 0 <= k < timestamps@.len() ==> seg_wf(#[trigger] timestamps@[k]),
            forall|k: int|
                0 <= k < i ==> chunk_in_bounds(
                    #[trigger] timestamps@[k],
                    audio@.len() as int,
                    sampling_rate,
                ),
            result@ + collect_spec(timestamps@.skip(i as int), audio@, sampling_rate)
                == collect_spec(timestamps@, audio@, sampling_rate),
        decreases n - i,
    {
        let ts = timestamps[i];
        let start = sample_index_u128(ts.start_ms, sampling_rate);
        let end = sample_index_u128(ts.end_ms, sampling_rate);
        if start >= len128 || end > len128 {
            return Err(Error::InvalidInput);
        }
        proof {
            lemma_sample_index_monotone(ts.start_ms, ts.end_ms, sampling_rate);
            assert(timestamps@.skip(i as int)[0] == timestamps@[i as int]);
            assert(timestamps@.skip(i as int).skip(1) =~= timestamps@.skip(i as int + 1));
            assert(start <= usize::MAX as u128);
            assert(end <= usize::MAX as u128);
        }
        let s = start as usize;
        let e = end as usize;
        proof {
            assert(s == spec_sample_index(ts.start_ms, sampling_rate));
            assert(e == spec_sample_index(ts.end_ms, sampling_rate));
        }
        let ghost prev = result@;
        let mut j: usize = s;
        proof {
            assert(prev + audio@.subrange(s as int, j as int) =~= prev);
        }
        while j < e
            invariant
                s <= j <= e,
                e <= audio@.len(),
                result@ == prev + audio@.subrange(s as int, j as int),
            decreases e - j,
        {
            result.push(audio[j]);
            proof {
                assert(prev + audio@.subrange(s as int, j as int) + seq![audio@[j as int]]
                    =~= prev + audio@.subrange(s as int, j as int + 1));
            }
            j = j + 1;
        }
        proof {
            assert(result@ + collect_spec(timestamps@.skip(i as int + 1), audio@, sampling_rate)
                =~= collect_spec(timestamps@, audio@, sampling_rate));
        }
        i = i + 1;
    }
    proof {
        assert(timestamps@.skip(n as int) =~= Seq::<SpeechTimestamps>::empty());
        assert(result@ + collect_spec(timestamps@.skip(n as int), audio@, sampling_rate)
            =~= result@);
    }
    Ok(result)
}

/// What remains of `audio` from position `pos` on, once every sample range
/// that a segment covers is removed: the gap before each segment, then the
/// tail after the last one.
pub open spec fn drop_spec(
    tss: Seq<SpeechTimestamps>,
    audio: Seq<i16>,
    sr: u32,
    pos: int,
) -> Seq<i16>
    decreases tss.len(),
{
    if tss.len() == 0 {
        if pos < audio.len() {
            audio.subrange(pos, audio.len() as int)
        } else {
            Seq::empty()
        }
    } else {
        let start = spec_sample_index(tss[0].start_ms, sr);
        let end = spec_sample_index(tss[0].end_ms, sr);
        let gap = if pos < start {
            audio.subrange(pos, start)
        } else {
            Seq::empty()
        };
        gap + drop_spec(tss.skip(1), audio, sr, end)
    }
}

/// Remove the audio that the speech segments cover and concatenate what is
/// left, in order.  A segment whose sample range leaves the buffer makes the
/// whole call fail with `Error::InvalidInput`.
pub fn drop_chunks(
    timestamps: &Vec<SpeechTimestamps>,
    audio: &Vec<i16>,
    sampling_rate: u32,
) -> (r: Result<Vec<i16>, Error>)
    ensures
        r is Ok <==> forall|i: int|
            0 <= i < timestamps@.len() ==> chunk_in_bounds(
                #[trigger] timestamps@[i],
                audio@.len() as int,
                sampling_rate,
            ),
        r matches Ok(v) ==> v@ == drop_spec(timestamps@, audio@, sampling_rate, 0),
        r is Err ==> r == Result::<Vec<i16>, Error>::Err(Error::InvalidInput),
{
    let mut result: Vec<i16> = Vec::new();
    let len128 = audio.len() as u128;
    let n = timestamps.len();
    let mut i: usize = 0;
    let mut pos: usize = 0;
    proof {
        assert(timestamps@.skip(0) =~= timestamps@);
        assert(result@ + drop_spec(timestamps@, audio@, sampling_rate, 0) =~= drop_spec(
            timestamps@,
            audio@,
            sampling_rate,
            0,
        ));
    }
    while i < n
        invariant
            n == timestamps@.len(),
            0 <= i <= n,
            len128 == audio@.len(),
            audio@.len() <= usize::MAX,
            pos <= audio@.len(),
            forall|k: int|
                0 <= k < i ==> chunk_in_bounds(
                    #[trigger] timestamps@[k],
                    audio@.len() as int,
                    sampling_rate,
                ),
            result@ + drop_spec(timestamps@.skip(i as int), audio@, sampling_rate, pos as int)
                == drop_spec(timestamps@, audio@, sampling_rate, 0),
        decreases n - i,
    {
        let ts = timestamps[i];
        let start = sample_index_u128(ts.start_ms, sampling_rate);
        let end = sample_index_u128(ts.end_ms, sampling_rate);
        if start >= len128 || end > len128 {
            return Err(Error::InvalidInput);
        }
        proof {
            assert(timestamps@.skip(i as int)[0] == timestamps@[i as int]);
            assert(timestamps@.skip(i as int).skip(1) =~= timestamps@.skip(i as int + 1));
            assert(start <= usize::MAX as u128);
            assert(end <= usize::MAX as u128);
        }
        let s = start as usize;
        let e = end as usize;
        proof {
            assert(s == spec_sample_index(ts.start_ms, sampling_rate));
            assert(e == spec_sample_index(ts.end_ms, sampling_rate));
        }
        if pos < s {
            let ghost prev = result@;
            let mut j: usize = pos;
            proof {
                assert(prev + audio@.subrange(pos as int, j as int) =~= prev);
            }
            while j < s
                invariant
                    pos <= j <= s,
                    s <= audio@.len(),
                    result@ == prev + audio@.subrange(pos as int, j as int),
                decreases s - j,
            {
                result.push(audio[j]);
                proof {
                    assert(prev + audio@.subrange(pos as int, j as int) + seq![audio@[j as int]]
                        =~= prev + audio@.subrange(pos as int, j as int + 1));
                }
                j = j + 1;
            }
        }
        pos = e;
        proof {
            assert(result@ + drop_spec(
                timestamps@.skip(i as int + 1),
                audio@,
                sampling_rate,
                pos as int,
            ) =~= drop_spec(timestamps@, audio@, sampling_rate, 0));
        }
        i = i + 1;
    }
    let ghost prev = result@;
    let mut j: usize = pos;
    proof {
        assert(prev + audio@.subrange(pos as int, j as int) =~= prev);
    }
    while j < audio.len()
        invariant
            pos <= j <= audio@.len(),
            result@ == prev + audio@.subrange(pos as int, j as int),
        decreases audio@.len() - j,
    {
        result.push(audio[j]);
        proof {
            assert(prev + audio@.subrange(pos as int, j as int) + seq![audio@[j as int]]
                =~= prev + audio@.subrange(pos as int, j as int + 1));
        }
        j = j + 1;
    }
    proof {
        assert(timestamps@.skip(n as int) =~= Seq::<SpeechTimestamps>::empty());
        assert(result@ =~= prev + drop_spec(
            timestamps@.skip(n as int),
            audio@,
            sampling_rate,
            pos as int,
        ));
    }
    Ok(result)
}

} // verus!
