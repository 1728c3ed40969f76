//! Index bookkeeping of the short-time Fourier transform and of the model
//! inputs: reflection padding, frame counts, trimming and resizing. The
//! functions are generic over the sample type, which is only copied.

use vstd::prelude::*;
use crate::metadata::{Metadata, valid_metadata, spec_model_frames};

verus! {

/// Which input sample fills position `j` of a signal of `len >= 1` samples
/// padded by `pad` on each side: the signal mirrored at its ends (without
/// repeating the edge sample), clamped to the signal where `pad` is too
/// large to mirror.
pub open spec fn reflect_source(j: int, len: int, pad: int) -> int {
    if j < pad {
        if pad - j <= len - 1 {
            pad - j
        } else {
            len - 1
        }
    } else if j < pad + len {
        j - pad
    } else if len - 2 - (j - pad - len) >= 0 {
        len - 2 - (j - pad - len)
    } else {
        0
    }
}

/// `s` padded by `pad` samples on each side by reflection; an empty signal
/// becomes `2 * pad` copies of `fill`.
pub open spec fn spec_reflect_pad<T>(s: Seq<T>, pad: int, fill: T) -> Seq<T> {
    Seq::new(
        (s.len() + 2 * pad) as nat,
        |j: int|
            if s.len() == 0 {
                fill
            } else {
                s[reflect_source(j, s.len() as int, pad)]
            },
    )
}

/// Reflection padding keeps the signal in the middle and mirrors it at both
/// ends without repeating the edge samples, as long as the padding is
/// shorter than the signal.
pub proof fn lemma_reflect_pad_mirrors<T>(s: Seq<T>, pad: int, fill: T)
    requires
        0 <= pad < s.len(),
    ensures
        spec_reflect_pad(s, pad, fill).len() == s.len() + 2 * pad,
        forall|i: int| 0 <= i < s.len() ==> #[trigger] spec_reflect_pad(s, pad, fill)[pad + i] == s[i],
        forall|m: int|
            1 <= m <= pad ==> #[trigger] spec_reflect_pad(s, pad, fill)[pad - m] == s[m],
        forall|m: int|
            1 <= m <= pad ==> #[trigger] spec_reflect_pad(s, pad, fill)[pad + s.len() - 1 + m] == s[s.len() - 1 - m],
{
}

/// Writes `samples` padded by reflection into `padded`, replacing what it
/// held.
pub fn reflect_pad_into<T: Copy>(samples: &[T], pad: usize, fill: T, padded: &mut Vec<T>)
    requires
        samples@.len() + 2 * pad <= usize::MAX,
    ensures
        final(padded)@ == spec_reflect_pad(samples@, pad as int, fill),
        final(padded)@.len() == samples@.len() + 2 * pad,
        forall|i: int| 0 <= i < samples@.len() ==> #[trigger] final(padded)@[pad + i] == samples@[i],
        pad < samples@.len() ==> forall|m: int|
            1 <= m <= pad ==> #[trigger] final(padded)@[pad - m] == samples@[m],
        pad < samples@.len() ==> forall|m: int|
            1 <= m <= pad ==> #[trigger] final(padded)@[pad + samples@.len() - 1 + m] == samples@[samples@.len() - 1 - m],
        samples@.len() == 0 ==> forall|j: int| 0 <= j < 2 * pad ==> #[trigger] final(padded)@[j] == fill,
{
    proof {
        if pad < samples@.len() {
            lemma_reflect_pad_mirrors(samples@, pad as int, fill);
        }
    }
    let n = samples.len();
    let ghost target = spec_reflect_pad(samples@, pad as int, fill);
    padded.clear();
    if pad == 0 {
        let mut i: usize = 0;
        while i < n
            invariant
                n == samples@.len(),
                i <= n,
                padded@ == samples@.take(i as int),
            decreases n - i,
        {
            padded.push(samples[i]);
            i = i + 1;
        }
        assert(padded@ =~= target);
        return;
    }
    if n <= 1 {
        let value = if n == 1 {
            samples[0]
        } else {
            fill
        };
        let total = n + 2 * pad;
        let mut i: usize = 0;
        while i < total
            invariant
                i <= total,
                padded@.len() == i,
                forall|j: int| 0 <= j < i ==> #[trigger] padded@[j] == value,
            decreases total - i,
        {
            padded.push(value);
            i = i + 1;
        }
        assert(padded@ =~= target);
        return;
    }
    let mut index: usize = pad;
    while index > 0
        invariant
            n == samples@.len(),
            2 <= n,
            index <= pad,
            padded@.len() == pad - index,
            n + 2 * pad <= usize::MAX,
            forall|j: int| 0 <= j < pad - index ==> #[trigger] padded@[j] == target[j],
            target == spec_reflect_pad(samples@, pad as int, fill),
        decreases index,
    {
        let source = if index < n - 1 {
            index
        } else {
            n - 1
        };
        padded.push(samples[source]);
        index = index - 1;
    }
    let mut i: usize = 0;
    while i < n
        invariant
            n == samples@.len(),
            2 <= n,
            i <= n,
            padded@.len() == pad + i,
            n + 2 * pad <= usize::MAX,
            forall|j: int| 0 <= j < pad + i ==> #[trigger] padded@[j] == target[j],
            target == spec_reflect_pad(samples@, pad as int, fill),
        decreases n - i,
    {
        padded.push(samples[i]);
        i = i + 1;
    }
    let mut k: usize = 0;
    while k < pad
        invariant
            n == samples@.len(),
            2 <= n,
            k <= pad,
            padded@.len() == pad + n + k,
            n + 2 * pad <= usize::MAX,
            forall|j: int| 0 <= j < pad + n + k ==> #[trigger] padded@[j] == target[j],
            target == spec_reflect_pad(samples@, pad as int, fill),
        decreases pad - k,
    {
        let source = if n >= 2 + k {
            n - (2 + k)
        } else {
            0
        };
        padded.push(samples[source]);
        k = k + 1;
    }
    assert(padded@ =~= target);
}

/// `samples` padded by `pad` samples on each side by reflection.
pub fn reflect_pad<T: Copy>(samples: &[T], pad: usize, fill: T) -> (padded: Vec<T>)
    requires
        samples@.len() + 2 * pad <= usize::MAX,
    ensures
        padded@ == spec_reflect_pad(samples@, pad as int, fill),
        padded@.len() == samples@.len() + 2 * pad,
        forall|i: int| 0 <= i < samples@.len() ==> #[trigger] padded@[pad + i] == samples@[i],
        pad < samples@.len() ==> forall|m: int|
            1 <= m <= pad ==> #[trigger] padded@[pad - m] == samples@[m],
        pad < samples@.len() ==> forall|m: int|
            1 <= m <= pad ==> #[trigger] padded@[pad + samples@.len() - 1 + m] == samples@[samples@.len() - 1 - m],
{
    proof {
        if pad < samples@.len() {
            lemma_reflect_pad_mirrors(samples@, pad as int, fill);
        }
    }
    let mut padded: Vec<T> = Vec::new();
    reflect_pad_into(samples, pad, fill, &mut padded);
    padded
}

/// `s` cut or extended with `fill` to exactly `len` samples.
pub open spec fn spec_fit_length<T>(s: Seq<T>, len: int, fill: T) -> Seq<T> {
    Seq::new(len as nat, |i: int| if i < s.len() { s[i] } else { fill })
}

/// Resizes `values` to `len` samples: extra samples are dropped, missing ones
/// are `fill`.
pub fn fit_length<T: Copy>(values: &[T], len: usize, fill: T) -> (out: Vec<T>)
    ensures
        out@ == spec_fit_length(values@, len as int, fill),
        out@.len() == len,
        forall|i: int| 0 <= i < len && i < values@.len() ==> #[trigger] out@[i] == values@[i],
        forall|i: int| values@.len() <= i < len ==> #[trigger] out@[i] == fill,
{
    let mut out: Vec<T> = Vec::new();
    let mut i: usize = 0;
    while i < len
        invariant
            i <= len,
            out@.len() == i,
            forall|j: int|
                0 <= j < i ==> #[trigger] out@[j] == (if j < values@.len() {
                    values@[j]
                } else {
                    fill
                }),
        decreases len - i,
    {
        if i < values.len() {
            out.push(values[i]);
        } else {
            out.push(fill);
        }
        i = i + 1;
    }
    assert(out@ =~= spec_fit_length(values@, len as int, fill));
    out
}

/// Padding a signal to a longer length and cutting the result back to the
/// signal's length gives the signal back.
pub proof fn lemma_fit_length_round_trip<T>(s: Seq<T>, size: int, fill: T)
    requires
        s.len() <= size,
    ensures
        spec_fit_length(spec_fit_length(s, size, fill), s.len() as int, fill) == s,
{
    assert(spec_fit_length(spec_fit_length(s, size, fill), s.len() as int, fill) =~= s);
}

/// The model input for samples `start..end` of `wav`: those samples, then
/// `fill` up to `size` samples.
pub fn padded_chunk<T: Copy>(wav: &[T], start: usize, end: usize, size: usize, fill: T) -> (out:
    Vec<T>)
    requires
        start <= end <= wav@.len(),
    ensures
        out@ == spec_fit_length(wav@.subrange(start as int, end as int), size as int, fill),
        out@.len() == size,
        forall|i: int| 0 <= i < size && i < end - start ==> #[trigger] out@[i] == wav@[start + i],
        forall|i: int| end - start <= i < size ==> #[trigger] out@[i] == fill,
{
    let mut piece: Vec<T> = Vec::new();
    let mut i: usize = start;
    while i < end
        invariant
            start <= i <= end <= wav@.len(),
            piece@ == wav@.subrange(start as int, i as int),
        decreases end - i,
    {
        piece.push(wav[i]);
        i = i + 1;
    }
    fit_length(piece.as_slice(), size, fill)
}

/// The model input of batch slot `slot`: the chunk of `wav` planned for that
/// slot padded with `fill` to `size` samples, or only `fill` when the batch
/// has fewer chunks than slots.
pub fn batch_slot_input<T: Copy>(
    wav: &[T],
    starts: &[usize],
    ends: &[usize],
    slot: usize,
    size: usize,
    fill: T,
) -> (out: Vec<T>)
    requires
        starts@.len() == ends@.len(),
        forall|i: int| 0 <= i < starts@.len() ==> #[trigger] starts@[i] <= ends@[i] <= wav@.len(),
    ensures
        slot < starts@.len() ==> out@ == spec_fit_length(
            wav@.subrange(starts@[slot as int] as int, ends@[slot as int] as int),
            size as int,
            fill,
        ),
        slot >= starts@.len() ==> out@ == spec_fit_length(Seq::<T>::empty(), size as int, fill),
        out@.len() == size,
        slot < starts@.len() ==> forall|i: int|
            0 <= i < size && i < ends@[slot as int] - starts@[slot as int] ==> #[trigger] out@[i]
                == wav@[starts@[slot as int] + i],
        slot < starts@.len() ==> forall|i: int|
            ends@[slot as int] - starts@[slot as int] <= i < size ==> #[trigger] out@[i] == fill,
        slot >= starts@.len() ==> forall|i: int| 0 <= i < size ==> #[trigger] out@[i] == fill,
{
    if slot < starts.len() {
        padded_chunk(wav, starts[slot], ends[slot], size, fill)
    } else {
        let empty: Vec<T> = Vec::new();
        fit_length(empty.as_slice(), size, fill)
    }
}

/// Row `row` of a row-major matrix with rows of `row_len` values.
pub fn matrix_row<T: Copy>(values: &[T], row: usize, row_len: usize) -> (out: Vec<T>)
    requires
        (row + 1) * row_len <= values@.len(),
    ensures
        out@ == values@.subrange(row * row_len, (row + 1) * row_len),
{
    let n = values.len();
    proof {
        assert((row + 1) * row_len == row * row_len + row_len) by (nonlinear_arith);
        assert(0 <= row * row_len) by (nonlinear_arith);
        assert(row * row_len + row_len <= values@.len());
    }
    let start = row * row_len;
    let end = start + row_len;
    let mut out: Vec<T> = Vec::new();
    let mut i: usize = start;
    while i < end
        invariant
            start <= i <= end <= values@.len(),
            out@ == values@.subrange(start as int, i as int),
        decreases end - i,
    {
        out.push(values[i]);
        i = i + 1;
    }
    out
}

/// `s` repeated `times` times, one copy after another.
pub open spec fn spec_repeat<T>(s: Seq<T>, times: nat) -> Seq<T>
    decreases times,
{
    if times == 0 {
        Seq::empty()
    } else {
        spec_repeat(s, (times - 1) as nat) + s
    }
}

proof fn lemma_repeat_len<T>(s: Seq<T>, times: nat)
    ensures
        spec_repeat(s, times).len() == times * s.len(),
    decreases times,
{
    if times > 0 {
        lemma_repeat_len(s, (times - 1) as nat);
        assert((times - 1) * s.len() + s.len() == times * s.len()) by (nonlinear_arith);
    } else {
        assert(times * s.len() == 0) by (nonlinear_arith)
            requires
                times == 0,
        ;
    }
}

/// Each row of a repeated embedding buffer is the embedding itself.
pub proof fn lemma_repeat_rows<T>(s: Seq<T>, times: nat, row: int)
    requires
        0 <= row < times,
    ensures
        spec_repeat(s, times).len() == times * s.len(),
        spec_repeat(s, times).subrange(row * s.len(), (row + 1) * s.len()) == s,
    decreases times,
{
    lemma_repeat_len(s, times);
    lemma_repeat_len(s, (times - 1) as nat);
    let prev = spec_repeat(s, (times - 1) as nat);
    assert((row + 1) * s.len() == row * s.len() + s.len()) by (nonlinear_arith);
    if row < times - 1 {
        lemma_repeat_rows(s, (times - 1) as nat, row);
        assert(row * s.len() + s.len() <= (times - 1) * s.len()) by (nonlinear_arith)
            requires
                row < times - 1,
        ;
        assert(spec_repeat(s, times).subrange(row * s.len(), (row + 1) * s.len()) =~= prev.subrange(
            row * s.len(),
            (row + 1) * s.len(),
        ));
    } else {
        assert(row * s.len() == (times - 1) * s.len());
        assert(spec_repeat(s, times).subrange(row * s.len(), (row + 1) * s.len()) =~= s);
    }
}

/// Element `c` of row `b` of a repeated embedding buffer is element `c` of
/// the embedding.
pub proof fn lemma_repeat_elements<T>(s: Seq<T>, times: nat)
    ensures
        spec_repeat(s, times).len() == times * s.len(),
        forall|b: int, c: int|
            0 <= b < times && 0 <= c < s.len() ==> #[trigger] spec_repeat(s, times)[b * s.len() + c]
                == s[c],
{
    lemma_repeat_len(s, times);
    assert forall|b: int, c: int|
        0 <= b < times && 0 <= c < s.len() implies #[trigger] spec_repeat(s, times)[b * s.len() + c]
            == s[c] by {
        lemma_repeat_rows(s, times, b);
        assert((b + 1) * s.len() == b * s.len() + s.len()) by (nonlinear_arith);
        assert(0 <= b * s.len()) by (nonlinear_arith)
            requires
                0 <= b,
        ;
        assert((b + 1) * s.len() <= times * s.len()) by (nonlinear_arith)
            requires
                b + 1 <= times,
        ;
        assert(spec_repeat(s, times).subrange(b * s.len(), (b + 1) * s.len())[c] == spec_repeat(
            s,
            times,
        )[b * s.len() + c]);
    }
}

/// The speaker embedding repeated once per batch entry, laid out as one
/// row per entry. `embed_dim` is the expected embedding length.
pub fn repeat_embedding<T: Copy>(embedding: &[T], embed_dim: usize, batch_size: usize) -> (out: Vec<T>)
    ensures
        out@ == spec_repeat(embedding@, batch_size as nat),
        out@.len() == batch_size * embedding@.len(),
        forall|b: int, c: int|
            0 <= b < batch_size && 0 <= c < embedding@.len() ==> #[trigger] out@[b * embedding@.len()
                + c] == embedding@[c],
{
    proof {
        lemma_repeat_elements(embedding@, batch_size as nat);
    }
    let capacity = match embed_dim.checked_mul(batch_size) {
        Some(n) => n,
        None => 0,
    };
    let mut out: Vec<T> = Vec::with_capacity(capacity);
    let mut b: usize = 0;
    while b < batch_size
        invariant
            b <= batch_size,
            out@ == spec_repeat(embedding@, b as nat),
        decreases batch_size - b,
    {
        let ghost before = out@;
        let mut i: usize = 0;
        while i < embedding.len()
            invariant
                i <= embedding@.len(),
                out@ == before + embedding@.take(i as int),
            decreases embedding@.len() - i,
        {
            out.push(embedding[i]);
            i = i + 1;
            assert(out@ =~= before + embedding@.take(i as int));
        }
        assert(embedding@.take(embedding@.len() as int) =~= embedding@);
        b = b + 1;
    }
    out
}

/// A feature matrix of `frames` rows brought to exactly `target_frames`
/// rows of `row_len` values: the first rows are kept, missing rows are
/// `fill`.
pub open spec fn spec_fix_frames<T>(
    features: Seq<T>,
    frames: int,
    row_len: int,
    target_frames: int,
    fill: T,
) -> Seq<T> {
    let kept = if frames <= target_frames {
        frames
    } else {
        target_frames
    };
    Seq::new(
        (target_frames * row_len) as nat,
        |i: int|
            if i < kept * row_len {
                features[i]
            } else {
                fill
            },
    )
}

/// Fixing the frame count keeps the leading rows in place: row `r` of the
/// result is row `r` of the input for every row both have, and the rows
/// past the input are `fill`.
pub proof fn lemma_fix_frames_rows<T>(
    features: Seq<T>,
    frames: int,
    row_len: int,
    target_frames: int,
    fill: T,
)
    requires
        0 <= frames,
        0 <= row_len,
        0 <= target_frames,
    ensures
        spec_fix_frames(features, frames, row_len, target_frames, fill).len() == target_frames * row_len,
        forall|r: int, c: int|
            0 <= r < frames && r < target_frames && 0 <= c < row_len ==> #[trigger] spec_fix_frames(
                features,
                frames,
                row_len,
                target_frames,
                fill,
            )[r * row_len + c] == features[r * row_len + c],
        forall|r: int, c: int|
            frames <= r < target_frames && 0 <= c < row_len ==> #[trigger] spec_fix_frames(
                features,
                frames,
                row_len,
                target_frames,
                fill,
            )[r * row_len + c] == fill,
{
    let out = spec_fix_frames(features, frames, row_len, target_frames, fill);
    let kept = if frames <= target_frames {
        frames
    } else {
        target_frames
    };
    assert(0 <= target_frames * row_len) by (nonlinear_arith)
        requires
            0 <= target_frames,
            0 <= row_len,
    ;
    assert forall|r: int, c: int|
        0 <= r < frames && r < target_frames && 0 <= c < row_len implies #[trigger] out[r * row_len
            + c] == features[r * row_len + c] by {
        assert(r * row_len + c < kept * row_len) by (nonlinear_arith)
            requires
                r < kept,
                0 <= c < row_len,
        ;
        assert(0 <= r * row_len + c) by (nonlinear_arith)
            requires
                0 <= r,
                0 <= c,
                0 <= row_len,
        ;
        assert(kept * row_len <= target_frames * row_len) by (nonlinear_arith)
            requires
                kept <= target_frames,
                0 <= row_len,
        ;
    }
    assert forall|r: int, c: int|
        frames <= r < target_frames && 0 <= c < row_len implies #[trigger] out[r * row_len + c]
            == fill by {
        assert(kept * row_len <= r * row_len + c) by (nonlinear_arith)
            requires
                kept <= frames <= r,
                0 <= c,
                0 <= row_len,
        ;
        assert(r * row_len + c < target_frames * row_len) by (nonlinear_arith)
            requires
                r < target_frames,
                0 <= c < row_len,
        ;
    }
}

/// Brings a row-major feature matrix of `frames` rows to `target_frames`
/// rows, dropping rows past the target and padding with `fill`.
pub fn fix_frames<T: Copy>(
    features: &[T],
    frames: usize,
    row_len: usize,
    target_frames: usize,
    fill: T,
) -> (out: Vec<T>)
    requires
        frames * row_len <= features@.len(),
        target_frames * row_len <= usize::MAX,
    ensures
        out@ == spec_fix_frames(features@, frames as int, row_len as int, target_frames as int, fill),
        out@.len() == target_frames * row_len,
        forall|r: int, c: int|
            0 <= r < frames && r < target_frames && 0 <= c < row_len ==> #[trigger] out@[r * row_len
                + c] == features@[r * row_len + c],
        forall|r: int, c: int|
            frames <= r < target_frames && 0 <= c < row_len ==> #[trigger] out@[r * row_len + c]
                == fill,
{
    proof {
        lemma_fix_frames_rows(features@, frames as int, row_len as int, target_frames as int, fill);
    }
    let kept = if frames <= target_frames {
        frames
    } else {
        target_frames
    };
    proof {
        assert(kept * row_len <= frames * row_len) by (nonlinear_arith)
            requires
                kept <= frames,
        ;
        assert(kept * row_len <= target_frames * row_len) by (nonlinear_arith)
            requires
                kept <= target_frames,
        ;
    }
    let copied = kept * row_len;
    let total = target_frames * row_len;
    let mut out: Vec<T> = Vec::new();
    let mut i: usize = 0;
    while i < total
        invariant
            i <= total,
            copied <= total,
            copied <= features@.len(),
            out@.len() == i,
            forall|j: int|
                0 <= j < i ==> #[trigger] out@[j] == (if j < copied {
                    features@[j]
                } else {
                    fill
                }),
        decreases total - i,
    {
        if i < copied {
            out.push(features[i]);
        } else {
            out.push(fill);
        }
        i = i + 1;
    }
    assert(out@ =~= spec_fix_frames(
        features@,
        frames as int,
        row_len as int,
        target_frames as int,
        fill,
    ));
    out
}

/// Number of frames of an STFT with window `n_fft` and hop `hop_size` over
/// `padded_len` samples.
pub open spec fn spec_stft_frames(padded_len: int, n_fft: int, hop_size: int) -> int {
    (padded_len - n_fft) / hop_size + 1
}

/// The frame count of a signal of `len` samples cut into frames of
/// `frame_length` every `frame_shift` samples (`len >= frame_length`): the
/// last counted frame ends inside the signal and one more would not.
pub proof fn lemma_frames_fit(len: int, frame_length: int, frame_shift: int)
    requires
        0 < frame_length <= len,
        0 < frame_shift,
    ensures
        ({
            let frames = (len - frame_length) / frame_shift + 1;
            &&& frames >= 1
            &&& (frames - 1) * frame_shift + frame_length <= len
            &&& len < frames * frame_shift + frame_length
        }),
{
    let q = (len - frame_length) / frame_shift;
    vstd::arithmetic::div_mod::lemma_fundamental_div_mod(len - frame_length, frame_shift);
    assert(q >= 0) by (nonlinear_arith)
        requires
            len - frame_length >= 0,
            frame_shift > 0,
            q == (len - frame_length) / frame_shift,
    ;
    assert((q + 1) * frame_shift == q * frame_shift + frame_shift) by (nonlinear_arith);
    assert(q * frame_shift == frame_shift * q) by (nonlinear_arith);
}

/// Number of STFT frames over `padded_len` (already padded) samples.
pub fn stft_frame_count(padded_len: usize, n_fft: usize, hop_size: usize) -> (frames: usize)
    requires
        0 < n_fft <= padded_len,
        0 < hop_size,
    ensures
        frames == spec_stft_frames(padded_len as int, n_fft as int, hop_size as int),
        frames >= 1,
        (frames - 1) * hop_size + n_fft <= padded_len < frames * hop_size + n_fft,
{
    proof {
        lemma_frames_fit(padded_len as int, n_fft as int, hop_size as int);
    }
    (padded_len - n_fft) / hop_size + 1
}

/// Why the spectrum of a chunk does not fit the model.
#[derive(Debug, Clone, Copy, PartialEq, Eq, Structural)]
pub struct FrameCountMismatch {
    pub got: usize,
    pub expected: usize,
}

/// Samples of a model chunk after reflection padding by `n_fft / 2` on
/// each side.
pub open spec fn spec_padded_chunk_len(m: Metadata) -> int {
    m.chunk_size + 2 * (m.n_fft / 2)
}

/// The number of STFT frames of one model chunk, refused when it differs
/// from the number of frames the model was exported with.
pub fn chunk_stft_frames(m: &Metadata) -> (r: Result<usize, FrameCountMismatch>)
    requires
        valid_metadata(*m),
        spec_padded_chunk_len(*m) <= usize::MAX,
        m.chunk_size / m.hop_size < usize::MAX,
    ensures
        ({
            let got = spec_stft_frames(spec_padded_chunk_len(*m), m.n_fft as int, m.hop_size as int);
            let expected = spec_model_frames(m.chunk_size as nat, m.hop_size as nat) as int;
            &&& got == expected ==> r == Ok::<usize, FrameCountMismatch>(got as usize)
            &&& got != expected ==> r == Err::<usize, FrameCountMismatch>(
                FrameCountMismatch { got: got as usize, expected: expected as usize },
            )
        }),
        r is Ok <==> (m.n_fft % 2 == 0 || m.chunk_size % m.hop_size != 0),
{
    proof {
        lemma_chunk_frames_match(m.chunk_size as int, m.n_fft as int, m.hop_size as int);
    }
    let padded_len = m.chunk_size + 2 * (m.n_fft / 2);
    let frames = stft_frame_count(padded_len, m.n_fft, m.hop_size);
    let expected = m.chunk_size / m.hop_size + 1;
    if frames != expected {
        Err(FrameCountMismatch { got: frames, expected })
    } else {
        Ok(frames)
    }
}

/// The STFT of one reflection-padded model chunk has exactly the number of
/// frames the model expects, unless `n_fft` is odd and the hop divides the
/// chunk size.
pub proof fn lemma_chunk_frames_match(chunk_size: int, n_fft: int, hop_size: int)
    requires
        chunk_size >= 1,
        n_fft >= 1,
        hop_size >= 1,
    ensures
        (spec_stft_frames(chunk_size + 2 * (n_fft / 2), n_fft, hop_size) == chunk_size / hop_size + 1)
            <==> (n_fft % 2 == 0 || chunk_size % hop_size != 0),
{
    let q = chunk_size / hop_size;
    let r = chunk_size % hop_size;
    vstd::arithmetic::div_mod::lemma_fundamental_div_mod(chunk_size, hop_size);
    assert(chunk_size + 2 * (n_fft / 2) - n_fft == chunk_size - n_fft % 2);
    if n_fft % 2 != 0 {
        if r != 0 {
            vstd::arithmetic::div_mod::lemma_fundamental_div_mod_converse(
                chunk_size - 1,
                hop_size,
                q,
                r - 1,
            );
        } else {
            assert(q >= 1) by (nonlinear_arith)
                requires
                    chunk_size == hop_size * q,
                    chunk_size >= 1,
                    hop_size >= 1,
            ;
            assert(chunk_size - 1 == (q - 1) * hop_size + (hop_size - 1)) by (nonlinear_arith)
                requires
                    chunk_size == hop_size * q,
            ;
            vstd::arithmetic::div_mod::lemma_fundamental_div_mod_converse(
                chunk_size - 1,
                hop_size,
                q - 1,
                hop_size - 1,
            );
        }
    }
}

/// Every window of an inverse STFT with `frames` frames, placed at
/// `frame * hop_size` and centred in an `n_fft` frame, lies inside the
/// overlap-added signal of `n_fft + hop_size * (frames - 1)` samples.
pub proof fn lemma_istft_frame_bounds(
    n_fft: int,
    win_size: int,
    hop_size: int,
    frames: int,
    frame: int,
    index: int,
)
    requires
        0 < win_size <= n_fft,
        0 < hop_size,
        0 <= frame < frames,
        0 <= index < win_size,
    ensures
        0 <= frame * hop_size + (n_fft - win_size) / 2 + index < n_fft + hop_size * (frames - 1),
{
    assert(0 <= frame * hop_size <= hop_size * (frames - 1)) by (nonlinear_arith)
        requires
            0 <= frame <= frames - 1,
            0 < hop_size,
    ;
}

/// Every window of the STFT of `padded_len` samples lies inside the padded
/// signal.
pub proof fn lemma_stft_frame_bounds(
    padded_len: int,
    n_fft: int,
    win_size: int,
    hop_size: int,
    frame: int,
    index: int,
)
    requires
        0 < win_size <= n_fft <= padded_len,
        0 < hop_size,
        0 <= frame < spec_stft_frames(padded_len, n_fft, hop_size),
        0 <= index < win_size,
    ensures
        0 <= frame * hop_size + (n_fft - win_size) / 2 + index < padded_len,
{
    let frames = spec_stft_frames(padded_len, n_fft, hop_size);
    lemma_istft_frame_bounds(n_fft, win_size, hop_size, frames, frame, index);
    vstd::arithmetic::div_mod::lemma_fundamental_div_mod(padded_len - n_fft, hop_size);
    assert(hop_size * (frames - 1) <= padded_len - n_fft) by (nonlinear_arith)
        requires
            frames - 1 == (padded_len - n_fft) / hop_size,
            padded_len - n_fft == hop_size * ((padded_len - n_fft) / hop_size) + (padded_len
                - n_fft) % hop_size,
            (padded_len - n_fft) % hop_size >= 0,
    ;
}

/// Length of the overlap-added signal of `frames` inverse-transformed
/// frames.
pub fn istft_padded_len(n_fft: usize, hop_size: usize, frames: usize) -> (len: usize)
    requires
        frames >= 1,
        n_fft + hop_size * (frames - 1) <= usize::MAX,
    ensures
        len == n_fft + hop_size * (frames - 1),
{
    n_fft + hop_size * (frames - 1)
}

/// The `output_len` samples of an overlap-added signal that follow the
/// `n_fft / 2` samples of padding, or as many as there are.
pub open spec fn spec_trim_padding<T>(s: Seq<T>, n_fft: int, output_len: int) -> Seq<T> {
    let start = n_fft / 2;
    let end = if start + output_len <= s.len() {
        start + output_len
    } else {
        s.len() as int
    };
    s.subrange(start, end)
}

/// Trimming keeps the samples that follow the `n_fft / 2` leading padding,
/// in order: `output_len` of them when there are that many, otherwise all
/// that remain.
pub proof fn lemma_trim_padding_window<T>(s: Seq<T>, n_fft: int, output_len: int)
    requires
        0 <= n_fft,
        0 <= output_len,
        n_fft / 2 <= s.len(),
    ensures
        spec_trim_padding(s, n_fft, output_len).len() == (if output_len <= s.len() - n_fft / 2 {
            output_len
        } else {
            s.len() - n_fft / 2
        }),
        forall|i: int|
            0 <= i < spec_trim_padding(s, n_fft, output_len).len() ==> #[trigger] spec_trim_padding(
                s,
                n_fft,
                output_len,
            )[i] == s[n_fft / 2 + i],
{
}

/// Drops the reflection padding from an inverse STFT result.
pub fn trim_padding<T: Copy>(output: &[T], n_fft: usize, output_len: usize) -> (out: Vec<T>)
    requires
        n_fft / 2 <= output@.len(),
    ensures
        out@ == spec_trim_padding(output@, n_fft as int, output_len as int),
        out@.len() == (if output_len <= output@.len() - n_fft / 2 {
            output_len as int
        } else {
            output@.len() - n_fft / 2
        }),
        forall|i: int| 0 <= i < out@.len() ==> #[trigger] out@[i] == output@[n_fft / 2 + i],
{
    proof {
        lemma_trim_padding_window(output@, n_fft as int, output_len as int);
    }
    let start = n_fft / 2;
    let end = if output_len <= output.len() - start {
        start + output_len
    } else {
        output.len()
    };
    let mut out: Vec<T> = Vec::new();
    let mut i: usize = start;
    while i < end
        invariant
            start <= i <= end <= output@.len(),
            out@ == output@.subrange(start as int, i as int),
        decreases end - i,
    {
        out.push(output[i]);
        i = i + 1;
    }
    out
}

/// Why filterbank features could not be computed.
#[derive(Debug, Clone, Copy, PartialEq, Eq, Structural)]
pub enum FbankError {
    /// The audio has no samples.
    EmptyAudio,
    /// The feature extractor produced no frame.
    NoFrames,
    /// A frame does not have one value per mel bin.
    DimensionMismatch { got: usize, expected: usize },
}

/// Number of filterbank frames of `len` samples with the given frame length
/// and shift; a signal shorter than one frame still gives one frame.
pub open spec fn spec_fbank_frames(len: int, frame_length: int, frame_shift: int) -> int {
    if len >= frame_length {
        1 + (len - frame_length) / frame_shift
    } else {
        1
    }
}

/// The number of filterbank frames of `len` samples; empty audio is
/// refused.
pub fn fbank_frame_count(len: usize, frame_length: usize, frame_shift: usize) -> (r: Result<
    usize,
    FbankError,
>)
    requires
        frame_shift > 0,
        frame_length > 0,
    ensures
        len == 0 ==> r == Err::<usize, FbankError>(FbankError::EmptyAudio),
        len > 0 ==> r == Ok::<usize, FbankError>(
            spec_fbank_frames(len as int, frame_length as int, frame_shift as int) as usize,
        ),
        r matches Ok(n) ==> n >= 1 && (len < frame_length ==> n == 1) && (len >= frame_length ==> (
        n - 1) * frame_shift + frame_length <= len < n * frame_shift + frame_length),
{
    proof {
        if len >= frame_length {
            lemma_frames_fit(len as int, frame_length as int, frame_shift as int);
        }
    }
    if len == 0 {
        return Err(FbankError::EmptyAudio);
    }
    if len >= frame_length {
        Ok(1 + (len - frame_length) / frame_shift)
    } else {
        Ok(1)
    }
}

/// Checks the frames produced by the filterbank extractor: there must be at
/// least one, each with `mel_bins` values (`frame_lens` holds their sizes).
pub fn check_fbank_frames(frame_lens: &[usize], mel_bins: usize) -> (r: Result<(), FbankError>)
    ensures
        frame_lens@.len() == 0 ==> r == Err::<(), FbankError>(FbankError::NoFrames),
        frame_lens@.len() > 0 ==> match r {
            Ok(()) => forall|i: int| 0 <= i < frame_lens@.len() ==> #[trigger] frame_lens@[i] == mel_bins,
            Err(e) => exists|i: int|
                0 <= i < frame_lens@.len() && #[trigger] frame_lens@[i] != mel_bins
                    && e == FbankError::DimensionMismatch { got: frame_lens@[i], expected: mel_bins }
                    && forall|j: int| 0 <= j < i ==> #[trigger] frame_lens@[j] == mel_bins,
        },
{
    if frame_lens.len() == 0 {
        return Err(FbankError::NoFrames);
    }
    let mut i: usize = 0;
    while i < frame_lens.len()
        invariant
            i <= frame_lens@.len(),
            forall|j: int| 0 <= j < i ==> #[trigger] frame_lens@[j] == mel_bins,
        decreases frame_lens@.len() - i,
    {
        if frame_lens[i] != mel_bins {
            return Err(FbankError::DimensionMismatch { got: frame_lens[i], expected: mel_bins });
        }
        i = i + 1;
    }
    Ok(())
}

} // verus!
