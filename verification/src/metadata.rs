//! The model's export metadata and its validation.

use vstd::prelude::*;

verus! {

/// The numbers that the exported model was built with. The compression
/// factor, a 32-bit float, is held by its IEEE-754 bit pattern.
#[derive(Debug, Clone, Copy, PartialEq, Eq, Structural)]
pub struct Metadata {
    pub chunk_size: usize,
    pub overlap_size: usize,
    pub sampling_rate: u32,
    pub n_fft: usize,
    pub hop_size: usize,
    pub win_size: usize,
    pub compress_factor_bits: u32,
    pub embed_dim: usize,
    pub burn_batch_size: usize,
}

/// Why metadata was refused.
#[derive(Debug, Clone, Copy, PartialEq, Eq, Structural)]
pub enum MetadataError {
    ChunkSizeZero,
    OverlapNotSmaller,
    FftSizeZero,
    WindowLargerThanFft,
    CompressFactorNotPositive,
    BatchSizeZero,
}

/// The batch size used when the metadata names none.
pub fn default_ort_batch_size() -> (n: usize)
    ensures
        n == 1,
{
    1
}

/// Whether the float with bit pattern `bits` compares `<= 0.0`: both zeros,
/// and every negative number (a NaN compares false).
pub open spec fn f32_bits_le_zero(bits: u32) -> bool {
    let magnitude = bits % 0x8000_0000;
    let negative = bits >= 0x8000_0000;
    magnitude == 0 || (negative && magnitude <= 0x7f80_0000)
}

/// The first rule that `m` breaks, in the order they are checked.
pub open spec fn metadata_check(m: Metadata) -> Result<(), MetadataError> {
    if m.chunk_size == 0 {
        Err(MetadataError::ChunkSizeZero)
    } else if m.overlap_size >= m.chunk_size {
        Err(MetadataError::OverlapNotSmaller)
    } else if m.n_fft == 0 || m.win_size == 0 || m.hop_size == 0 {
        Err(MetadataError::FftSizeZero)
    } else if m.win_size > m.n_fft {
        Err(MetadataError::WindowLargerThanFft)
    } else if f32_bits_le_zero(m.compress_factor_bits) {
        Err(MetadataError::CompressFactorNotPositive)
    } else if m.burn_batch_size == 0 {
        Err(MetadataError::BatchSizeZero)
    } else {
        Ok(())
    }
}

pub open spec fn valid_metadata(m: Metadata) -> bool {
    metadata_check(m) is Ok
}

/// Whether the float with bit pattern `bits` compares `<= 0.0`.
pub fn compress_factor_not_positive(bits: u32) -> (r: bool)
    ensures
        r == f32_bits_le_zero(bits),
{
    let magnitude = bits % 0x8000_0000;
    let negative = bits >= 0x8000_0000;
    magnitude == 0 || (negative && magnitude <= 0x7f80_0000)
}

/// Metadata is accepted exactly when every size it names is usable: a
/// non-empty chunk longer than its overlap, a non-empty transform, window and
/// hop with the window inside the transform, a compression factor that does
/// not compare `<= 0` (a positive number or NaN, by its bit pattern) and a
/// non-empty batch.
pub proof fn lemma_valid_metadata_sizes(m: Metadata)
    ensures
        valid_metadata(m) <==> {
            &&& m.chunk_size > 0
            &&& m.overlap_size < m.chunk_size
            &&& m.n_fft > 0
            &&& m.hop_size > 0
            &&& 0 < m.win_size <= m.n_fft
            &&& m.compress_factor_bits % 0x8000_0000 != 0
            &&& (m.compress_factor_bits < 0x8000_0000 || m.compress_factor_bits % 0x8000_0000
                > 0x7f80_0000)
            &&& m.burn_batch_size > 0
        },
{
}

/// Checks the metadata before any audio is processed.
pub fn validate_metadata(m: &Metadata) -> (r: Result<(), MetadataError>)
    ensures
        r == metadata_check(*m),
        r is Ok <==> {
            &&& m.chunk_size > 0
            &&& m.overlap_size < m.chunk_size
            &&& m.n_fft > 0
            &&& m.hop_size > 0
            &&& 0 < m.win_size <= m.n_fft
            &&& m.compress_factor_bits % 0x8000_0000 != 0
            &&& (m.compress_factor_bits < 0x8000_0000 || m.compress_factor_bits % 0x8000_0000
                > 0x7f80_0000)
            &&& m.burn_batch_size > 0
        },
        m.chunk_size > 0 && m.overlap_size < m.chunk_size && (m.n_fft == 0 || m.win_size == 0
            || m.hop_size == 0) ==> r == Err::<(), MetadataError>(MetadataError::FftSizeZero),
{
    if m.chunk_size == 0 {
        return Err(MetadataError::ChunkSizeZero);
    }
    if m.overlap_size >= m.chunk_size {
        return Err(MetadataError::OverlapNotSmaller);
    }
    if m.n_fft == 0 || m.win_size == 0 || m.hop_size == 0 {
        return Err(MetadataError::FftSizeZero);
    }
    if m.win_size > m.n_fft {
        return Err(MetadataError::WindowLargerThanFft);
    }
    if compress_factor_not_positive(m.compress_factor_bits) {
        return Err(MetadataError::CompressFactorNotPositive);
    }
    if m.burn_batch_size == 0 {
        return Err(MetadataError::BatchSizeZero);
    }
    Ok(())
}

/// Number of frequency bins of a one-sided spectrum of an `n_fft` transform.
pub open spec fn spec_freq_bins(n_fft: nat) -> nat {
    n_fft / 2 + 1
}

/// Number of frames of a model chunk: the STFT of `chunk_size` samples,
/// padded by `n_fft / 2` on each side, with the given hop.
pub open spec fn spec_model_frames(chunk_size: nat, hop_size: nat) -> nat
    recommends
        hop_size > 0,
{
    chunk_size / hop_size + 1
}

/// The shape `[batch, frequency bins, frames]` of the model's spectral
/// inputs.
pub fn model_input_dims(m: &Metadata) -> (dims: (usize, usize, usize))
    requires
        valid_metadata(*m),
        m.chunk_size / m.hop_size < usize::MAX,
    ensures
        dims.0 == m.burn_batch_size,
        dims.1 == spec_freq_bins(m.n_fft as nat),
        dims.2 == spec_model_frames(m.chunk_size as nat, m.hop_size as nat),
        dims.1 == m.n_fft / 2 + 1,
        dims.2 == m.chunk_size / m.hop_size + 1,
{
    (m.burn_batch_size, m.n_fft / 2 + 1, m.chunk_size / m.hop_size + 1)
}

} // verus!
