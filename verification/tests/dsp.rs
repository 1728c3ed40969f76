use g_map_se::metadata::Metadata;
use g_map_se::signal::{
    batch_slot_input, check_fbank_frames, chunk_stft_frames, fbank_frame_count, fit_length,
    fix_frames, istft_padded_len, matrix_row, padded_chunk, reflect_pad, reflect_pad_into,
    repeat_embedding, stft_frame_count, trim_padding, FbankError, FrameCountMismatch,
};

#[test]
fn reflect_pad_mirrors() {
    assert_eq!(reflect_pad(&[1, 2, 3, 4], 2, 0), vec![3, 2, 1, 2, 3, 4, 3, 2]);
    assert_eq!(reflect_pad(&[1, 2, 3], 0, 0), vec![1, 2, 3]);
}

#[test]
fn reflect_pad_short_inputs() {
    assert_eq!(reflect_pad::<i32>(&[], 2, 0), vec![0, 0, 0, 0]);
    assert_eq!(reflect_pad(&[7], 2, 0), vec![7, 7, 7, 7, 7]);
    assert_eq!(reflect_pad(&[1, 2], 3, 0), vec![2, 2, 2, 1, 2, 1, 1, 1]);
}

#[test]
fn reflect_pad_into_replaces_buffer() {
    let mut buffer = vec![9.0f32; 9];
    reflect_pad_into(&[1.0f32, 2.0, 3.0], 1, 0.0, &mut buffer);
    assert_eq!(buffer, vec![2.0, 1.0, 2.0, 3.0, 2.0]);
}

#[test]
fn fit_length_pads_and_cuts() {
    assert_eq!(fit_length(&[1, 2, 3], 5, 0), vec![1, 2, 3, 0, 0]);
    assert_eq!(fit_length(&[1, 2, 3], 2, 0), vec![1, 2]);
    let padded = fit_length(&[4, 5], 6, 0);
    assert_eq!(fit_length(&padded, 2, 0), vec![4, 5]);
}

#[test]
fn chunk_inputs() {
    let wav = [1, 2, 3, 4, 5, 6];
    assert_eq!(padded_chunk(&wav, 4, 6, 4, 0), vec![5, 6, 0, 0]);
    assert_eq!(batch_slot_input(&wav, &[0, 3], &[4, 6], 1, 4, 0), vec![4, 5, 6, 0]);
    assert_eq!(batch_slot_input(&wav, &[0, 3], &[4, 6], 3, 4, 0), vec![0, 0, 0, 0]);
}

#[test]
fn matrix_rows() {
    let m = [1, 2, 3, 4, 5, 6];
    assert_eq!(matrix_row(&m, 0, 3), vec![1, 2, 3]);
    assert_eq!(matrix_row(&m, 1, 3), vec![4, 5, 6]);
}

#[test]
fn embedding_repeated_per_batch_entry() {
    assert_eq!(repeat_embedding(&[1, 2], 2, 3), vec![1, 2, 1, 2, 1, 2]);
    assert_eq!(repeat_embedding(&[1, 2], 2, 0), Vec::<i32>::new());
}

#[test]
fn fixed_frames() {
    let feats = [1, 2, 3, 4, 5, 6];
    assert_eq!(fix_frames(&feats, 3, 2, 2, 0), vec![1, 2, 3, 4]);
    assert_eq!(fix_frames(&feats, 3, 2, 4, 0), vec![1, 2, 3, 4, 5, 6, 0, 0]);
}

#[test]
fn stft_frames() {
    assert_eq!(stft_frame_count(32000 + 400, 400, 100), 321);
    assert_eq!(stft_frame_count(10, 4, 3), 3);
}

fn metadata(chunk_size: usize, n_fft: usize, hop_size: usize) -> Metadata {
    Metadata {
        chunk_size,
        overlap_size: 0,
        sampling_rate: 16000,
        n_fft,
        hop_size,
        win_size: n_fft,
        compress_factor_bits: 0.3f32.to_bits(),
        embed_dim: 4,
        burn_batch_size: 1,
    }
}

#[test]
fn chunk_frames_match_model() {
    assert_eq!(chunk_stft_frames(&metadata(32000, 400, 100)), Ok(321));
    assert_eq!(chunk_stft_frames(&metadata(1000, 401, 7)), Ok(143));
    assert_eq!(
        chunk_stft_frames(&metadata(1000, 401, 100)),
        Err(FrameCountMismatch { got: 10, expected: 11 })
    );
}

#[test]
fn istft_layout() {
    assert_eq!(istft_padded_len(400, 100, 321), 32400);
    let out: Vec<usize> = (0..10).collect();
    assert_eq!(trim_padding(&out, 4, 3), vec![2, 3, 4]);
    assert_eq!(trim_padding(&out, 4, 30), vec![2, 3, 4, 5, 6, 7, 8, 9]);
}

#[test]
fn fbank_frames() {
    assert_eq!(fbank_frame_count(0, 400, 160), Err(FbankError::EmptyAudio));
    assert_eq!(fbank_frame_count(100, 400, 160), Ok(1));
    assert_eq!(fbank_frame_count(16000, 400, 160), Ok(98));
    assert_eq!(check_fbank_frames(&[], 80), Err(FbankError::NoFrames));
    assert_eq!(check_fbank_frames(&[80, 80], 80), Ok(()));
    assert_eq!(
        check_fbank_frames(&[80, 79, 3], 80),
        Err(FbankError::DimensionMismatch { got: 79, expected: 80 })
    );
}

#[test]
fn stft_windows_stay_inside_signal() {
    for (len, n_fft, win, hop) in [(100usize, 16usize, 12usize, 5usize), (33, 9, 9, 4), (1, 8, 3, 8)] {
        let padded = len + 2 * (n_fft / 2);
        let frames = stft_frame_count(padded, n_fft, hop);
        let last = (frames - 1) * hop + (n_fft - win) / 2 + win - 1;
        assert!(last < padded);
        assert!(last < istft_padded_len(n_fft, hop, frames));
    }
}
