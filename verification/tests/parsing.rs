use g_map_se::device::{parse_device, parse_device_id, provider_label, DeviceError, DeviceSpec, Provider};
use g_map_se::metadata::{
    compress_factor_not_positive, default_ort_batch_size, model_input_dims, validate_metadata,
    Metadata, MetadataError,
};
use g_map_se::numparse::{parse_i32_from, parse_usize_from, IntErrorKind};
use g_map_se::text::{chars_of, equals_str, str_prefix};

fn std_kind(e: &std::num::ParseIntError) -> IntErrorKind {
    match e.kind() {
        std::num::IntErrorKind::Empty => IntErrorKind::Empty,
        std::num::IntErrorKind::InvalidDigit => IntErrorKind::InvalidDigit,
        std::num::IntErrorKind::PosOverflow => IntErrorKind::PosOverflow,
        std::num::IntErrorKind::NegOverflow => IntErrorKind::NegOverflow,
        _ => panic!("unexpected kind"),
    }
}

const SAMPLES: &[&str] = &[
    "", "0", "7", "+7", "-7", "+", "-", "12a", "a12", "007", "-0", "2147483647", "2147483648",
    "-2147483648", "-2147483649", "99999999999999999999x", "1 ", " 1", "18446744073709551615",
    "18446744073709551616", "-1", "+-1", "١٢", "4294967296",
];

#[test]
fn parse_i32_agrees_with_std() {
    for s in SAMPLES {
        let ours = parse_i32_from(&chars_of(s), 0);
        let theirs = s.parse::<i32>().map_err(|e| std_kind(&e));
        assert_eq!(ours, theirs, "input {s:?}");
    }
}

#[test]
fn parse_usize_agrees_with_std() {
    for s in SAMPLES {
        let ours = parse_usize_from(&chars_of(s), 0);
        let theirs = s.parse::<usize>().map_err(|e| std_kind(&e));
        assert_eq!(ours, theirs, "input {s:?}");
    }
}

#[test]
fn parse_from_offset() {
    assert_eq!(parse_i32_from(&chars_of("cuda:12"), 5), Ok(12));
    assert_eq!(parse_usize_from(&chars_of("x:"), 2), Err(IntErrorKind::Empty));
}

#[test]
fn device_id_forms() {
    assert_eq!(parse_device_id("default"), Ok(0));
    assert_eq!(parse_device_id("cuda:3"), Ok(3));
    assert_eq!(parse_device_id("5"), Ok(5));
    assert_eq!(parse_device_id("-2"), Ok(-2));
    assert_eq!(parse_device_id("cuda:x"), Err(DeviceError::InvalidIndex(IntErrorKind::InvalidDigit)));
    assert_eq!(parse_device_id("cuda:"), Err(DeviceError::InvalidIndex(IntErrorKind::Empty)));
    assert_eq!(
        parse_device_id("cuda:99999999999"),
        Err(DeviceError::InvalidIndex(IntErrorKind::PosOverflow))
    );
    assert_eq!(parse_device_id("gpu0"), Err(DeviceError::Unsupported));
    assert_eq!(parse_device_id(""), Err(DeviceError::Unsupported));
    assert_eq!(parse_device_id("Default"), Err(DeviceError::Unsupported));
}

#[test]
fn burn_device_forms() {
    assert_eq!(parse_device("default"), Ok(DeviceSpec::Default));
    assert_eq!(parse_device("cpu"), Ok(DeviceSpec::Cpu));
    assert_eq!(parse_device("discrete:1"), Ok(DeviceSpec::DiscreteGpu(1)));
    assert_eq!(parse_device("integrated:0"), Ok(DeviceSpec::IntegratedGpu(0)));
    assert_eq!(parse_device("integrated:+4"), Ok(DeviceSpec::IntegratedGpu(4)));
    assert_eq!(
        parse_device("discrete:-1"),
        Err(DeviceError::InvalidIndex(IntErrorKind::InvalidDigit))
    );
    assert_eq!(parse_device("discrete"), Err(DeviceError::Unsupported));
    assert_eq!(parse_device("cuda:0"), Err(DeviceError::Unsupported));
}

#[test]
fn provider_labels() {
    assert_eq!(provider_label(Provider::Auto), "CPUExecutionProvider");
    assert_eq!(provider_label(Provider::Cpu), "CPUExecutionProvider");
    assert_eq!(provider_label(Provider::Cuda), "CUDAExecutionProvider");
}

fn good_metadata() -> Metadata {
    Metadata {
        chunk_size: 32000,
        overlap_size: 8000,
        sampling_rate: 16000,
        n_fft: 400,
        hop_size: 100,
        win_size: 400,
        compress_factor_bits: 0.3f32.to_bits(),
        embed_dim: 192,
        burn_batch_size: default_ort_batch_size(),
    }
}

#[test]
fn default_batch_size_is_one() {
    assert_eq!(default_ort_batch_size(), 1);
}

#[test]
fn metadata_accepted() {
    assert_eq!(validate_metadata(&good_metadata()), Ok(()));
    assert_eq!(model_input_dims(&good_metadata()), (1, 201, 321));
}

#[test]
fn metadata_errors_in_order() {
    let mut m = good_metadata();
    m.chunk_size = 0;
    m.n_fft = 0;
    assert_eq!(validate_metadata(&m), Err(MetadataError::ChunkSizeZero));
    let mut m = good_metadata();
    m.overlap_size = m.chunk_size;
    assert_eq!(validate_metadata(&m), Err(MetadataError::OverlapNotSmaller));
    let mut m = good_metadata();
    m.hop_size = 0;
    assert_eq!(validate_metadata(&m), Err(MetadataError::FftSizeZero));
    let mut m = good_metadata();
    m.win_size = 401;
    assert_eq!(validate_metadata(&m), Err(MetadataError::WindowLargerThanFft));
    let mut m = good_metadata();
    m.compress_factor_bits = (-0.5f32).to_bits();
    assert_eq!(validate_metadata(&m), Err(MetadataError::CompressFactorNotPositive));
    let mut m = good_metadata();
    m.burn_batch_size = 0;
    assert_eq!(validate_metadata(&m), Err(MetadataError::BatchSizeZero));
}

#[test]
fn compress_factor_sign_matches_float_comparison() {
    let values = [
        0.0f32,
        -0.0,
        1.0,
        -1.0,
        f32::MIN_POSITIVE,
        -f32::MIN_POSITIVE,
        1e-45,
        -1e-45,
        f32::INFINITY,
        f32::NEG_INFINITY,
        f32::NAN,
        -f32::NAN,
        f32::MAX,
        f32::MIN,
    ];
    for v in values {
        assert_eq!(compress_factor_not_positive(v.to_bits()), v <= 0.0, "value {v:?}");
    }
}

#[test]
fn string_comparisons() {
    assert!(equals_str(&chars_of("cpu"), "cpu"));
    assert!(!equals_str(&chars_of("cpu"), "cpus"));
    assert_eq!(str_prefix(&chars_of("cuda:1"), "cuda:"), Some(5));
    assert_eq!(str_prefix(&chars_of("cud"), "cuda:"), None);
    assert_eq!(chars_of("añb"), vec!['a', 'ñ', 'b']);
}
