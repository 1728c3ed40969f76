//! Selection of the inference device from command-line values.

use vstd::prelude::*;
use crate::text::chars_of;
use crate::numparse::{IntErrorKind, parse_i32_from, parse_usize_from, spec_parse_i32, spec_parse_usize};
use crate::text::{has_prefix, equals_str, str_prefix};

verus! {

/// The ONNX Runtime execution provider asked for on the command line.
#[derive(Debug, Clone, Copy, PartialEq, Eq, Structural)]
pub enum Provider {
    Auto,
    Cpu,
    Cuda,
}

/// Why a device value was refused.
#[derive(Debug, Clone, Copy, PartialEq, Eq, Structural)]
pub enum DeviceError {
    /// The value names a device kind but its index is not an integer.
    InvalidIndex(IntErrorKind),
    /// The value is none of the accepted forms.
    Unsupported,
}

/// A graphics device for the Burn backend.
#[derive(Debug, Clone, Copy, PartialEq, Eq, Structural)]
pub enum DeviceSpec {
    Default,
    Cpu,
    DiscreteGpu(usize),
    IntegratedGpu(usize),
}

/// The name under which a provider is reported: `Auto` runs on the CPU.
pub fn provider_label(provider: Provider) -> (label: &'static str)
    ensures
        label@ == (match provider {
            Provider::Auto | Provider::Cpu => "CPUExecutionProvider"@,
            Provider::Cuda => "CUDAExecutionProvider"@,
        }),
{
    match provider {
        Provider::Auto | Provider::Cpu => "CPUExecutionProvider",
        Provider::Cuda => "CUDAExecutionProvider",
    }
}

pub open spec fn index_result(r: Result<int, IntErrorKind>) -> Result<int, DeviceError> {
    match r {
        Ok(n) => Ok(n),
        Err(e) => Err(DeviceError::InvalidIndex(e)),
    }
}

/// The CUDA device index that `--device` names: `default` is device 0,
/// `cuda:N` is device N (a bad N is an error), and a bare integer N is
/// device N.
pub open spec fn spec_device_id(v: Seq<char>) -> Result<int, DeviceError> {
    if v == "default"@ {
        Ok(0)
    } else if has_prefix(v, "cuda:"@) {
        index_result(spec_parse_i32(v.skip("cuda:"@.len() as int)))
    } else {
        match spec_parse_i32(v) {
            Ok(n) => Ok(n),
            Err(_) => Err(DeviceError::Unsupported),
        }
    }
}

/// Parses the `--device` value of the ONNX Runtime tool.
pub fn parse_device_id(value: &str) -> (r: Result<i32, DeviceError>)
    ensures
        match r {
            Ok(n) => spec_device_id(value@) == Ok::<int, DeviceError>(n as int),
            Err(e) => spec_device_id(value@) == Err::<int, DeviceError>(e),
        },
{
    let v = chars_of(value);
    if equals_str(&v, "default") {
        return Ok(0);
    }
    match str_prefix(&v, "cuda:") {
        Some(n) => {
            return match parse_i32_from(&v, n) {
                Ok(i) => Ok(i),
                Err(e) => Err(DeviceError::InvalidIndex(e)),
            };
        },
        None => {},
    }
    assert(v@.skip(0) =~= v@);
    match parse_i32_from(&v, 0) {
        Ok(i) => Ok(i),
        Err(_) => Err(DeviceError::Unsupported),
    }
}

/// The Burn device that `--device` names: `default`, `cpu`,
/// `discrete:N` or `integrated:N` (a bad N is an error).
pub open spec fn spec_device(v: Seq<char>) -> Result<DeviceSpec, DeviceError> {
    if v == "default"@ {
        Ok(DeviceSpec::Default)
    } else if v == "cpu"@ {
        Ok(DeviceSpec::Cpu)
    } else if has_prefix(v, "discrete:"@) {
        match spec_parse_usize(v.skip("discrete:"@.len() as int)) {
            Ok(n) => Ok(DeviceSpec::DiscreteGpu(n as usize)),
            Err(e) => Err(DeviceError::InvalidIndex(e)),
        }
    } else if has_prefix(v, "integrated:"@) {
        match spec_parse_usize(v.skip("integrated:"@.len() as int)) {
            Ok(n) => Ok(DeviceSpec::IntegratedGpu(n as usize)),
            Err(e) => Err(DeviceError::InvalidIndex(e)),
        }
    } else {
        Err(DeviceError::Unsupported)
    }
}

/// Parses the `--device` value of the Burn tool.
pub fn parse_device(value: &str) -> (r: Result<DeviceSpec, DeviceError>)
    ensures
        r == spec_device(value@),
{
    let v = chars_of(value);
    if equals_str(&v, "default") {
        return Ok(DeviceSpec::Default);
    }
    if equals_str(&v, "cpu") {
        return Ok(DeviceSpec::Cpu);
    }
    match str_prefix(&v, "discrete:") {
        Some(n) => {
            return match parse_usize_from(&v, n) {
                Ok(i) => Ok(DeviceSpec::DiscreteGpu(i)),
                Err(e) => Err(DeviceError::InvalidIndex(e)),
            };
        },
        None => {},
    }
    match str_prefix(&v, "integrated:") {
        Some(n) => {
            return match parse_usize_from(&v, n) {
                Ok(i) => Ok(DeviceSpec::IntegratedGpu(i)),
                Err(e) => Err(DeviceError::InvalidIndex(e)),
            };
        },
        None => {},
    }
    Err(DeviceError::Unsupported)
}

} // verus!
