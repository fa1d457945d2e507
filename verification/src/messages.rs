//! What errors say.

use crate::cli::CliError;
use crate::cli_plan::sizes_joined;
use crate::config::{ConfigError, SUPPORTED_N_FFT};
use crate::device::{Device, DeviceError};
use crate::html::str_views;
use crate::pages::{fill, filled};
use crate::spec_list::ListError;
use crate::text::{decimal, joined, usize_text};
use vstd::prelude::*;

verus! {

pub const NOT_POWER: [&'static str; 2] = ["n_fft must be a power of two, got ", ""];

pub const UNSUPPORTED: [&'static str; 3] = ["unsupported n_fft=", "; supported: ", ""];

pub const UNKNOWN_DIRECTION: [&'static str; 2] = [
    "unknown transform direction: ",
    " (use fft|ifft)",
];

pub const UNKNOWN_SCHEDULE: [&'static str; 2] = [
    "unknown schedule ",
    " (use single,round_robin,random,balanced)",
];

/// What an error of a configuration says.
pub open spec fn config_text(e: ConfigError) -> Seq<char> {
    match e {
        ConfigError::NotPowerOfTwo { n_fft } => filled(
            str_views(NOT_POWER@),
            seq![decimal(n_fft as nat)],
        ),
        ConfigError::TooSmall => "n_fft must be at least 4"@,
        ConfigError::EmptyBatch => "batch must be >= 1"@,
        ConfigError::NotANumber => "n_fft: usize"@,
        ConfigError::Unsupported { n_fft } => filled(
            str_views(UNSUPPORTED@),
            seq![
                decimal(n_fft as nat),
                joined(crate::ablation_csv::decimals(SUPPORTED_N_FFT@), ", "@),
            ],
        ),
        ConfigError::UnknownDirection { name } => filled(
            str_views(UNKNOWN_DIRECTION@),
            seq![name@],
        ),
        ConfigError::UnknownSchedule { name } => filled(str_views(UNKNOWN_SCHEDULE@), seq![name@]),
        ConfigError::NoSchedules => "schedules list is empty"@,
    }
}

fn one(parts: &[&str], field: &str) -> (r: String)
    requires
        parts@.len() == 2,
    ensures
        r@ == filled(str_views(parts@), seq![field@]),
{
    let f = [field];
    assert(str_views(f@) =~= seq![field@]);
    fill(parts, &f)
}

fn two(parts: &[&str], a: &str, b: &str) -> (r: String)
    requires
        parts@.len() == 3,
    ensures
        r@ == filled(str_views(parts@), seq![a@, b@]),
{
    let f = [a, b];
    assert(str_views(f@) =~= seq![a@, b@]);
    fill(parts, &f)
}

impl ConfigError {
    /// What the error says.
    pub fn message(&self) -> (r: String)
        ensures
            r@ == config_text(*self),
    {
        match self {
            ConfigError::NotPowerOfTwo { n_fft } => one(&NOT_POWER, usize_text(*n_fft).as_str()),
            ConfigError::TooSmall => "n_fft must be at least 4".to_owned(),
            ConfigError::EmptyBatch => "batch must be >= 1".to_owned(),
            ConfigError::NotANumber => "n_fft: usize".to_owned(),
            ConfigError::Unsupported { n_fft } => two(
                &UNSUPPORTED,
                usize_text(*n_fft).as_str(),
                sizes_joined(", ").as_str(),
            ),
            ConfigError::UnknownDirection { name } => one(&UNKNOWN_DIRECTION, name.as_str()),
            ConfigError::UnknownSchedule { name } => one(&UNKNOWN_SCHEDULE, name.as_str()),
            ConfigError::NoSchedules => "schedules list is empty".to_owned(),
        }
    }
}

pub const BAD_VALUE: [&'static str; 3] = ["", " value ", ""];

pub const NO_VALUE: [&'static str; 2] = ["", " must list at least one value"];

pub const NO_POWER: [&'static str; 4] = [
    "",
    " range ",
    "-",
    " contains no power-of-two batch sizes",
];

/// What an error of a list says.
pub open spec fn list_text(e: ListError) -> Seq<char> {
    match e {
        ListError::BadValue { label, part } => filled(
            str_views(BAD_VALUE@),
            seq![label@, part@],
        ),
        ListError::NoValue { label } => filled(str_views(NO_VALUE@), seq![label@]),
        ListError::NoPower { label, lo, hi } => filled(
            str_views(NO_POWER@),
            seq![label@, decimal(lo as nat), decimal(hi as nat)],
        ),
    }
}

impl ListError {
    /// What the error says.
    pub fn message(&self) -> (r: String)
        ensures
            r@ == list_text(*self),
    {
        match self {
            ListError::BadValue { label, part } => two(
                &BAD_VALUE,
                label.as_str(),
                part.as_str(),
            ),
            ListError::NoValue { label } => one(&NO_VALUE, label.as_str()),
            ListError::NoPower { label, lo, hi } => {
                let a = usize_text(*lo);
                let b = usize_text(*hi);
                let f = [label.as_str(), a.as_str(), b.as_str()];
                assert(str_views(f@) =~= seq![label@, a@, b@]);
                fill(&NO_POWER, &f)
            },
        }
    }
}

/// The names that a device can be asked for by.
pub const STANDARD_DEVICE_NAMES: &'static str = "auto|cpu|metal|mps|mlx|cuda|rocm|hip|gpu|wgpu|vulkan";

pub const UNKNOWN_DEVICE: [&'static str; 3] = ["parse --device ", " (", "|auto)"];

pub const NOT_AVAILABLE: [&'static str; 2] = [
    "rlx-fft: ",
    " is not available — build with the matching feature or pass `--device cpu`",
];

/// The full name of a device.
pub open spec fn device_title(d: Device) -> Seq<char> {
    match d {
        Device::Cpu => "Cpu"@,
        Device::Metal => "Metal"@,
        Device::Mlx => "Mlx"@,
        Device::Ane => "Ane"@,
        Device::Cuda => "Cuda"@,
        Device::Rocm => "Rocm"@,
        Device::Xdna => "Xdna"@,
        Device::Egpu => "Egpu"@,
        Device::OneApi => "OneApi"@,
        Device::Tpu => "Tpu"@,
        Device::Hexagon => "Hexagon"@,
        Device::Gpu => "Gpu"@,
        Device::Vulkan => "Vulkan"@,
        Device::OpenGl => "OpenGl"@,
        Device::DirectX => "DirectX"@,
        Device::WebGpu => "WebGpu"@,
    }
}

impl Device {
    /// The full name of the device.
    pub fn title(self) -> (r: &'static str)
        ensures
            r@ == device_title(self),
    {
        match self {
            Device::Cpu => "Cpu",
            Device::Metal => "Metal",
            Device::Mlx => "Mlx",
            Device::Ane => "Ane",
            Device::Cuda => "Cuda",
            Device::Rocm => "Rocm",
            Device::Xdna => "Xdna",
            Device::Egpu => "Egpu",
            Device::OneApi => "OneApi",
            Device::Tpu => "Tpu",
            Device::Hexagon => "Hexagon",
            Device::Gpu => "Gpu",
            Device::Vulkan => "Vulkan",
            Device::OpenGl => "OpenGl",
            Device::DirectX => "DirectX",
            Device::WebGpu => "WebGpu",
        }
    }
}

/// What an error of a device says.
pub open spec fn device_text(e: DeviceError) -> Seq<char> {
    match e {
        DeviceError::Unknown { name } => filled(
            str_views(UNKNOWN_DEVICE@),
            seq![name@, STANDARD_DEVICE_NAMES@],
        ),
        DeviceError::NotAvailable { device } => filled(
            str_views(NOT_AVAILABLE@),
            seq![device_title(device)],
        ),
        DeviceError::NoneSelected => "no devices selected"@,
    }
}

impl DeviceError {
    /// What the error says.
    pub fn message(&self) -> (r: String)
        ensures
            r@ == device_text(*self),
    {
        match self {
            DeviceError::Unknown { name } => two(
                &UNKNOWN_DEVICE,
                name.as_str(),
                STANDARD_DEVICE_NAMES,
            ),
            DeviceError::NotAvailable { device } => one(&NOT_AVAILABLE, device.title()),
            DeviceError::NoneSelected => "no devices selected".to_owned(),
        }
    }
}

pub const UNKNOWN_COMMAND: [&'static str; 2] = ["unknown subcommand: ", " (try --help)"];

pub const UNKNOWN_FLAG: [&'static str; 2] = ["unknown flag: ", ""];

pub const MISSING_VALUE: [&'static str; 2] = ["missing value for ", ""];

pub const BAD_DTYPE: [&'static str; 2] = ["--dtype f16|f32|f64 (got ", ")"];

pub const BAD_PRECISION: [&'static str; 2] = ["unknown precision '", "' (try: f32, f16, bf16)"];

/// What an error of the command line says.
pub open spec fn cli_text(e: CliError) -> Seq<char> {
    match e {
        CliError::UnknownCommand { name } => filled(str_views(UNKNOWN_COMMAND@), seq![name@]),
        CliError::UnknownFlag { flag } => filled(str_views(UNKNOWN_FLAG@), seq![flag@]),
        CliError::MissingValue { flag } => filled(str_views(MISSING_VALUE@), seq![flag@]),
        CliError::BadNumber { label } => label@,
        CliError::BadDtype { text } => filled(str_views(BAD_DTYPE@), seq![text@]),
        CliError::BadPrecision { text } => filled(str_views(BAD_PRECISION@), seq![text@]),
        CliError::Required { what } => what@,
        CliError::Config(c) => config_text(c),
        CliError::List(l) => list_text(l),
        CliError::Device(d) => device_text(d),
    }
}

impl CliError {
    /// What the error says.
    pub fn message(&self) -> (r: String)
        ensures
            r@ == cli_text(*self),
    {
        match self {
            CliError::UnknownCommand { name } => one(&UNKNOWN_COMMAND, name.as_str()),
            CliError::UnknownFlag { flag } => one(&UNKNOWN_FLAG, flag.as_str()),
            CliError::MissingValue { flag } => one(&MISSING_VALUE, flag.as_str()),
            CliError::BadNumber { label } => (*label).to_owned(),
            CliError::BadDtype { text } => one(&BAD_DTYPE, text.as_str()),
            CliError::BadPrecision { text } => one(&BAD_PRECISION, text.as_str()),
            CliError::Required { what } => (*what).to_owned(),
            CliError::Config(c) => c.message(),
            CliError::List(l) => l.message(),
            CliError::Device(d) => d.message(),
        }
    }
}

} // verus!
