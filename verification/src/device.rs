//! Backend devices: names, aliases, availability and selection.

use crate::order::{ascending, models, sorted_distinct};
use crate::text::{
    lower_text, pieces, same_text, split_text, texts, to_lower, trim_text, trimmed, white,
};
use vstd::prelude::*;

verus! {

/// A backend that graphs can run on.
#[derive(Debug, Clone, Copy, PartialEq, Eq, Structural)]
pub enum Device {
    Cpu,
    Metal,
    Mlx,
    Ane,
    Cuda,
    Rocm,
    Xdna,
    Egpu,
    OneApi,
    Tpu,
    Hexagon,
    Gpu,
    Vulkan,
    OpenGl,
    DirectX,
    WebGpu,
}

/// The canonical command-line token of a device.
pub open spec fn device_token(d: Device) -> Seq<char> {
    match d {
        Device::Cpu => "cpu"@,
        Device::Metal => "metal"@,
        Device::Mlx => "mlx"@,
        Device::Ane => "ane"@,
        Device::Cuda => "cuda"@,
        Device::Rocm => "rocm"@,
        Device::Xdna => "xdna"@,
        Device::Egpu => "egpu"@,
        Device::OneApi => "oneapi"@,
        Device::Tpu => "tpu"@,
        Device::Hexagon => "hexagon"@,
        Device::Gpu => "gpu"@,
        Device::Vulkan => "vulkan"@,
        Device::OpenGl => "opengl"@,
        Device::DirectX => "directx"@,
        Device::WebGpu => "webgpu"@,
    }
}

/// The device that a lower-case name stands for.
pub open spec fn device_named(s: Seq<char>) -> Option<Device> {
    if s == "cpu"@ {
        Some(Device::Cpu)
    } else if s == "metal"@ || s == "mps"@ || s == "mtl"@ {
        Some(Device::Metal)
    } else if s == "mlx"@ {
        Some(Device::Mlx)
    } else if s == "ane"@ || s == "coreml"@ || s == "neural-engine"@ {
        Some(Device::Ane)
    } else if s == "cuda"@ || s == "nvidia"@ {
        Some(Device::Cuda)
    } else if s == "rocm"@ || s == "hip"@ || s == "amd"@ {
        Some(Device::Rocm)
    } else if s == "xdna"@ || s == "aie"@ || s == "aie2"@ || s == "ryzenai"@ || s == "ryzen-ai"@ || s
        == "amdnpu"@ {
        Some(Device::Xdna)
    } else if s == "egpu"@ || s == "tbgpu"@ || s == "thunderbolt"@ {
        Some(Device::Egpu)
    } else if s == "oneapi"@ || s == "levelzero"@ || s == "level-zero"@ || s == "l0"@ || s
        == "intel"@ || s == "sycl"@ {
        Some(Device::OneApi)
    } else if s == "gpu"@ || s == "wgpu"@ {
        Some(Device::Gpu)
    } else if s == "vulkan"@ || s == "vk"@ {
        Some(Device::Vulkan)
    } else if s == "opengl"@ || s == "gl"@ {
        Some(Device::OpenGl)
    } else if s == "directx"@ || s == "dx12"@ || s == "d3d12"@ {
        Some(Device::DirectX)
    } else if s == "webgpu"@ {
        Some(Device::WebGpu)
    } else if s == "tpu"@ {
        Some(Device::Tpu)
    } else if s == "hexagon"@ || s == "htp"@ || s == "qnn"@ {
        Some(Device::Hexagon)
    } else {
        None
    }
}

/// The device that a name stands for, in any case and with white space around it.
pub open spec fn device_read(s: Seq<char>) -> Option<Device> {
    device_named(lower_text(trimmed(s)))
}

/// `FromStr` of `rlx_runtime::Device` reads a device name, trimmed and in any case, by its table of
/// names and aliases; the device is handed on by its canonical token, and an unknown name as `None`.
#[verifier::external_body]
fn parse_device_token(s: &str) -> (r: Option<String>)
    ensures
        match device_read(s@) {
            Some(d) => r matches Some(t) && t@ == device_token(d),
            None => r is None,
        },
{
    match s.parse::<rlx_runtime::Device>() {
        Ok(d) => Some(d.as_arg().to_string()),
        Err(_) => None,
    }
}

/// `rlx_runtime::is_available` tells whether the backend with a given token is built in and live on
/// this machine. The CPU backend is one of the crate's default features, which this library keeps,
/// and is live wherever it is built in. Of every other backend the answer depends on the build and
/// the machine, so nothing is claimed of it.
#[verifier::external_body]
fn backend_is_live(token: &str) -> (r: bool)
    ensures
        token@ == "cpu"@ ==> r,
{
    match token.parse::<rlx_runtime::Device>() {
        Ok(d) => rlx_runtime::is_available(d),
        Err(_) => false,
    }
}

impl Device {
    /// Every device.
    pub open spec fn listed() -> Seq<Device> {
        seq![
            Device::Cpu,
            Device::Metal,
            Device::Mlx,
            Device::Ane,
            Device::Cuda,
            Device::Rocm,
            Device::Xdna,
            Device::Egpu,
            Device::OneApi,
            Device::Tpu,
            Device::Hexagon,
            Device::Gpu,
            Device::Vulkan,
            Device::OpenGl,
            Device::DirectX,
            Device::WebGpu,
        ]
    }

    /// The canonical token of the device.
    pub fn token(self) -> (r: &'static str)
        ensures
            r@ == device_token(self),
    {
        match self {
            Device::Cpu => "cpu",
            Device::Metal => "metal",
            Device::Mlx => "mlx",
            Device::Ane => "ane",
            Device::Cuda => "cuda",
            Device::Rocm => "rocm",
            Device::Xdna => "xdna",
            Device::Egpu => "egpu",
            Device::OneApi => "oneapi",
            Device::Tpu => "tpu",
            Device::Hexagon => "hexagon",
            Device::Gpu => "gpu",
            Device::Vulkan => "vulkan",
            Device::OpenGl => "opengl",
            Device::DirectX => "directx",
            Device::WebGpu => "webgpu",
        }
    }
}

proof fn reveal_tokens()
    ensures
        forall|a: Device, b: Device| #[trigger]
            device_token(a) == #[trigger] device_token(b) ==> a == b,
{
    reveal_strlit("cpu");
    reveal_strlit("metal");
    reveal_strlit("mlx");
    reveal_strlit("ane");
    reveal_strlit("cuda");
    reveal_strlit("rocm");
    reveal_strlit("xdna");
    reveal_strlit("egpu");
    reveal_strlit("oneapi");
    reveal_strlit("tpu");
    reveal_strlit("hexagon");
    reveal_strlit("gpu");
    reveal_strlit("vulkan");
    reveal_strlit("opengl");
    reveal_strlit("directx");
    reveal_strlit("webgpu");
    assert forall|a: Device, b: Device| #[trigger]
        device_token(a) == #[trigger] device_token(b) implies a == b by {
        let s = device_token(a);
        let t = device_token(b);
        assert(s.len() == t.len());
        assert(s[0] == t[0] && s[1] == t[1] && s[2] == t[2]);
    }
}

/// Reads a device name, trimmed and in any case.
pub fn parse_device(name: &str) -> (r: Option<Device>)
    ensures
        r == device_read(name@),
{
    match parse_device_token(name) {
        None => None,
        Some(t) => {
            let all = [
                Device::Cpu,
                Device::Metal,
                Device::Mlx,
                Device::Ane,
                Device::Cuda,
                Device::Rocm,
                Device::Xdna,
                Device::Egpu,
                Device::OneApi,
                Device::Tpu,
                Device::Hexagon,
                Device::Gpu,
                Device::Vulkan,
                Device::OpenGl,
                Device::DirectX,
                Device::WebGpu,
            ];
            proof {
                reveal_tokens();
                assert(all@ =~= Device::listed());
                let d = device_read(name@)->0;
                lemma_listed(d);
            }
            let mut i: usize = 0;
            while i < 16
                invariant
                    i <= 16,
                    all@ == Device::listed(),
                    device_read(name@) is Some,
                    t@ == device_token(device_read(name@)->0),
                    forall|a: Device, b: Device| #[trigger]
                        device_token(a) == #[trigger] device_token(b) ==> a == b,
                    exists|k: int|
                        i <= k < 16 && #[trigger] Device::listed()[k] == device_read(name@)->0,
                decreases 16 - i,
            {
                if same_text(all[i].token(), t.as_str()) {
                    assert(device_token(all[i as int]) == device_token(device_read(name@)->0));
                    return Some(all[i]);
                }
                i += 1;
            }
            None
        },
    }
}

proof fn lemma_listed(d: Device)
    ensures
        exists|k: int| 0 <= k < 16 && #[trigger] Device::listed()[k] == d,
{
    let s = Device::listed();
    match d {
        Device::Cpu => assert(s[0] == d),
        Device::Metal => assert(s[1] == d),
        Device::Mlx => assert(s[2] == d),
        Device::Ane => assert(s[3] == d),
        Device::Cuda => assert(s[4] == d),
        Device::Rocm => assert(s[5] == d),
        Device::Xdna => assert(s[6] == d),
        Device::Egpu => assert(s[7] == d),
        Device::OneApi => assert(s[8] == d),
        Device::Tpu => assert(s[9] == d),
        Device::Hexagon => assert(s[10] == d),
        Device::Gpu => assert(s[11] == d),
        Device::Vulkan => assert(s[12] == d),
        Device::OpenGl => assert(s[13] == d),
        Device::DirectX => assert(s[14] == d),
        Device::WebGpu => assert(s[15] == d),
    }
}

/// Command-line aliases mapped to the names that devices are read by.
pub open spec fn alias_of(key: Seq<char>) -> Seq<char> {
    if key == "wgu"@ || key == "wgpu"@ {
        "wgpu"@
    } else if key == "mps"@ {
        "metal"@
    } else if key == "hip"@ {
        "rocm"@
    } else if key == "coreml"@ || key == "neural-engine"@ || key == "neural_engine"@ {
        "ane"@
    } else {
        key
    }
}

/// The name that a device text is normalised to.
pub open spec fn normalized(s: Seq<char>) -> Seq<char> {
    alias_of(lower_text(trimmed(s)))
}

/// Normalises a device text: trimmed, lower case, aliases resolved.
pub fn normalize_device_alias(name: &str) -> (r: String)
    ensures
        r@ == normalized(name@),
{
    let key = to_lower(trim_text(name).as_str());
    let k = key.as_str();
    if same_text(k, "wgu") || same_text(k, "wgpu") {
        "wgpu".to_owned()
    } else if same_text(k, "mps") {
        "metal".to_owned()
    } else if same_text(k, "hip") {
        "rocm".to_owned()
    } else if same_text(k, "coreml") || same_text(k, "neural-engine") || same_text(
        k,
        "neural_engine",
    ) {
        "ane".to_owned()
    } else {
        key
    }
}

/// The stable label of a device in reports: its token, with `wgpu` for the portable GPU.
pub open spec fn report_label(d: Device) -> Seq<char> {
    if d is Gpu {
        "wgpu"@
    } else {
        device_token(d)
    }
}

/// The stable label stored in bench reports.
pub fn bench_device_label(device: Device) -> (r: String)
    ensures
        r@ == report_label(device),
{
    match device {
        Device::Gpu => "wgpu".to_owned(),
        other => other.token().to_owned(),
    }
}

/// What can go wrong when devices are selected.
#[derive(Clone, Debug)]
pub enum DeviceError {
    /// No device has this (normalised) name.
    Unknown { name: String },
    /// The backend is not built in or not live.
    NotAvailable { device: Device },
    /// The list names no device.
    NoneSelected,
}

/// Which backends are live, as found at one moment.
#[derive(Debug, Clone, Copy, PartialEq, Eq, Structural)]
pub struct Available {
    pub cpu: bool,
    pub metal: bool,
    pub mlx: bool,
    pub ane: bool,
    pub cuda: bool,
    pub rocm: bool,
    pub xdna: bool,
    pub egpu: bool,
    pub one_api: bool,
    pub tpu: bool,
    pub hexagon: bool,
    pub gpu: bool,
    pub vulkan: bool,
    pub open_gl: bool,
    pub direct_x: bool,
    pub web_gpu: bool,
}

impl Available {
    /// Whether a device is live.
    pub open spec fn live(self, d: Device) -> bool {
        match d {
            Device::Cpu => self.cpu,
            Device::Metal => self.metal,
            Device::Mlx => self.mlx,
            Device::Ane => self.ane,
            Device::Cuda => self.cuda,
            Device::Rocm => self.rocm,
            Device::Xdna => self.xdna,
            Device::Egpu => self.egpu,
            Device::OneApi => self.one_api,
            Device::Tpu => self.tpu,
            Device::Hexagon => self.hexagon,
            Device::Gpu => self.gpu,
            Device::Vulkan => self.vulkan,
            Device::OpenGl => self.open_gl,
            Device::DirectX => self.direct_x,
            Device::WebGpu => self.web_gpu,
        }
    }

    /// Whether a device is live.
    pub fn has(self, d: Device) -> (r: bool)
        ensures
            r == self.live(d),
    {
        match d {
            Device::Cpu => self.cpu,
            Device::Metal => self.metal,
            Device::Mlx => self.mlx,
            Device::Ane => self.ane,
            Device::Cuda => self.cuda,
            Device::Rocm => self.rocm,
            Device::Xdna => self.xdna,
            Device::Egpu => self.egpu,
            Device::OneApi => self.one_api,
            Device::Tpu => self.tpu,
            Device::Hexagon => self.hexagon,
            Device::Gpu => self.gpu,
            Device::Vulkan => self.vulkan,
            Device::OpenGl => self.open_gl,
            Device::DirectX => self.direct_x,
            Device::WebGpu => self.web_gpu,
        }
    }

    /// Asks the runtime about every backend. The CPU is always live; what comes back of the others
    /// depends on the build and the machine.
    pub fn probe() -> (r: Available)
        ensures
            r.live(Device::Cpu),
    {
        Available {
            cpu: backend_is_live("cpu"),
            metal: backend_is_live("metal"),
            mlx: backend_is_live("mlx"),
            ane: backend_is_live("ane"),
            cuda: backend_is_live("cuda"),
            rocm: backend_is_live("rocm"),
            xdna: backend_is_live("xdna"),
            egpu: backend_is_live("egpu"),
            one_api: backend_is_live("oneapi"),
            tpu: backend_is_live("tpu"),
            hexagon: backend_is_live("hexagon"),
            gpu: backend_is_live("gpu"),
            vulkan: backend_is_live("vulkan"),
            open_gl: backend_is_live("opengl"),
            direct_x: backend_is_live("directx"),
            web_gpu: backend_is_live("webgpu"),
        }
    }

    /// Whether graphs can be sent to a device: always for the CPU.
    pub open spec fn ready(self, d: Device) -> bool {
        d is Cpu || self.live(d)
    }
}

/// The devices of a benchmark sweep, in report order: the CPU, then the live accelerators.
pub open spec fn swept_devices(a: Available) -> Seq<Device> {
    seq![
        Device::Metal,
        Device::Mlx,
        Device::Ane,
        Device::Cuda,
        Device::Rocm,
        Device::Gpu,
        Device::Vulkan,
    ].filter(|d: Device| a.live(d)).insert(0, Device::Cpu)
}

/// The labels of some devices.
pub open spec fn labels(ds: Seq<Device>) -> Seq<Seq<char>> {
    ds.map_values(|d: Device| report_label(d))
}

fn push_live(out: &mut Vec<String>, a: Available, d: Device)
    ensures
        texts(final(out)@) == if a.live(d) {
            texts(old(out)@).push(report_label(d))
        } else {
            texts(old(out)@)
        },
{
    if a.has(d) {
        out.push(bench_device_label(d));
        assert(texts(out@) =~= texts(old(out)@).push(report_label(d)));
    }
}

proof fn lemma_filter_step(ds: Seq<Device>, d: Device, a: Available)
    ensures
        labels(ds.push(d).filter(|x: Device| a.live(x))) == if a.live(d) {
            labels(ds.filter(|x: Device| a.live(x))).push(report_label(d))
        } else {
            labels(ds.filter(|x: Device| a.live(x)))
        },
{
    reveal(Seq::filter);
    assert(ds.push(d).drop_last() =~= ds);
    let f = ds.filter(|x: Device| a.live(x));
    assert(labels(f.push(d)) =~= labels(f).push(report_label(d)));
}

/// The labels of the devices that a sweep covers, for the backends that are live.
pub fn available_devices_in(a: Available) -> (r: Vec<String>)
    ensures
        texts(r@) == labels(swept_devices(a)),
{
    let mut live: Vec<String> = Vec::new();
    let ghost ds = Seq::<Device>::empty();
    assert(texts(live@) =~= labels(ds.filter(|x: Device| a.live(x)))) by {
        reveal(Seq::filter);
    }
    push_live(&mut live, a, Device::Metal);
    push_live(&mut live, a, Device::Mlx);
    push_live(&mut live, a, Device::Ane);
    push_live(&mut live, a, Device::Cuda);
    push_live(&mut live, a, Device::Rocm);
    push_live(&mut live, a, Device::Gpu);
    push_live(&mut live, a, Device::Vulkan);
    proof {
        let d1 = ds.push(Device::Metal);
        let d2 = d1.push(Device::Mlx);
        let d3 = d2.push(Device::Ane);
        let d4 = d3.push(Device::Cuda);
        let d5 = d4.push(Device::Rocm);
        let d6 = d5.push(Device::Gpu);
        let d7 = d6.push(Device::Vulkan);
        lemma_filter_step(ds, Device::Metal, a);
        lemma_filter_step(d1, Device::Mlx, a);
        lemma_filter_step(d2, Device::Ane, a);
        lemma_filter_step(d3, Device::Cuda, a);
        lemma_filter_step(d4, Device::Rocm, a);
        lemma_filter_step(d5, Device::Gpu, a);
        lemma_filter_step(d6, Device::Vulkan, a);
        assert(d7 =~= seq![
            Device::Metal,
            Device::Mlx,
            Device::Ane,
            Device::Cuda,
            Device::Rocm,
            Device::Gpu,
            Device::Vulkan,
        ]);
    }
    let ghost tail = texts(live@);
    live.insert(0, bench_device_label(Device::Cpu));
    proof {
        assert(texts(live@) =~= tail.insert(0, report_label(Device::Cpu)));
        let f = ds.push(Device::Metal).push(Device::Mlx).push(Device::Ane).push(Device::Cuda).push(
            Device::Rocm,
        ).push(Device::Gpu).push(Device::Vulkan);
        assert(f =~= seq![
            Device::Metal,
            Device::Mlx,
            Device::Ane,
            Device::Cuda,
            Device::Rocm,
            Device::Gpu,
            Device::Vulkan,
        ]);
        let g = f.filter(|d: Device| a.live(d));
        assert(labels(g.insert(0, Device::Cpu)) =~= labels(g).insert(0, report_label(Device::Cpu)));
    }
    live
}

/// The labels of the devices that a sweep covers on this machine.
pub fn available_devices() -> (r: Vec<String>)
    ensures
        exists|a: Available| texts(r@) == #[trigger] labels(swept_devices(a)),
{
    available_devices_in(Available::probe())
}

/// Why a list of devices is refused.
pub enum DeviceFault {
    Unknown(Seq<char>),
    NotReady(Device),
}

/// The labels that a list of device names selects: blank names are skipped, each label is kept
/// once at its first place, and the first unknown or unready name ends the reading.
pub open spec fn selected(parts: Seq<Seq<char>>, a: Available) -> Result<
    Seq<Seq<char>>,
    DeviceFault,
>
    decreases parts.len(),
{
    if parts.len() == 0 {
        Ok(Seq::empty())
    } else {
        let name = normalized(parts.last());
        match selected(parts.drop_last(), a) {
            Err(e) => Err(e),
            Ok(v) => if name.len() == 0 {
                Ok(v)
            } else {
                match device_read(name) {
                    None => Err(DeviceFault::Unknown(name)),
                    Some(d) => if !a.ready(d) {
                        Err(DeviceFault::NotReady(d))
                    } else if v.contains(report_label(d)) {
                        Ok(v)
                    } else {
                        Ok(v.push(report_label(d)))
                    },
                }
            },
        }
    }
}

proof fn lemma_selected_stops(parts: Seq<Seq<char>>, a: Available, i: int)
    requires
        0 <= i <= parts.len(),
        selected(parts.take(i), a) is Err,
    ensures
        selected(parts, a) == selected(parts.take(i), a),
    decreases parts.len() - i,
{
    if i == parts.len() {
        assert(parts.take(i) =~= parts);
    } else {
        assert(parts.take(i + 1).drop_last() =~= parts.take(i));
        lemma_selected_stops(parts, a, i + 1);
    }
}

/// The labels that name live Apple backends, in dictionary order, and the CPU.
pub open spec fn apple_labels(a: Available) -> Set<Seq<char>> {
    Set::new(
        |l: Seq<char>|
            l == "cpu"@ || (a.metal && l == "metal"@) || (a.mlx && l == "mlx"@) || (a.gpu && l
                == "wgpu"@) || (a.ane && l == "ane"@),
    )
}

/// What reading a device list gives, for the backends that are live.
pub open spec fn device_list_outcome(
    csv: Seq<char>,
    a: Available,
    r: Result<Vec<String>, DeviceError>,
) -> bool {
    let s = trimmed(csv);
    if lower_text(s) == "all"@ {
        r matches Ok(v) && texts(v@) == labels(swept_devices(a))
    } else if lower_text(s) == "apple-silicon"@ {
        r matches Ok(v) && ascending::<String>(texts(v@)) && texts(v@).to_set() == apple_labels(a)
    } else {
        match selected(pieces(s, ','), a) {
            Err(f) => r matches Err(e) && reports(e, f),
            Ok(v) => if v.len() == 0 {
                r matches Err(DeviceError::NoneSelected)
            } else {
                r matches Ok(out) && texts(out@) == v
            },
        }
    }
}

/// Reads `all`, `apple-silicon`, or a comma-separated list of devices, for the backends that are
/// live.
pub fn parse_bench_device_list_in(csv: &str, a: Available) -> (r: Result<Vec<String>, DeviceError>)
    ensures
        device_list_outcome(csv@, a, r),
{
    let list = trim_text(csv);
    let key = to_lower(list.as_str());
    if same_text(key.as_str(), "all") {
        return Ok(available_devices_in(a));
    }
    if same_text(key.as_str(), "apple-silicon") {
        return Ok(apple_devices(a));
    }
    let parts = split_text(list.as_str(), ',');
    let ghost all = texts(parts@);
    let mut out: Vec<String> = Vec::new();
    let mut i: usize = 0;
    assert(all.take(0) =~= Seq::empty());
    assert(texts(out@) =~= Seq::empty());
    while i < parts.len()
        invariant
            i <= parts.len(),
            all == texts(parts@),
            all == pieces(trimmed(csv@), ','),
            lower_text(trimmed(csv@)) != "all"@,
            lower_text(trimmed(csv@)) != "apple-silicon"@,
            selected(all.take(i as int), a) == Ok::<Seq<Seq<char>>, DeviceFault>(texts(out@)),
        decreases parts.len() - i,
    {
        let name = normalize_device_alias(parts[i].as_str());
        proof {
            assert(all.take(i + 1).drop_last() =~= all.take(i as int));
        }
        if name.as_str().is_empty() {
            i += 1;
            continue;
        }
        let device = match parse_device(name.as_str()) {
            Some(d) => d,
            None => {
                proof {
                    lemma_selected_stops(all, a, i + 1);
                }
                return Err(DeviceError::Unknown { name });
            },
        };
        if !matches!(device, Device::Cpu) && !a.has(device) {
            proof {
                lemma_selected_stops(all, a, i + 1);
            }
            return Err(DeviceError::NotAvailable { device });
        }
        let label = bench_device_label(device);
        if !holds_text(&out, label.as_str()) {
            let ghost was = texts(out@);
            out.push(label);
            assert(texts(out@) =~= was.push(report_label(device)));
        }
        i += 1;
    }
    assert(all.take(all.len() as int) =~= all);
    if out.len() == 0 {
        return Err(DeviceError::NoneSelected);
    }
    Ok(out)
}

/// Whether a list of strings holds a text.
pub fn holds_text(v: &Vec<String>, s: &str) -> (r: bool)
    ensures
        r == texts(v@).contains(s@),
{
    let mut i: usize = 0;
    while i < v.len()
        invariant
            i <= v.len(),
            forall|k: int| 0 <= k < i ==> (#[trigger] texts(v@)[k]) != s@,
        decreases v.len() - i,
    {
        if same_text(v[i].as_str(), s) {
            assert(texts(v@)[i as int] == s@);
            return true;
        }
        i += 1;
    }
    false
}

fn apple_devices(a: Available) -> (r: Vec<String>)
    ensures
        ascending::<String>(texts(r@)),
        texts(r@).to_set() == apple_labels(a),
{
    let mut out: Vec<String> = Vec::new();
    out.push("cpu".to_owned());
    assert(texts(out@) =~= seq!["cpu"@]);
    push_live(&mut out, a, Device::Metal);
    push_live(&mut out, a, Device::Mlx);
    push_live(&mut out, a, Device::Gpu);
    push_live(&mut out, a, Device::Ane);
    let ghost m = texts(out@);
    assert(models(out@) =~= m);
    proof {
        let s0 = seq!["cpu"@];
        let s1 = if a.metal { s0.push("metal"@) } else { s0 };
        let s2 = if a.mlx { s1.push("mlx"@) } else { s1 };
        let s3 = if a.gpu { s2.push("wgpu"@) } else { s2 };
        let s4 = if a.ane { s3.push("ane"@) } else { s3 };
        assert(m == s4);
        assert forall|l: Seq<char>| s4.contains(l) == apple_labels(a).contains(l) by {
            lemma_push_text(s0, "metal"@, l);
            lemma_push_text(s1, "mlx"@, l);
            lemma_push_text(s2, "wgpu"@, l);
            lemma_push_text(s3, "ane"@, l);
            assert(s0.contains(l) <==> l == "cpu"@) by {
                assert(s0[0] == "cpu"@);
            }
        }
        assert(m.to_set() =~= apple_labels(a));
    }
    let r = sorted_distinct(out);
    assert(models(r@) =~= texts(r@));
    r
}

proof fn lemma_push_text(s: Seq<Seq<char>>, x: Seq<char>, l: Seq<char>)
    ensures
        s.push(x).contains(l) <==> (s.contains(l) || l == x),
{
    if s.contains(l) {
        let k = choose|k: int| 0 <= k < s.len() && s[k] == l;
        assert(s.push(x)[k] == l);
    }
    if l == x {
        assert(s.push(x)[s.len() as int] == l);
    }
    if s.push(x).contains(l) {
        let k = choose|k: int| 0 <= k < s.push(x).len() && s.push(x)[k] == l;
        if k < s.len() {
            assert(s[k] == l);
        }
    }
}

/// Reads `all`, `apple-silicon`, or a comma-separated list of devices, on this machine.
pub fn parse_bench_device_list(csv: &str) -> (r: Result<Vec<String>, DeviceError>)
    ensures
        exists|a: Available| device_list_outcome(csv@, a, r),
{
    let a = Available::probe();
    let r = parse_bench_device_list_in(csv, a);
    assert(device_list_outcome(csv@, a, r));
    r
}

/// The device picked when none is asked for: the first live accelerator, else the CPU.
pub open spec fn auto_device(a: Available) -> Device {
    if a.cuda {
        Device::Cuda
    } else if a.metal {
        Device::Metal
    } else if a.mlx {
        Device::Mlx
    } else if a.rocm {
        Device::Rocm
    } else if a.gpu {
        Device::Gpu
    } else if a.vulkan {
        Device::Vulkan
    } else {
        Device::Cpu
    }
}

/// Picks a device for the backends that are live.
pub fn pick_auto_device_in(a: Available) -> (r: Device)
    ensures
        r == auto_device(a),
{
    if a.cuda {
        Device::Cuda
    } else if a.metal {
        Device::Metal
    } else if a.mlx {
        Device::Mlx
    } else if a.rocm {
        Device::Rocm
    } else if a.gpu {
        Device::Gpu
    } else if a.vulkan {
        Device::Vulkan
    } else {
        Device::Cpu
    }
}

/// Picks a device on this machine.
pub fn pick_auto_device() -> (r: Device)
    ensures
        exists|a: Available| r == auto_device(a),
{
    let a = Available::probe();
    let r = pick_auto_device_in(a);
    assert(r == auto_device(a));
    r
}

/// The device that is picked is always ready.
pub proof fn auto_device_is_ready(a: Available)
    ensures
        a.ready(auto_device(a)),
{
}

/// Accepts the CPU and the backends that are live.
pub fn ensure_backend_ready_in(device: Device, a: Available) -> (r: Result<(), DeviceError>)
    ensures
        a.ready(device) ==> r is Ok,
        !a.ready(device) ==> (r matches Err(DeviceError::NotAvailable { device: d }) && d == device),
{
    if matches!(device, Device::Cpu) || a.has(device) {
        Ok(())
    } else {
        Err(DeviceError::NotAvailable { device })
    }
}

/// Accepts the CPU, and the backends that are live on this machine.
pub fn ensure_backend_ready(device: Device) -> (r: Result<(), DeviceError>)
    ensures
        device is Cpu ==> r is Ok,
        r is Err ==> (r matches Err(DeviceError::NotAvailable { device: d }) && d == device),
{
    ensure_backend_ready_in(device, Available::probe())
}

/// The name that decides the training device: the request unless it is blank, else the
/// environment's choice, else `auto`.
pub open spec fn wanted_device(requested: Option<Seq<char>>, environment: Option<Seq<char>>) -> Seq<
    char,
> {
    match (requested, environment) {
        (Some(s), _) if trimmed(s).len() > 0 => normalized(trimmed(s)),
        (_, Some(e)) => normalized(e),
        (_, None) => "auto"@,
    }
}

/// The view of an optional text.
pub open spec fn view_of(s: Option<&str>) -> Option<Seq<char>> {
    match s {
        Some(t) => Some(t@),
        None => None,
    }
}

/// The device that a resolved name stands for, for the backends that are live.
pub open spec fn resolved(name: Seq<char>, a: Available) -> Result<Device, DeviceFault> {
    if lower_text(name) == "auto"@ {
        Ok(auto_device(a))
    } else {
        match device_read(name) {
            None => Err(DeviceFault::Unknown(name)),
            Some(d) => if a.ready(d) {
                Ok(d)
            } else {
                Err(DeviceFault::NotReady(d))
            },
        }
    }
}

/// Whether an error reports a fault.
pub open spec fn reports(e: DeviceError, f: DeviceFault) -> bool {
    match f {
        DeviceFault::Unknown(n) => e matches DeviceError::Unknown { name } && name@ == n,
        DeviceFault::NotReady(d) => e matches DeviceError::NotAvailable { device } && device == d,
    }
}

/// What resolving the training device gives, for the backends that are live.
pub open spec fn resolve_outcome(
    name: Seq<char>,
    a: Available,
    r: Result<Device, DeviceError>,
) -> bool {
    match resolved(name, a) {
        Ok(d) => r == Ok::<Device, DeviceError>(d),
        Err(f) => r matches Err(e) && reports(e, f),
    }
}

/// Resolves the training device from a request and the environment's choice, for the backends
/// that are live.
pub fn resolve_train_device_in(
    requested: Option<&str>,
    environment: Option<&str>,
    a: Available,
) -> (r: Result<Device, DeviceError>)
    ensures
        resolve_outcome(wanted_device(view_of(requested), view_of(environment)), a, r),
{
    let asked = match requested {
        Some(s) => {
            let t = trim_text(s);
            if t.as_str().is_empty() {
                None
            } else {
                Some(normalize_device_alias(t.as_str()))
            }
        },
        None => None,
    };
    let name = match asked {
        Some(n) => n,
        None => match environment {
            Some(e) => normalize_device_alias(e),
            None => "auto".to_owned(),
        },
    };
    if same_text(to_lower(name.as_str()).as_str(), "auto") {
        return Ok(pick_auto_device_in(a));
    }
    match parse_device(name.as_str()) {
        None => Err(DeviceError::Unknown { name }),
        Some(d) => match ensure_backend_ready_in(d, a) {
            Ok(()) => Ok(d),
            Err(e) => Err(e),
        },
    }
}

/// Resolves the training device on this machine.
pub fn resolve_train_device(requested: Option<&str>, environment: Option<&str>) -> (r: Result<
    Device,
    DeviceError,
>)
    ensures
        exists|a: Available|
            resolve_outcome(wanted_device(view_of(requested), view_of(environment)), a, r),
{
    let a = Available::probe();
    let r = resolve_train_device_in(requested, environment, a);
    assert(resolve_outcome(wanted_device(view_of(requested), view_of(environment)), a, r));
    r
}

/// Whether a text is made of lower-case letters.
pub open spec fn letters(s: Seq<char>) -> bool {
    forall|i: int| 0 <= i < s.len() ==> 'a' <= #[trigger] s[i] <= 'z'
}

proof fn lemma_letters_stay(s: Seq<char>)
    requires
        letters(s),
    ensures
        trimmed(s) == s,
        lower_text(s) == s,
{
    assert(lower_text(s) =~= s);
    if s.len() > 0 {
        assert(!white(s[0]));
        assert(!white(s.last()));
    }
}

/// The report label of a device, normalised, reads back as the device.
pub proof fn label_reads_back(d: Device)
    ensures
        device_read(normalized(report_label(d))) == Some(d),
{
    reveal_strlit("cpu");
    reveal_strlit("metal");
    reveal_strlit("mlx");
    reveal_strlit("ane");
    reveal_strlit("cuda");
    reveal_strlit("rocm");
    reveal_strlit("xdna");
    reveal_strlit("egpu");
    reveal_strlit("oneapi");
    reveal_strlit("tpu");
    reveal_strlit("hexagon");
    reveal_strlit("gpu");
    reveal_strlit("vulkan");
    reveal_strlit("opengl");
    reveal_strlit("directx");
    reveal_strlit("webgpu");
    reveal_strlit("wgpu");
    reveal_strlit("wgu");
    reveal_strlit("mps");
    reveal_strlit("mtl");
    reveal_strlit("hip");
    reveal_strlit("amd");
    reveal_strlit("coreml");
    reveal_strlit("neural-engine");
    reveal_strlit("neural_engine");
    reveal_strlit("nvidia");
    reveal_strlit("levelzero");
    reveal_strlit("level-zero");
    reveal_strlit("l0");
    reveal_strlit("intel");
    reveal_strlit("sycl");
    reveal_strlit("vk");
    reveal_strlit("gl");
    reveal_strlit("dx12");
    reveal_strlit("d3d12");
    reveal_strlit("htp");
    reveal_strlit("qnn");
    reveal_strlit("aie");
    reveal_strlit("aie2");
    reveal_strlit("ryzenai");
    reveal_strlit("ryzen-ai");
    reveal_strlit("amdnpu");
    reveal_strlit("tbgpu");
    reveal_strlit("thunderbolt");
    let s = report_label(d);
    assert(letters(s));
    lemma_letters_stay(s);
    assert(alias_of(s) == s) by {
        lemma_not_an_alias(s);
    }
    assert(device_named(s) == Some(d)) by {
        let c0 = s[0];
        let c1 = s[1];
        let c2 = s[2];
    }
}

proof fn lemma_not_an_alias(s: Seq<char>)
    requires
        s == "wgpu"@ || s == "cpu"@ || s == "metal"@ || s == "mlx"@ || s == "ane"@ || s == "cuda"@
            || s == "rocm"@ || s == "xdna"@ || s == "egpu"@ || s == "oneapi"@ || s == "tpu"@ || s == "hexagon"@ || s == "vulkan"@
            || s == "opengl"@ || s == "directx"@ || s == "webgpu"@,
    ensures
        alias_of(s) == s,
{
    reveal_strlit("cpu");
    reveal_strlit("metal");
    reveal_strlit("mlx");
    reveal_strlit("ane");
    reveal_strlit("cuda");
    reveal_strlit("rocm");
    reveal_strlit("xdna");
    reveal_strlit("egpu");
    reveal_strlit("oneapi");
    reveal_strlit("tpu");
    reveal_strlit("hexagon");
    reveal_strlit("vulkan");
    reveal_strlit("opengl");
    reveal_strlit("directx");
    reveal_strlit("webgpu");
    reveal_strlit("wgpu");
    reveal_strlit("wgu");
    reveal_strlit("mps");
    reveal_strlit("hip");
    reveal_strlit("coreml");
    reveal_strlit("neural-engine");
    reveal_strlit("neural_engine");
    let c0 = s[0];
    let c1 = s[1];
    let c2 = s[2];
}

} // verus!
