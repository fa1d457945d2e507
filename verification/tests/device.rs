use rlx_fft::device::{
    available_devices_in, bench_device_label, ensure_backend_ready, pick_auto_device,
    parse_bench_device_list, normalize_device_alias, parse_bench_device_list_in,
    parse_device, pick_auto_device_in, resolve_train_device_in, Available, Device, DeviceError,
};

fn none() -> Available {
    Available {
        cpu: true,
        metal: false,
        mlx: false,
        ane: false,
        cuda: false,
        rocm: false,
        xdna: false,
        egpu: false,
        one_api: false,
        tpu: false,
        hexagon: false,
        gpu: false,
        vulkan: false,
        open_gl: false,
        direct_x: false,
        web_gpu: false,
    }
}

#[test]
fn normalize_wgu_alias() {
    assert_eq!(normalize_device_alias("wgu"), "wgpu");
    assert_eq!(normalize_device_alias("WGPU"), "wgpu");
}

#[test]
fn normalize_coreml_alias() {
    assert_eq!(normalize_device_alias("coreml"), "ane");
    assert_eq!(normalize_device_alias("CoreML"), "ane");
    assert_eq!(normalize_device_alias("neural-engine"), "ane");
    assert_eq!(normalize_device_alias("ane"), "ane");
    assert!(parse_device(&normalize_device_alias("coreml")).is_some());
}

#[test]
fn bench_device_label_wgpu() {
    assert_eq!(bench_device_label(Device::Gpu), "wgpu");
}

#[test]
fn parse_bench_list_dedupes_gpu_aliases() {
    let live = Available { gpu: true, ..none() };
    let list = parse_bench_device_list_in("cpu,wgpu,wgu", live).unwrap();
    assert!(list.contains(&"cpu".to_string()));
    assert!(list.contains(&"wgpu".to_string()));
    assert_eq!(list.iter().filter(|d| *d == "wgpu").count(), 1);
}

#[test]
fn device_names_agree_with_the_runtime() {
    let names = [
        "cpu", "metal", "mps", "mtl", "mlx", "ane", "coreml", "neural-engine", "cuda", "nvidia",
        "rocm", "hip", "amd", "oneapi", "levelzero", "level-zero", "l0", "intel", "sycl", "tpu",
        "hexagon", "xdna", "aie", "aie2", "ryzenai", "ryzen-ai",
        "amdnpu", "egpu", "tbgpu", "thunderbolt", "gpu", "wgpu", "vulkan", "vk", "opengl", "gl", "directx", "dx12", "webgpu", "CPU",
        " Metal ", "auto", "", "qpu", "dx", "d3d12", "qnn", "npu",
    ];
    for name in names {
        let ours = parse_device(name).map(|d| d.token().to_string());
        let theirs = name.parse::<rlx_runtime::Device>().ok().map(|d| d.as_arg().to_string());
        assert_eq!(ours, theirs, "{name}");
    }
}

#[test]
fn devices_resolve_by_request_then_environment_then_machine() {
    let live = Available { metal: true, ..none() };
    assert!(matches!(resolve_train_device_in(Some("cpu"), Some("metal"), live), Ok(Device::Cpu)));
    assert!(matches!(resolve_train_device_in(Some("  "), Some("metal"), live), Ok(Device::Metal)));
    assert!(matches!(resolve_train_device_in(None, None, live), Ok(Device::Metal)));
    assert!(matches!(resolve_train_device_in(None, None, none()), Ok(Device::Cpu)));
    match resolve_train_device_in(Some("cuda"), None, live) {
        Err(e) => assert_eq!(
            e.message(),
            "rlx-fft: Cuda is not available — build with the matching feature or pass `--device cpu`"
        ),
        other => panic!("{other:?}"),
    }
    match resolve_train_device_in(Some("qpu"), None, live) {
        Err(DeviceError::Unknown { name }) => assert_eq!(name, "qpu"),
        other => panic!("{other:?}"),
    }
}

#[test]
fn device_lists_refuse_what_is_not_there() {
    assert!(matches!(
        parse_bench_device_list_in(" , ", none()),
        Err(DeviceError::NoneSelected)
    ));
    assert!(matches!(
        parse_bench_device_list_in("cpu,mlx", none()),
        Err(DeviceError::NotAvailable { device: Device::Mlx })
    ));
    let live = Available { metal: true, gpu: true, ..none() };
    assert_eq!(parse_bench_device_list_in("all", live).unwrap(), available_devices_in(live));
    assert_eq!(available_devices_in(live), vec!["cpu", "metal", "wgpu"]);
}

#[test]
fn the_best_live_device_is_picked() {
    let live = Available { cuda: true, metal: true, ..none() };
    assert!(matches!(pick_auto_device_in(live), Device::Cuda));
    assert!(matches!(pick_auto_device_in(none()), Device::Cpu));
}

#[test]
fn probing_asks_the_runtime() {
    let found = Available::probe();
    assert!(found.has(Device::Cpu));
    assert_eq!(found.has(Device::Cpu), rlx_runtime::is_available(rlx_runtime::Device::Cpu));
    assert_eq!(found.has(Device::Metal), rlx_runtime::is_available(rlx_runtime::Device::Metal));
}

#[test]
fn labels_read_back() {
    for d in [Device::Cpu, Device::Metal, Device::Gpu, Device::Ane, Device::Vulkan] {
        let label = bench_device_label(d);
        assert_eq!(parse_device(&normalize_device_alias(&label)), Some(d));
    }
}

#[test]
fn this_machine_has_a_ready_device() {
    assert!(ensure_backend_ready(Device::Cpu).is_ok());
    assert!(ensure_backend_ready(pick_auto_device()).is_ok());
    assert!(matches!(
        ensure_backend_ready(Device::Hexagon),
        Err(DeviceError::NotAvailable { device: Device::Hexagon })
    ));
    assert_eq!(parse_bench_device_list("cpu,cpu").unwrap(), vec!["cpu".to_string()]);
}
