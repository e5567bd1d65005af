use std::path::PathBuf;

use hardware_monitor::hardware::gpu::{
    amd_clock_mhz, amd_name, choose_gpu, current_sclk, driver_product_name, find_chip, is_amd, is_intel,
    lspci_name, marketing_name, nvidia_name, nvidia_query_arg, nvidia_row, read_drm_value,
    reading, reading_u32, utilization_percent, vram_bytes, GpuCollector, GpuProbe, Source, Vendor,
};
use hardware_monitor::hardware::sysfs::Hwmon;

const LSPCI: &str = "00:02.0 Host bridge: Intel Corporation Device 1234\n\
03:00.0 VGA compatible controller: Advanced Micro Devices, Inc. [AMD/ATI] Navi 48 [Radeon RX 9070 XT] (rev c0)\n\
00:02.0 VGA compatible controller: Intel Corporation Alder Lake-P GT2 (rev 0c)\n";

/// Answers the detection's outside questions from fixed values, and
/// remembers which were asked.
struct Scripted {
    drm: Option<PathBuf>,
    product: Option<String>,
    smi: Option<String>,
    lspci: Option<String>,
    asked_lspci: bool,
    asked_smi: Option<String>,
}

impl Scripted {
    fn new() -> Self {
        Scripted { drm: None, product: None, smi: None, lspci: None, asked_lspci: false, asked_smi: None }
    }
}

impl GpuProbe for Scripted {
    fn drm_device(&mut self) -> Option<PathBuf> {
        self.drm.clone()
    }
    fn product_name(&mut self, _drm: &PathBuf) -> Option<String> {
        self.product.clone()
    }
    fn nvidia_smi(&mut self, query: &str) -> Option<String> {
        self.asked_smi = Some(query.to_string());
        self.smi.clone()
    }
    fn lspci(&mut self) -> Option<String> {
        self.asked_lspci = true;
        self.lspci.clone()
    }
}

fn chip(name: &str) -> Hwmon {
    Hwmon { name: name.to_string(), dir: PathBuf::from(format!("/sys/class/hwmon/{name}")) }
}

#[test]
fn vendors_are_recognised_by_driver() {
    assert!(is_amd("amdgpu"));
    assert!(!is_amd("amdgpu2"));
    assert!(is_intel("i915"));
    assert!(is_intel("xe"));
    assert!(!is_intel("nouveau"));
    let chips = vec![chip("k10temp"), chip("i915"), chip("amdgpu")];
    assert_eq!(find_chip(&chips, Vendor::Amd).map(|c| c.name.as_str()), Some("amdgpu"));
    assert_eq!(find_chip(&chips, Vendor::Intel).map(|c| c.name.as_str()), Some("i915"));
    assert!(find_chip(&chips[..1], Vendor::Amd).is_none());
}

#[test]
fn marketing_names_are_the_last_bracketed_group() {
    assert_eq!(
        marketing_name("Advanced Micro Devices, Inc. [AMD/ATI] Navi 48 [Radeon RX 9070 XT] (rev c0)"),
        "Radeon RX 9070 XT"
    );
    assert_eq!(marketing_name("Intel Corporation Alder Lake-P GT2 (rev 0c)"), "Intel Corporation Alder Lake-P GT2");
    assert_eq!(marketing_name("  Some GPU  "), "Some GPU");
    assert_eq!(marketing_name("Broken [bracket"), "Broken [bracket");
}

#[test]
fn lspci_names_the_vendors_display_controller() {
    assert_eq!(lspci_name(LSPCI, "AMD").as_deref(), Some("Radeon RX 9070 XT"));
    assert_eq!(lspci_name(LSPCI, "Intel").as_deref(), Some("Intel Corporation Alder Lake-P GT2"));
    assert_eq!(lspci_name(LSPCI, "NVIDIA"), None);
    assert_eq!(lspci_name("", "AMD"), None);
}

#[test]
fn amd_name_prefers_the_driver() {
    assert_eq!(amd_name(Some("  AMD Radeon RX 7900 XTX\n"), Some(LSPCI)), "AMD Radeon RX 7900 XTX");
    assert_eq!(amd_name(Some("  \n"), Some(LSPCI)), "Radeon RX 9070 XT");
    assert_eq!(amd_name(None, None), "AMD Radeon GPU");
    assert_eq!(amd_name(None, Some("nothing here")), "AMD Radeon GPU");
    assert_eq!(driver_product_name(Some(" x ")).as_deref(), Some("x"));
    assert_eq!(driver_product_name(Some("")), None);
}

#[test]
fn nvidia_rows_must_be_complete() {
    let stdout = "62, 35, 1024, 8192, 45.50, 1800\n";
    let row = nvidia_row(stdout, 6).unwrap();
    assert_eq!(row, vec!["62", "35", "1024", "8192", "45.50", "1800"]);
    assert_eq!(nvidia_row(stdout, 5), None);
    assert_eq!(nvidia_row("", 1), None);
    assert_eq!(reading(&row, 0), Some(62));
    assert_eq!(reading(&row, 4), None);
    assert_eq!(reading(&row, 9), None);
    assert_eq!(reading_u32(&row, 5), Some(1800));
    assert_eq!(vram_bytes(&row, 2), 1024 * 1024 * 1024);
    let na = vec!["[N/A]".to_string()];
    assert_eq!(vram_bytes(&na, 0), 0);
    assert_eq!(nvidia_name("NVIDIA GeForce RTX 4090\n").as_deref(), Some("NVIDIA GeForce RTX 4090"));
    assert_eq!(nvidia_name("a, b\n"), None);
    assert_eq!(
        nvidia_query_arg(&["temperature.gpu", "utilization.gpu"]),
        "--query-gpu=temperature.gpu,utilization.gpu"
    );
    assert_eq!(nvidia_query_arg(&[]), "--query-gpu=");
}

#[test]
fn amd_readings() {
    assert_eq!(amd_clock_mhz(Some("2970000000\n")), Some(2970));
    assert_eq!(amd_clock_mhz(Some("x")), None);
    assert_eq!(read_drm_value(Some("42\n")), Some(42));
    assert_eq!(read_drm_value(None), None);
    assert_eq!(utilization_percent(Some(250)), 100);
    assert_eq!(utilization_percent(Some(37)), 37);
    assert_eq!(utilization_percent(None), 0);
}

#[test]
fn current_sclk_reads_the_starred_state() {
    assert_eq!(current_sclk(Some("0: 500Mhz\n1: 897Mhz *\n2: 2970Mhz\n")), Some(897));
    assert_eq!(current_sclk(Some("0: 500MHz *\n")), Some(500));
    assert_eq!(current_sclk(Some("0: 500Mhz\n1: 897Mhz\n")), None);
    assert_eq!(current_sclk(Some("*\n")), None);
    assert_eq!(current_sclk(None), None);
}

#[test]
fn detection_prefers_amd_then_nvidia_then_intel() {
    let chips = vec![chip("i915"), chip("amdgpu")];
    let mut probe = Scripted::new();
    probe.drm = Some(PathBuf::from("/sys/class/drm/card1/device"));
    probe.product = Some("AMD Radeon RX 7800 XT".to_string());
    probe.lspci = Some(LSPCI.to_string());
    let gpu = GpuCollector::new(&chips, &mut probe);
    assert!(matches!(gpu.source, Some(Source::Amd { drm: Some(_) })));
    assert_eq!(gpu.name, "AMD Radeon RX 7800 XT");
    // The driver named the card, so lspci was never run.
    assert!(!probe.asked_lspci);

    let mut probe = Scripted::new();
    probe.lspci = Some(LSPCI.to_string());
    let gpu = GpuCollector::new(&chips, &mut probe);
    assert_eq!(gpu.name, "Radeon RX 9070 XT");
    assert!(probe.asked_lspci);

    let mut probe = Scripted::new();
    probe.smi = Some("NVIDIA GeForce RTX 3080\n".to_string());
    let gpu = GpuCollector::new(&chips[..1], &mut probe);
    assert!(matches!(gpu.source, Some(Source::Nvidia)));
    assert_eq!(gpu.name, "NVIDIA GeForce RTX 3080");
    assert_eq!(probe.asked_smi.as_deref(), Some("--query-gpu=name"));

    let mut probe = Scripted::new();
    let gpu = GpuCollector::new(&chips[..1], &mut probe);
    assert!(matches!(gpu.source, Some(Source::Intel)));
    assert_eq!(gpu.name, "Intel Graphics");

    let mut probe = Scripted::new();
    let gpu = GpuCollector::new(&[], &mut probe);
    assert!(gpu.source.is_none());
    assert_eq!(gpu.name, "");
}

#[test]
fn choice_is_discrete_first_from_the_answers() {
    let drm = Some(PathBuf::from("/sys/class/drm/card1/device"));
    let smi = Some("NVIDIA GeForce RTX 3080\n");
    // AMD wins whenever its chip is there, named by its driver.
    let gpu = choose_gpu(true, drm.clone(), Some("AMD Radeon RX 7800 XT\n"), None, smi, true, Some(LSPCI));
    assert!(matches!(gpu.source, Some(Source::Amd { drm: Some(_) })));
    assert_eq!(gpu.name, "AMD Radeon RX 7800 XT");
    let gpu = choose_gpu(true, None, None, Some(LSPCI), None, false, None);
    assert_eq!(gpu.name, "Radeon RX 9070 XT");
    // NVIDIA before Intel, when nvidia-smi names a card.
    let gpu = choose_gpu(false, None, None, None, smi, true, Some(LSPCI));
    assert!(matches!(gpu.source, Some(Source::Nvidia)));
    assert_eq!(gpu.name, "NVIDIA GeForce RTX 3080");
    // A short or missing row leaves Intel.
    let gpu = choose_gpu(false, None, None, None, Some("a, b\n"), true, Some(LSPCI));
    assert!(matches!(gpu.source, Some(Source::Intel)));
    assert_eq!(gpu.name, "Intel Corporation Alder Lake-P GT2");
    let gpu = choose_gpu(false, None, None, None, None, true, None);
    assert_eq!(gpu.name, "Intel Graphics");
    let gpu = choose_gpu(false, None, None, None, Some(""), false, None);
    assert!(gpu.source.is_none());
    assert_eq!(gpu.name, "");
}
