use nestri_server::gpu::{
    dri_paths_from_names, get_gpu_vendor, is_gpu_line, last_whitespace_word,
    parse_pci_device, pci_device_from_captures, select_gpu, strip, GPUInfo, GPUVendor, Strip,
};

const LINE: &str = "00:02.0 \"VGA compatible controller [0300]\" \"Intel Corporation [8086]\" \"Alder Lake-P GT2 [Iris Xe Graphics] [46a6]\" -r0c -p00 \"Lenovo [17aa]\" \"Device [22e5]\"";

#[test]
fn reads_a_pci_listing_line() {
    let (addr, vendor, name) = parse_pci_device(LINE).unwrap();
    assert_eq!(addr, "00:02.0");
    assert_eq!(vendor, "8086");
    assert_eq!(name, "Alder Lake-P GT2 [Iris Xe Graphics]");
    assert!(parse_pci_device("no device here").is_none());
}

#[test]
fn reads_amd_vendor_field() {
    let line = "03:00.0 \"VGA compatible controller [0300]\" \"Advanced Micro Devices, Inc. [AMD/ATI] [1002]\" \"Navi 21 [Radeon RX 6800] [73bf]\"";
    let (addr, vendor, name) = parse_pci_device(line).unwrap();
    assert_eq!(addr, "03:00.0");
    assert_eq!(vendor, "1002");
    assert_eq!(name, "Navi 21 [Radeon RX 6800]");
    assert_eq!(get_gpu_vendor(&vendor), GPUVendor::AMD);
}

#[test]
fn captures_are_cleaned() {
    let caps = vec!["0a:00.0".to_string(), "NVIDIA Corporation [10de]".to_string(), "GA104".to_string()];
    let (a, v, n) = pci_device_from_captures(&caps).unwrap();
    assert_eq!((a.as_str(), v.as_str(), n.as_str()), ("0a:00.0", "10de", "GA104"));
    assert!(pci_device_from_captures(&vec!["x".to_string()]).is_none());
}

#[test]
fn trimming_helpers() {
    assert_eq!(strip("  a b \t", Strip::Space), "a b");
    assert_eq!(strip("[8086]", Strip::NonHex), "8086");
    assert_eq!(strip("   ", Strip::Space), "");
    assert_eq!(last_whitespace_word("Intel Corporation [8086]  "), "[8086]");
    assert_eq!(last_whitespace_word("   "), "");
}

#[test]
fn vendor_ids() {
    assert_eq!(get_gpu_vendor("8086"), GPUVendor::INTEL);
    assert_eq!(get_gpu_vendor("10de"), GPUVendor::NVIDIA);
    assert_eq!(get_gpu_vendor("1002"), GPUVendor::AMD);
    assert_eq!(get_gpu_vendor("abcd"), GPUVendor::UNKNOWN);
}

#[test]
fn display_lines() {
    assert!(is_gpu_line("00:02.0 \"vga compatible controller [0300]\""));
    assert!(is_gpu_line("01:00.0 \"3d controller\""));
    assert!(!is_gpu_line("00:1f.3 \"audio device\""));
}

#[test]
fn dri_device_paths() {
    let names = vec!["card1".to_string(), "controlD64".to_string(), "renderD128".to_string(), "card2".to_string()];
    let (card, render) = dri_paths_from_names(&names);
    assert_eq!(card, "/dev/dri/card1");
    assert_eq!(render, "/dev/dri/renderD128");
    let (card, render) = dri_paths_from_names(&vec!["renderD129".to_string()]);
    assert_eq!(card, "");
    assert_eq!(render, "/dev/dri/renderD129");
}

fn gpus() -> Vec<GPUInfo> {
    vec![
        GPUInfo::new(GPUVendor::INTEL, "/dev/dri/card0".into(), "/dev/dri/renderD128".into(), "Alder Lake-P GT2".into()),
        GPUInfo::new(GPUVendor::NVIDIA, "/dev/dri/card1".into(), "/dev/dri/renderD129".into(), "GeForce RTX 3060".into()),
        GPUInfo::new(GPUVendor::NVIDIA, "/dev/dri/card2".into(), "/dev/dri/renderD130".into(), "GeForce RTX 4090".into()),
    ]
}

#[test]
fn gpu_selection() {
    let g = gpus();
    assert_eq!(select_gpu(&g, "", "", 0, "").unwrap().device_name(), "Alder Lake-P GT2");
    assert_eq!(select_gpu(&g, "nvidia", "", 1, "").unwrap().card_path(), "/dev/dri/card2");
    assert_eq!(select_gpu(&g, "", "rtx 3060", 0, "").unwrap().vendor_string(), "NVIDIA");
    assert_eq!(select_gpu(&g, "", "", 0, "/dev/dri/renderD130").unwrap().card_path(), "/dev/dri/card2");
    assert!(select_gpu(&g, "amd", "", 0, "").is_none());
    assert!(select_gpu(&g, "nvidia", "", 2, "").is_none());
    assert!(select_gpu(&g, "", "", 0, "/dev/dri/card9").is_none());
    assert_eq!(*g[0].vendor(), GPUVendor::INTEL);
    assert_eq!(g[0].render_path(), "/dev/dri/renderD128");
}
