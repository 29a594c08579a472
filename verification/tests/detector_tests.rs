use ro_control::detector::{
    detect_gpu, detect_os, get_cpu_info, get_full_system_info, get_kernel_info,
    get_package_manager, get_ram_info, is_driver_up_to_date, is_rpmfusion_nvidia_enabled,
    OsInfo, ProbeOutputs,
};

fn vmm(blocks: &[&str]) -> String {
    blocks.join("\n\n")
}

#[test]
fn first_known_brand_wins_over_earlier_unknown_device() {
    // The first qualifying device has an unrecognized vendor; the scan
    // keeps going and stops at the NVIDIA device.
    let out = vmm(&[
        "Class:\tVGA compatible controller\nVendor:\tObscure Corp\nDevice:\tMystery GPU",
        "Class:\tVGA compatible controller\nVendor:\tNVIDIA Corporation\nDevice:\tGeForce RTX 4070",
    ]);
    let info = detect_gpu(Some(&out), None, None);
    assert_eq!(info.vendor, "NVIDIA");
    assert_eq!(info.model, "GeForce RTX 4070");
}

#[test]
fn scan_stops_at_first_branded_device_regardless_of_order() {
    // AMD listed before NVIDIA: the first branded device decides.
    let out = vmm(&[
        "Class:\t3D controller\nVendor:\tAdvanced Micro Devices, Inc.\nDevice:\tRadeon RX 7800",
        "Class:\tVGA compatible controller\nVendor:\tNVIDIA Corporation\nDevice:\tGeForce RTX 4070",
    ]);
    let info = detect_gpu(Some(&out), None, None);
    assert_eq!(info.vendor, "AMD");
    assert_eq!(info.model, "Radeon RX 7800");
}

#[test]
fn intel_matches_after_nvidia_and_amd() {
    let out = vmm(&[
        "Class:\tVGA compatible controller\nVendor:\tIntel Corporation\nDevice:\tUHD Graphics 770",
    ]);
    let info = detect_gpu(Some(&out), None, None);
    assert_eq!(info.vendor, "Intel");
    assert_eq!(info.model, "UHD Graphics 770");
}

#[test]
fn non_display_blocks_are_ignored() {
    let out = vmm(&[
        "Class:\tEthernet controller\nVendor:\tNVIDIA Corporation\nDevice:\tNetwork thing",
        "Class:\tAudio device\nVendor:\tIntel Corporation\nDevice:\tHDA",
    ]);
    let info = detect_gpu(Some(&out), None, None);
    // Nothing qualified, so the placeholder pair is reported.
    assert_eq!(info.vendor, "Sistem");
}

#[test]
fn missing_lspci_yields_placeholder() {
    let info = detect_gpu(None, None, None);
    assert_eq!(info.vendor, "Sistem");
    assert_eq!(info.driver_in_use, "Unknown");
    assert!(!info.secure_boot);
}

#[test]
fn kernel_driver_in_use_captured() {
    let k = "01:00.0 VGA compatible controller: NVIDIA Corporation AD104\n\
             \tSubsystem: Some vendor\n\
             \tKernel driver in use: nvidia\n\
             \tKernel modules: nouveau, nvidia_drm, nvidia";
    let info = detect_gpu(None, Some(k), None);
    assert_eq!(info.driver_in_use, "nvidia");
}

#[test]
fn driver_line_before_vga_section_is_ignored() {
    let k = "00:02.0 Audio device: Something\n\
             \tKernel driver in use: snd_hda_intel\n\
             01:00.0 VGA compatible controller: NVIDIA Corporation\n\
             \tKernel driver in use: nouveau";
    let info = detect_gpu(None, Some(k), None);
    assert_eq!(info.driver_in_use, "nouveau");
}

#[test]
fn secure_boot_detected() {
    let info = detect_gpu(None, None, Some("SecureBoot enabled"));
    assert!(info.secure_boot);
    let info2 = detect_gpu(None, None, Some("SecureBoot disabled"));
    assert!(!info2.secure_boot);
}

#[test]
fn missing_os_release_gives_linux_defaults() {
    let info = detect_os(None);
    assert_eq!(info.id, "linux");
    assert_eq!(info.version, "unknown");
    assert_eq!(info.name, "Linux");
}

#[test]
fn os_release_fields_parsed_with_quotes_stripped() {
    let contents = "NAME=Fedora\nID=fedora\nVERSION_ID=42\nPRETTY_NAME=\"Fedora Linux 42\"";
    let info = detect_os(Some(contents));
    assert_eq!(info.id, "fedora");
    assert_eq!(info.version, "42");
    assert_eq!(info.name, "Fedora Linux 42");
}

#[test]
fn package_manager_mapping() {
    let fedora = OsInfo {
        id: "fedora".to_string(),
        version: "42".to_string(),
        name: "Fedora".to_string(),
    };
    assert_eq!(get_package_manager(&fedora), Some("dnf"));
    let ubuntu = OsInfo {
        id: "ubuntu".to_string(),
        version: "24.04".to_string(),
        name: "Ubuntu".to_string(),
    };
    assert_eq!(get_package_manager(&ubuntu), Some("apt"));
    let arch = OsInfo { id: "arch".to_string(), version: String::new(), name: String::new() };
    assert_eq!(get_package_manager(&arch), Some("pacman"));
    let suse = OsInfo {
        id: "opensuse-tumbleweed".to_string(),
        version: String::new(),
        name: String::new(),
    };
    assert_eq!(get_package_manager(&suse), Some("zypper"));
    let other = OsInfo { id: "gentoo".to_string(), version: String::new(), name: String::new() };
    assert_eq!(get_package_manager(&other), None);
}

#[test]
fn cpu_model_name_extracted() {
    let cpuinfo = "processor\t: 0\nvendor_id\t: GenuineIntel\nmodel name\t: Intel(R) Core(TM) i7-12700K\nstepping\t: 2";
    assert_eq!(get_cpu_info(Some(cpuinfo)), "Intel(R) Core(TM) i7-12700K");
    assert_eq!(get_cpu_info(None), "Unknown");
}

#[test]
fn ram_summary_rewrites_units() {
    let free = "               total        used        free\nMem:            15Gi       4,2Gi       8,1Gi\nSwap:          8,0Gi          0B       8,0Gi";
    assert_eq!(get_ram_info(Some(free)), "15 GB");
    let free_mb = "Mem:           512Mi       100Mi       400Mi";
    assert_eq!(get_ram_info(Some(free_mb)), "512 MB");
    assert_eq!(get_ram_info(None), "Unknown");
}

#[test]
fn kernel_info_passthrough() {
    assert_eq!(get_kernel_info(Some("6.11.4-301.fc41.x86_64")), "6.11.4-301.fc41.x86_64");
    assert_eq!(get_kernel_info(None), "Unknown");
}

#[test]
fn rpmfusion_repo_detection() {
    assert!(is_rpmfusion_nvidia_enabled(Some(
        "repo id                              repo name\nrpmfusion-nonfree-nvidia-driver      RPM Fusion for Fedora"
    )));
    assert!(!is_rpmfusion_nvidia_enabled(Some("updates  Fedora updates")));
    assert!(!is_rpmfusion_nvidia_enabled(None));
}

#[test]
fn driver_up_to_date_check() {
    assert!(is_driver_up_to_date("nvidia-565.57", "565"));
    assert!(!is_driver_up_to_date("nouveau", "565"));
    assert!(!is_driver_up_to_date("nvidia-565.57", ""));
}

#[test]
fn full_system_info_composes_probes() {
    let probes = ProbeOutputs {
        lspci_vmm: Some(
            "Class:\tVGA compatible controller\nVendor:\tNVIDIA Corporation\nDevice:\tGeForce GTX 1660"
                .to_string(),
        ),
        lspci_k: Some(
            "01:00.0 VGA compatible controller: NVIDIA\n\tKernel driver in use: nvidia".to_string(),
        ),
        mokutil_state: Some("SecureBoot enabled".to_string()),
        cpuinfo: Some("model name\t: AMD Ryzen 7 5800X".to_string()),
        free_output: Some("Mem:            31Gi       10Gi       20Gi".to_string()),
        os_release: Some("ID=fedora\nPRETTY_NAME=\"Fedora Linux 42\"".to_string()),
        uname_release: Some("6.11.4".to_string()),
        session_type: Some("wayland".to_string()),
    };
    let info = get_full_system_info(&probes);
    assert_eq!(info.gpu.vendor, "NVIDIA");
    assert_eq!(info.gpu.model, "GeForce GTX 1660");
    assert_eq!(info.gpu.driver_in_use, "nvidia");
    assert!(info.gpu.secure_boot);
    assert_eq!(info.cpu, "AMD Ryzen 7 5800X");
    assert_eq!(info.ram, "31 GB");
    assert_eq!(info.distro, "Fedora Linux 42");
    assert_eq!(info.kernel, "6.11.4");
    assert_eq!(info.display_server, "wayland");
}

#[test]
fn missing_probes_default_everywhere() {
    let info = get_full_system_info(&ProbeOutputs::default());
    assert_eq!(info.cpu, "Unknown");
    assert_eq!(info.ram, "Unknown");
    assert_eq!(info.distro, "Linux");
    assert_eq!(info.kernel, "Unknown");
    assert_eq!(info.display_server, "Unknown");
}
