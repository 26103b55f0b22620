use bsdkrun::host::{
    check_kvm, cpu_virt_flag, group_name, kvm_advice, kvm_summary, same_device, Arch, GuestOs, KvmFacts, KvmProblem,
    KvmStatus, kvm_module_loaded,
};

#[test]
fn missing_node_on_a_cpu_without_virt_extensions_points_at_the_bios() {
    let facts = KvmFacts { cpu_virt_flag: None, module_loaded: false, ..KvmFacts::default() };
    let msg = kvm_advice(&KvmProblem::Missing, &facts, true);
    assert!(msg.contains("nested virtualization"), "{msg}");
    assert!(!msg.contains("modprobe"), "{msg}");
}

#[test]
fn missing_node_on_an_amd_host_names_the_amd_module() {
    let facts = KvmFacts { cpu_virt_flag: Some("svm"), module_loaded: false, ..KvmFacts::default() };
    let msg = kvm_advice(&KvmProblem::Missing, &facts, true);
    assert!(msg.contains("modprobe kvm_amd"), "{msg}");
}

#[test]
fn missing_node_in_a_container_says_to_pass_the_device_through() {
    let facts = KvmFacts { in_container: true, cpu_virt_flag: None, ..KvmFacts::default() };
    for x86 in [true, false] {
        let msg = kvm_advice(&KvmProblem::Missing, &facts, x86);
        assert!(msg.contains("--device /dev/kvm"), "{msg}");
    }
}

#[test]
fn permission_advice_names_the_owning_group() {
    let facts = KvmFacts { owner_group: Some("libvirt".into()), mode: Some(0o660), ..KvmFacts::default() };
    let msg = kvm_advice(&KvmProblem::Permission, &facts, true);
    assert!(msg.contains("usermod -aG libvirt"), "{msg}");
    assert!(msg.contains("0660"), "{msg}");
}

#[test]
fn missing_node_on_arm64_talks_about_el2_not_modprobe() {
    let msg = kvm_advice(&KvmProblem::Missing, &KvmFacts::default(), false);
    assert!(msg.contains("EL2"), "{msg}");
    assert!(!msg.contains("modprobe"), "{msg}");
}

#[test]
fn group_name_resolves_a_gid_from_etc_group() {
    let etc = "root:x:0:\nkvm:x:104:alice\nusers:x:100:\n";
    assert_eq!(group_name(etc, 104).as_deref(), Some("kvm"));
    assert_eq!(group_name(etc, 999), None);
}

#[test]
fn cpu_virt_flag_reads_the_flags_line() {
    let intel = "processor\t: 0\nflags\t\t: fpu vme vmx smx est\n";
    let amd = "processor\t: 0\nflags\t\t: fpu vme svm npt\n";
    let none = "processor\t: 0\nflags\t\t: fpu vme de pse\n";
    assert_eq!(cpu_virt_flag(intel), Some("vmx"));
    assert_eq!(cpu_virt_flag(amd), Some("svm"));
    assert_eq!(cpu_virt_flag(none), None);
}

#[test]
fn a_usable_device_passes_and_off_linux_nothing_is_probed() {
    let facts = KvmFacts::default();
    assert_eq!(check_kvm(true, &Ok(12), &facts, true), Ok(()));
    assert_eq!(check_kvm(false, &Err(KvmProblem::Missing), &facts, true), Ok(()));
    assert!(check_kvm(true, &Err(KvmProblem::Busy), &facts, true).is_err());
    assert_eq!(kvm_summary(true, &Ok(12), &facts, true).as_deref(), Some("/dev/kvm: ok (KVM API version 12)"));
    assert_eq!(kvm_summary(false, &Ok(12), &facts, true), None);
}

#[test]
fn headlines_name_the_problem() {
    let st = |r: Result<i32, KvmProblem>| KvmStatus { device: "/dev/kvm", result: r, facts: KvmFacts::default() };
    assert_eq!(st(Ok(12)).headline(), "ok (KVM API version 12)");
    assert_eq!(st(Err(KvmProblem::NotADevice)).headline(), "not a character device");
    assert_eq!(st(Err(KvmProblem::OpenFailed("EIO".into()))).headline(), "unusable (EIO)");
    assert_eq!(st(Err(KvmProblem::ApiVersion(11))).headline(), "unexpected API version 11");
    assert!(st(Ok(12)).is_ok());
    assert!(st(Ok(12)).advice(true).is_none());
    assert!(st(Err(KvmProblem::Busy)).advice(true).is_some());
}

#[test]
fn arches_and_guests_have_their_slugs() {
    assert_eq!(Arch::current("x86_64"), Some(Arch::X86_64));
    assert_eq!(Arch::current("aarch64"), Some(Arch::Aarch64));
    assert_eq!(Arch::current("riscv64"), None);
    assert_eq!(Arch::X86_64.slug(), "x86_64");
    assert_eq!(Arch::Aarch64.oci(), "arm64");
    assert_eq!(GuestOs::Freebsd.slug(), "freebsd");
}

#[test]
fn devices_match_only_when_both_are_known() {
    assert!(same_device(Some(3), Some(3)));
    assert!(!same_device(Some(3), Some(4)));
    assert!(!same_device(None, None));
}

#[test]
fn kvm_module_is_read_from_the_first_word_of_a_line() {
    let modules = "nf_tables 1 0 - Live 0x0\nkvm_intel 409600 0 - Live 0x0\n";
    assert!(kvm_module_loaded(modules));
    assert!(kvm_module_loaded("kvm 1 0\n"));
    assert!(kvm_module_loaded("  kvm_amd 1 0"));
    assert!(!kvm_module_loaded("irqbypass 16384 1 kvm, Live\n"));
    assert!(!kvm_module_loaded("kvmx 1\n"));
    assert!(!kvm_module_loaded(""));
}

#[test]
fn kvm_report_lists_what_was_found() {
    let ok = KvmStatus {
        device: "/dev/kvm",
        result: Ok(12),
        facts: KvmFacts {
            cpu_virt_flag: Some("vmx"),
            module_loaded: true,
            in_container: false,
            owner_group: Some("kvm".to_string()),
            mode: Some(0o660),
        },
    };
    assert_eq!(
        ok.report(),
        vec![
            format!("{:<14} {}", "/dev/kvm", "ok (KVM API version 12)"),
            format!("{:<14} mode {:04o}, group {}", "node", 0o660, "kvm"),
            format!("{:<14} {}", "kvm module", "loaded"),
            format!("{:<14} {}", "cpu virt", "vmx"),
        ]
    );
    let boxed = KvmStatus {
        device: "/dev/kvm",
        result: Err(KvmProblem::Missing),
        facts: KvmFacts { in_container: true, ..KvmFacts::default() },
    };
    assert_eq!(
        boxed.report(),
        vec![
            format!("{:<14} {}", "/dev/kvm", "missing"),
            format!("{:<14} {}", "kvm module", "not loaded"),
            format!("{:<14} {}", "cpu virt", "not advertised"),
            format!("{:<14} yes", "container"),
        ]
    );
}
