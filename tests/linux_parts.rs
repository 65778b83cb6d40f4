use mirafetch::gpu::{gpu_line, gpu_name, parse_pci_id};
use mirafetch::linux::{
    battery_entry, byte_unit, describe_de, distro_id, join, meminfo_kib, mount_of_line,
    mount_points, normalize_machine, os_name, parse_os_release, pick_locale, release_value,
};

const OS_RELEASE: &str = "NAME=\"Arch Linux\"\nPRETTY_NAME=\"Arch Linux\"\nID=arch\nBUILD_ID=rolling\nANSI_COLOR=\"38;2;23;147;209\"\n";

fn s(x: &str) -> String {
    String::from(x)
}

#[test]
fn os_release_entries_are_unquoted() {
    let e = parse_os_release(OS_RELEASE);
    assert_eq!(e.len(), 5);
    assert_eq!(e[0], (s("NAME"), s("Arch Linux")));
    assert_eq!(e[2], (s("ID"), s("arch")));
    assert_eq!(e[4], (s("ANSI_COLOR"), s("38;2;23;147;209")));
}

#[test]
fn os_release_skips_lines_without_equals() {
    let e = parse_os_release("# comment\nID=debian\n\nVERSION_ID=\"12\"");
    assert_eq!(e, vec![(s("ID"), s("debian")), (s("VERSION_ID"), s("12"))]);
}

#[test]
fn later_entry_wins() {
    let e = parse_os_release("ID=a\nID=b\n");
    assert_eq!(release_value(&e, "ID"), Some(s("b")));
    assert_eq!(release_value(&e, "NAME"), None);
}

#[test]
fn os_line_for_arch() {
    let e = parse_os_release(OS_RELEASE);
    assert_eq!(os_name(&e, &s("x86_64")), Some(s("Arch Linux x86_64")));
}

#[test]
fn os_line_adds_version_once() {
    let e = parse_os_release(
        "NAME=\"Debian GNU/Linux\"\nVERSION_ID=\"12\"\nVERSION=\"12 (bookworm)\"\nVERSION_CODENAME=bookworm\nID=debian\n",
    );
    assert_eq!(os_name(&e, &s("aarch64")), Some(s("Debian GNU/Linux 12 aarch64")));
}

#[test]
fn os_line_uses_codename_and_version_without_version_id() {
    let e = parse_os_release("PRETTY_NAME=Foo\nVERSION_CODENAME=bar\nVERSION=\"2 LTS\"\n");
    assert_eq!(os_name(&e, &s("x86_64")), Some(s("Foo bar 2 LTS x86_64")));
}

#[test]
fn os_line_absent_without_name() {
    let e = parse_os_release("VERSION_ID=1\n");
    assert_eq!(os_name(&e, &s("x86_64")), None);
}

#[test]
fn distro_id_falls_back() {
    assert_eq!(distro_id(&parse_os_release(OS_RELEASE)), "arch");
    assert_eq!(distro_id(&parse_os_release("NAME=x\n")), "unknown");
}

#[test]
fn desktop_line() {
    assert_eq!(describe_de(s("KDE"), Some(s("wayland"))), "KDE (wayland)");
    assert_eq!(describe_de(s("XFCE"), None), "XFCE");
}

#[test]
fn locale_takes_first_nonempty() {
    assert_eq!(pick_locale(&vec![Some(s("")), None, Some(s("C.UTF-8"))]), Some(s("C.UTF-8")));
    assert_eq!(pick_locale(&vec![Some(s("en_US.UTF-8")), Some(s("C"))]), Some(s("en_US.UTF-8")));
    assert_eq!(pick_locale(&vec![None, Some(s(""))]), None);
}

#[test]
fn machine_name_for_qemu() {
    assert_eq!(
        normalize_machine(&s("Standard PC (Q35 + ICH9, 2009)\n")),
        "KVM/QEMUStandard PC (Q35 + ICH9, 2009)"
    );
    assert_eq!(normalize_machine(&s("  ThinkPad X1\n")), "ThinkPad X1");
}

#[test]
fn battery_lines() {
    assert_eq!(battery_entry(&s("87\n"), &Some(s("Discharging\n"))), "87% Discharging");
    assert_eq!(battery_entry(&s("100\n"), &Some(s("Unknown\n"))), "100%");
    assert_eq!(battery_entry(&s("5"), &None), "5%");
    assert_eq!(join(&vec![s("87% Charging"), s("50%")], ", "), "87% Charging, 50%");
    assert_eq!(join(&vec![], ", "), "");
}

#[test]
fn meminfo_fields_are_read() {
    let text = "MemTotal:       16318504 kB\nMemFree:         1234 kB\nMemAvailable:   8159252 kB\n";
    assert_eq!(meminfo_kib(text), Some((16318504, 8159252)));
    assert_eq!(meminfo_kib("MemTotal: 5 kB\n"), None);
    assert_eq!(meminfo_kib("MemTotal: kB\nMemAvailable: 1 kB\n"), None);
    assert_eq!(meminfo_kib("MemTotal: 99999999999999999999 kB\nMemAvailable: 1 kB\n"), None);
}

#[test]
fn byte_units() {
    assert_eq!(byte_unit(0), 0);
    assert_eq!(byte_unit(1023), 0);
    assert_eq!(byte_unit(1024), 1);
    assert_eq!(byte_unit(5 << 30), 3);
    assert_eq!(byte_unit(u64::MAX), 6);
}

#[test]
fn disk_lines_are_filtered() {
    let table = "/dev/nvme0n1p2 / ext4 rw,relatime 0 0\nproc /proc proc rw 0 0\n/dev/loop3 /snap/core squashfs ro 0 0\n/dev/sda1 /var/snap/x ext4 rw 0 0\ndrvfs /mnt/c 9p rw 0 0\n/dev/sdb1 /data\n";
    assert_eq!(mount_points(table), vec![s("/"), s("/mnt/c")]);
    assert_eq!(mount_of_line("/rpool/ROOT /home zfs rw 0 0"), Some(s("/home")));
    assert_eq!(mount_of_line("/dev/ram0 /r tmpfs rw 0 0"), None);
}

#[test]
fn pci_ids_are_read() {
    assert_eq!(parse_pci_id("0x10de\n"), Some(0x10de));
    assert_eq!(parse_pci_id("0x8086"), Some(0x8086));
    assert_eq!(parse_pci_id("0x"), None);
    assert_eq!(parse_pci_id("0xzz"), None);
    assert_eq!(parse_pci_id("0x10000"), None);
}

#[test]
fn vendor_names_are_shortened() {
    assert_eq!(
        gpu_line(&s("Advanced Micro Devices, Inc. [AMD/ATI]"), &s("Navi 21")),
        "AMD Navi 21"
    );
    assert_eq!(gpu_line(&s("Intel Corporation"), &s("UHD 620")), "Intel UHD 620");
    assert_eq!(gpu_line(&s("NVIDIA Corporation"), &s("GA102")), "NVIDIA Corporation GA102");
}

#[test]
fn gpu_lookup_uses_database() {
    let name = gpu_name("0x8086\n", "0x3e92\n").unwrap();
    assert!(name.starts_with("Intel "));
    assert!(name.len() > "Intel ".len());
    assert_eq!(gpu_name("0xffff\n", "0xffff\n"), None);
    assert_eq!(gpu_name("bogus", "0x1"), None);
}
