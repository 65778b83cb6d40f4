use mirafetch::macos::{mac_os_line, macos_codename};
use mirafetch::windows::{accent_rgb, theme_name, windows_de, windows_id, windows_kernel, windows_uptime};

#[test]
fn macos_names() {
    assert_eq!(macos_codename("14.2.1"), Some("Sonoma"));
    assert_eq!(macos_codename("15.0"), Some("Sequoia"));
    assert_eq!(macos_codename("11"), Some("Big Sur"));
    assert_eq!(macos_codename("10.15.7"), Some("Catalina"));
    assert_eq!(macos_codename("10.0"), Some("Cheetah"));
    assert_eq!(macos_codename("10"), None);
    assert_eq!(macos_codename("10.17"), None);
    assert_eq!(macos_codename("9.2"), None);
}

#[test]
fn macos_line() {
    assert_eq!(
        mac_os_line(&String::from("macOS"), &String::from("13.4")),
        Some(String::from("macOS Ventura 13.4"))
    );
    assert_eq!(mac_os_line(&String::from("macOS"), &String::from("99.1")), None);
}

#[test]
fn windows_identifier() {
    assert_eq!(windows_id("Microsoft Windows 11 Pro"), "Windows 11");
    assert_eq!(windows_id("Microsoft Windows 10  Home "), "Windows 10");
    assert_eq!(windows_id("Windows Server 2022 Datacenter"), "Windows Server 2022");
    assert_eq!(windows_id("Microsoft "), "");
    assert_eq!(windows_id(""), "");
}

#[test]
fn windows_uptime_text() {
    assert_eq!(windows_uptime("5h12m3s"), Some(String::from("5 hours, 12 mins")));
    assert_eq!(windows_uptime("42s"), Some(String::from("42s")));
    assert_eq!(windows_uptime("1d3h"), Some(String::from("1d3 hours, ")));
    assert_eq!(windows_uptime(""), None);
}

#[test]
fn windows_kernel_text() {
    assert_eq!(windows_kernel(10, 0, "22631", 3880, "23H2"), "10.0.22631.3880 (23H2)");
}

#[test]
fn windows_desktop_names() {
    assert_eq!(windows_de(10, 0), Some("Fluent"));
    assert_eq!(windows_de(6, 3), Some("Metro"));
    assert_eq!(windows_de(6, 1), Some("Aero"));
    assert_eq!(windows_de(5, 1), None);
}

#[test]
fn accent_colour_bytes() {
    assert_eq!(accent_rgb(0xff_d7_78_00), (0x00, 0x78, 0xd7));
    assert_eq!(accent_rgb(0x00_11_22_33), (0x33, 0x22, 0x11));
}

#[test]
fn theme_names() {
    assert_eq!(
        theme_name("C:\\Users\\me\\AppData\\Themes\\Custom.theme"),
        Some(String::from("Custom"))
    );
    assert_eq!(theme_name("C:\\Windows\\aero.v2.theme"), Some(String::from("aero.v2")));
    assert_eq!(theme_name("no-separator.theme"), None);
    assert_eq!(theme_name("C:\\dir\\noext"), None);
}
