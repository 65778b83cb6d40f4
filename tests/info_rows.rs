use mirafetch::info::{Info, IosInfo, OSInfo};

fn empty_info() -> Info {
    Info {
        os: None,
        machine: None,
        kernel: None,
        uptime: None,
        username: None,
        hostname: None,
        resolution: Vec::new(),
        wm: None,
        de: None,
        shell: None,
        cpu: None,
        font: None,
        cursor: None,
        terminal: None,
        terminal_font: None,
        gpus: Vec::new(),
        memory: None,
        disks: Vec::new(),
        battery: None,
        locale: None,
        theme: None,
        icons: None,
        ip: Vec::new(),
        id: String::from("arch"),
    }
}

fn value_of(rows: &[(String, String)], label: &str) -> Option<String> {
    rows.iter().find(|(l, _)| l == label).map(|(_, v)| v.clone())
}

// The seven tests below check that a probed fact reaches its row. They feed
// fixed answers into the record assembly; probing the live machine is the
// job of the program's platform backend, not of this library.

#[test]
fn test_username() {
    let mut info = empty_info();
    info.username = Some(String::from("username"));
    info.hostname = Some(String::from("hostname"));
    let rows = info.rows();
    let (user, _) = rows[0].0.split_once('@').unwrap();
    assert_eq!(user.trim_matches('\0'), "username");
}

#[test]
fn test_hostname() {
    let mut info = empty_info();
    info.username = Some(String::from("username"));
    info.hostname = Some(String::from("hostname"));
    let rows = info.rows();
    let (_, host) = rows[0].0.split_once('@').unwrap();
    assert_eq!(host.trim(), "hostname");
}

#[test]
fn test_kernel() {
    let mut info = empty_info();
    info.kernel = Some(String::from("6.8.0-45-generic"));
    let rows = info.rows();
    assert_eq!(value_of(&rows, "Kernel").unwrap().trim(), "6.8.0-45-generic");
}

#[test]
fn test_host() {
    let mut info = empty_info();
    info.machine = Some(String::from("KVM/QEMU Standard PC"));
    let rows = info.rows();
    assert_eq!(value_of(&rows, "Host").unwrap().trim(), "KVM/QEMU Standard PC");
}

#[test]
fn test_uptime() {
    let mut info = empty_info();
    info.uptime = Some(String::from("2h 5m"));
    let rows = info.rows();
    assert_eq!(value_of(&rows, "Uptime").unwrap().trim(), "2h 5m");
}

#[test]
fn test_de() {
    let mut info = empty_info();
    info.de = Some(String::from("GNOME (wayland)"));
    let rows = info.rows();
    assert_eq!(value_of(&rows, "DE").unwrap().trim(), "GNOME (wayland)");
}

#[test]
fn test_wm() {
    let mut info = empty_info();
    info.wm = Some(String::from("Mutter"));
    let rows = info.rows();
    assert_eq!(value_of(&rows, "WM").unwrap().trim(), "Mutter");
}

#[test]
fn rows_follow_canonical_order() {
    let mut info = empty_info();
    info.username = Some(String::from("ann"));
    info.hostname = Some(String::from("box"));
    info.cpu = Some(String::from("Ryzen"));
    info.os = Some(String::from("Arch Linux"));
    info.memory = Some(String::from("1 GiB / 2 GiB"));
    info.resolution = vec![String::from("1920x1080"), String::from("1280x1024")];
    info.gpus = vec![String::from("AMD Radeon")];
    info.disks = vec![(String::from("Disk (/)"), String::from("10 GiB/ 20 GiB"))];
    info.ip = vec![String::from("10.0.0.2")];
    let rows = info.rows();
    let labels: Vec<&str> = rows.iter().map(|(l, _)| l.as_str()).collect();
    assert_eq!(
        labels,
        vec![
            "ann@box",
            "-------",
            "OS",
            "CPU",
            "Memory",
            "Display 1",
            "Display 2",
            "GPU 1",
            "Disk (/)",
            "IP"
        ]
    );
    assert_eq!(rows[0].1, "");
    assert_eq!(rows[1].1, "");
    assert_eq!(rows[6].1, "1280x1024");
    assert_eq!(rows[9].1, "10.0.0.2");
}

#[test]
fn absent_probe_leaves_no_row() {
    let mut info = empty_info();
    info.shell = None;
    info.kernel = Some(String::new());
    let rows = info.rows();
    assert!(rows.iter().all(|(l, _)| l != "Shell"));
    assert_eq!(value_of(&rows, "Kernel"), Some(String::new()));
    assert_eq!(rows.len(), 3);
}

#[test]
fn same_answers_give_same_records() {
    let build = || {
        let mut info = empty_info();
        info.os = Some(String::from("Debian"));
        info.gpus = vec![String::from("a"), String::from("b")];
        info.ip = vec![String::from("1.2.3.4")];
        info
    };
    assert_eq!(build().rows(), build().rows());
}

#[test]
fn underline_counts_bytes() {
    let mut info = empty_info();
    info.username = Some(String::from("zoë"));
    info.hostname = Some(String::from("h"));
    let rows = info.rows();
    assert_eq!(rows[0].0, "zoë@h");
    assert_eq!(rows[1].0, "------");
}

#[test]
fn missing_user_and_host_give_bare_at() {
    let rows = empty_info().rows();
    assert_eq!(rows[0].0, "@");
    assert_eq!(rows[1].0, "-");
    assert_eq!(rows.len(), 2);
}

#[test]
fn numbering_passes_nine() {
    let mut info = empty_info();
    info.gpus = (0..11).map(|i| format!("g{i}")).collect();
    let rows = info.rows();
    assert_eq!(rows[11].0, "GPU 10");
    assert_eq!(rows[12].0, "GPU 11");
}

#[test]
fn as_vec_ends_with_palette_rows() {
    let mut info = empty_info();
    info.os = Some(String::from("Arch"));
    let n = 3;
    let rows = info.as_vec();
    assert_eq!(rows.len(), n + 2);
    assert_eq!(rows[n].0, "");
    assert_eq!(rows[n + 1].0, "");
    assert_eq!(rows[2], (String::from("OS"), String::from("Arch")));
}

#[test]
fn ios_backend_reports_nothing() {
    let ios = IosInfo::new();
    assert_eq!(ios.os(), None);
    assert_eq!(ios.hostname(), None);
    assert_eq!(ios.uptime(), None);
    assert!(ios.ip().is_empty());
    assert!(ios.gpus().is_empty());
    assert!(ios.disks().is_empty());
    assert_eq!(ios.id(), "unknown");
}

#[test]
fn palette_rows_close_the_records() {
    let mut info = empty_info();
    info.wm = Some(String::from("sway"));
    let rows = info.rows_with_palette(String::from("dark"), String::from("light"));
    assert_eq!(rows.len(), 5);
    assert_eq!(rows[2], (String::from("WM"), String::from("sway")));
    assert_eq!(rows[3], (String::new(), String::from("dark")));
    assert_eq!(rows[4], (String::new(), String::from("light")));
}

#[test]
fn ios_backend_has_no_single_facts() {
    let ios = IosInfo::new();
    assert_eq!(ios.sys_font(), None);
    assert_eq!(ios.cursor(), None);
    assert_eq!(ios.terminal(), None);
    assert_eq!(ios.term_font(), None);
    assert_eq!(ios.memory(), None);
    assert_eq!(ios.battery(), None);
    assert_eq!(ios.locale(), None);
    assert_eq!(ios.theme(), None);
    assert_eq!(ios.icons(), None);
    assert_eq!(ios.machine(), None);
    assert_eq!(ios.kernel(), None);
    assert_eq!(ios.wm(), None);
    assert_eq!(ios.de(), None);
    assert_eq!(ios.shell(), None);
    assert_eq!(ios.cpu(), None);
    assert_eq!(ios.username(), None);
    assert!(ios.displays().is_empty());
}
