use mirafetch::archive::{archive_flags, archive_icons, load_flags, load_icons};
use mirafetch::asset::{get_icon, process_ascii_art, AsciiArt, AssetError, IconSource};
use mirafetch::color::Color;
use mirafetch::scheme::get_colorscheme;
use mirafetch::template::compile_template;

fn seg(i: u8, t: &str) -> (u8, String) {
    (i, String::from(t))
}

fn arch_source() -> IconSource {
    IconSource {
        name: vec![String::from("Arch"), String::from("ArchLinux")],
        colors: vec![Color::Cyan, Color::Blue],
        width: 4,
        art: String::from("${c1}  /\\\n${c2} /  \\\n"),
    }
}

fn debian_source() -> IconSource {
    IconSource {
        name: vec![String::from("debian")],
        colors: vec![Color::Red, Color::Rgb { r: 1, g: 2, b: 3 }, Color::AnsiValue(200)],
        width: 3,
        art: String::from("${c1}@@@\n${c3}ｄé\n"),
    }
}

fn same_art(a: &AsciiArt, b: &AsciiArt) {
    assert_eq!(a.name, b.name);
    assert_eq!(a.colors, b.colors);
    assert_eq!(a.width, b.width);
    assert_eq!(a.height, b.height);
    assert_eq!(a.art, b.art);
}

#[test]
fn template_splits_on_markers() {
    let segs = compile_template("${c1}AA${c2}BB").unwrap();
    assert_eq!(segs, vec![seg(1, "AA"), seg(2, "BB")]);
}

#[test]
fn template_drops_preamble() {
    let segs = compile_template("junk${c1}AA").unwrap();
    assert_eq!(segs, vec![seg(1, "AA")]);
}

#[test]
fn template_without_markers_is_empty() {
    assert_eq!(compile_template("plain text").unwrap(), vec![]);
    assert_eq!(compile_template("").unwrap(), vec![]);
}

#[test]
fn template_keeps_unfinished_markers_as_text() {
    let segs = compile_template("${c2}x${c${c1}y$").unwrap();
    assert_eq!(segs, vec![seg(2, "x${c"), seg(1, "y$")]);
}

#[test]
fn template_reads_leading_zeros_and_empty_chunks() {
    let segs = compile_template("${c007}${c12}z").unwrap();
    assert_eq!(segs, vec![seg(7, ""), seg(12, "z")]);
}

#[test]
fn template_rejects_bad_markers() {
    assert_eq!(compile_template("${c}x"), None);
    assert_eq!(compile_template("${c1}a${c256}b"), None);
    assert!(compile_template("${c255}b").is_some());
}

#[test]
fn compile_lowercases_and_counts_lines() {
    let a = AsciiArt::compile(&arch_source()).unwrap();
    assert_eq!(a.name, vec![String::from("arch"), String::from("archlinux")]);
    assert_eq!(a.height, 2);
    assert_eq!(a.width, 4);
    assert_eq!(a.art, vec![seg(1, "  /\\\n"), seg(2, " /  \\\n")]);
}

#[test]
fn compile_rejects_index_outside_palette() {
    let mut src = arch_source();
    src.art = String::from("${c3}x");
    assert!(matches!(AsciiArt::compile(&src), Err(AssetError::InvalidAsset)));
    src.art = String::from("${c0}x");
    assert!(matches!(AsciiArt::compile(&src), Err(AssetError::InvalidAsset)));
}

#[test]
fn process_stops_at_first_bad_icon() {
    let mut bad = debian_source();
    bad.art = String::from("${c}");
    assert!(process_ascii_art(&vec![arch_source(), debian_source()]).is_ok());
    assert!(matches!(
        process_ascii_art(&vec![arch_source(), bad]),
        Err(AssetError::InvalidAsset)
    ));
}

#[test]
fn lookup_ignores_case() {
    let icons = process_ascii_art(&vec![arch_source(), debian_source()]).unwrap();
    let upper = get_icon(&icons, "ARCH").unwrap();
    let lower = get_icon(&icons, "arch").unwrap();
    same_art(&upper, &lower);
    assert_eq!(upper.name[0], "arch");
    assert_eq!(get_icon(&icons, "Debian").unwrap().colors[0], Color::Red);
}

#[test]
fn lookup_reports_missing_icon() {
    let icons = process_ascii_art(&vec![arch_source()]).unwrap();
    assert!(matches!(get_icon(&icons, "gentoo"), Err(AssetError::NotFound)));
}

#[test]
fn icon_archive_round_trip() {
    let icons = process_ascii_art(&vec![arch_source(), debian_source()]).unwrap();
    let bytes = archive_icons(&icons);
    let back = load_icons(&bytes).unwrap();
    assert_eq!(back.len(), 2);
    same_art(&back[0], &icons[0]);
    same_art(&back[1], &icons[1]);
}

#[test]
fn empty_icon_archive_round_trip() {
    let bytes = archive_icons(&vec![]);
    assert_eq!(bytes, vec![0u8; 8]);
    assert!(load_icons(&bytes).unwrap().is_empty());
}

#[test]
fn archive_stores_lengths_and_chars() {
    let icons = process_ascii_art(&vec![IconSource {
        name: vec![String::from("a")],
        colors: vec![Color::Grey],
        width: 258,
        art: String::from("${c1}"),
    }])
    .unwrap();
    let bytes = archive_icons(&icons);
    let expected: Vec<u8> = vec![
        1, 0, 0, 0, 0, 0, 0, 0, // one icon
        1, 0, 0, 0, 0, 0, 0, 0, // one alias
        1, 0, 0, 0, 0, 0, 0, 0, b'a', 0, 0, 0, // "a"
        1, 0, 0, 0, 0, 0, 0, 0, 16, // one colour: grey
        2, 1, 1, 0, // width 258, height 1
        1, 0, 0, 0, 0, 0, 0, 0, 1, 0, 0, 0, 0, 0, 0, 0, 0, // one segment: (1, "")
    ];
    assert_eq!(bytes, expected);
}

#[test]
fn truncated_archive_is_corrupt() {
    let icons = process_ascii_art(&vec![arch_source()]).unwrap();
    let bytes = archive_icons(&icons);
    for cut in [0, 7, 8, bytes.len() / 2, bytes.len() - 1] {
        assert!(matches!(load_icons(&bytes[..cut].to_vec()), Err(AssetError::ArchiveCorrupt)));
    }
}

#[test]
fn trailing_bytes_are_corrupt() {
    let icons = process_ascii_art(&vec![arch_source()]).unwrap();
    let mut bytes = archive_icons(&icons);
    bytes.push(0);
    assert!(matches!(load_icons(&bytes), Err(AssetError::ArchiveCorrupt)));
}

#[test]
fn bad_colour_index_in_archive_is_corrupt() {
    let icons = process_ascii_art(&vec![IconSource {
        name: vec![String::from("a")],
        colors: vec![Color::Grey],
        width: 1,
        art: String::from("${c1}x"),
    }])
    .unwrap();
    let mut bytes = archive_icons(&icons);
    let at = bytes.len() - 13;
    assert_eq!(bytes[at], 1);
    bytes[at] = 2;
    assert!(matches!(load_icons(&bytes), Err(AssetError::ArchiveCorrupt)));
}

#[test]
fn surrogate_char_in_archive_is_corrupt() {
    let icons = process_ascii_art(&vec![IconSource {
        name: vec![String::from("a")],
        colors: vec![Color::Grey],
        width: 1,
        art: String::from("${c1}"),
    }])
    .unwrap();
    let mut bytes = archive_icons(&icons);
    bytes[24] = 0x00;
    bytes[25] = 0xD8;
    assert!(matches!(load_icons(&bytes), Err(AssetError::ArchiveCorrupt)));
}

#[test]
fn unknown_colour_tag_is_corrupt() {
    let icons = process_ascii_art(&vec![arch_source()]).unwrap();
    let mut bytes = archive_icons(&icons);
    let mut hit = false;
    for i in 0..bytes.len() {
        if bytes[i] == 13 && bytes[i - 1] == 0 && bytes[i + 1] == 9 {
            bytes[i] = 19;
            hit = true;
            break;
        }
    }
    assert!(hit);
    assert!(matches!(load_icons(&bytes), Err(AssetError::ArchiveCorrupt)));
}

fn schemes() -> Vec<(String, Vec<(u8, u8, u8)>)> {
    vec![
        (String::from("Trans"), vec![(91, 206, 250), (245, 169, 184), (255, 255, 255)]),
        (String::from("lesbian"), vec![(213, 45, 0), (255, 255, 255), (163, 2, 98)]),
    ]
}

#[test]
fn scheme_lookup_ignores_case() {
    let s = schemes();
    let c = get_colorscheme(&s, "trans").unwrap();
    assert_eq!(
        c,
        vec![
            Color::Rgb { r: 91, g: 206, b: 250 },
            Color::Rgb { r: 245, g: 169, b: 184 },
            Color::Rgb { r: 255, g: 255, b: 255 }
        ]
    );
    assert_eq!(get_colorscheme(&s, "LESBIAN").unwrap()[2], Color::Rgb { r: 163, g: 2, b: 98 });
    assert!(matches!(get_colorscheme(&s, "pride"), Err(AssetError::NotFound)));
}

#[test]
fn scheme_archive_round_trip() {
    let s = schemes();
    let bytes = archive_flags(&s);
    assert_eq!(load_flags(&bytes).unwrap(), s);
    let mut bad = bytes.clone();
    bad.pop();
    assert!(matches!(load_flags(&bad), Err(AssetError::ArchiveCorrupt)));
}
