use mirafetch::asset::{AsciiArt, AssetError, IconSource};
use mirafetch::color::{Color, Styled};
use mirafetch::colorizer::{Colorizer, DefaultColorizer, FlagColorizer, Orientation};
use mirafetch::config::{colorize_logo, get_colorscheme_from_settings, get_os_id, Config};

fn icon(art: &str, width: u16) -> AsciiArt {
    AsciiArt::compile(&IconSource {
        name: vec![String::from("t")],
        colors: vec![Color::Red, Color::Green],
        width,
        art: String::from(art),
    })
    .unwrap()
}

fn pieces(v: &[Styled]) -> Vec<(String, Color)> {
    v.iter().map(|s| (s.text.clone(), s.color)).collect()
}

fn p(t: &str, c: Color) -> (String, Color) {
    (String::from(t), c)
}

#[test]
fn default_colorizer_uses_own_palette() {
    let art = icon("${c2}ab${c1}c\n", 3);
    let out = DefaultColorizer {}.colorize(&art).unwrap();
    assert_eq!(pieces(&out), vec![p("ab", Color::Green), p("c\n", Color::Red)]);
}

#[test]
fn horizontal_bands_whole_lines() {
    let art = icon("${c1}aa\n${c2}bb\r\ncc\n", 2);
    let flag = FlagColorizer {
        color_scheme: vec![Color::Blue, Color::White],
        orientation: Orientation::Horizontal,
    };
    let out = flag.colorize(&art).unwrap();
    assert_eq!(
        pieces(&out),
        vec![p("aa\n", Color::Blue), p("bb\n", Color::White), p("cc\n", Color::White)]
    );
}

#[test]
fn vertical_bands_columns() {
    let art = icon("${c1}abc\n${c2}def", 3);
    let flag = FlagColorizer {
        color_scheme: vec![Color::Blue, Color::White, Color::Red],
        orientation: Orientation::Vertical,
    };
    let out = flag.colorize(&art).unwrap();
    assert_eq!(
        pieces(&out),
        vec![
            p("a", Color::Blue),
            p("b", Color::White),
            p("c", Color::Red),
            p("\n", Color::Reset),
            p("d", Color::Blue),
            p("e", Color::White),
            p("f", Color::Red),
            p("\n", Color::Reset),
        ]
    );
}

#[test]
fn vertical_needs_rectangular_art() {
    let flag = FlagColorizer {
        color_scheme: vec![Color::Blue],
        orientation: Orientation::Vertical,
    };
    assert!(matches!(flag.colorize(&icon("${c1}ab\n${c2}c", 2)), Err(AssetError::InvalidAsset)));
    assert!(matches!(flag.colorize(&icon("", 0)), Err(AssetError::InvalidAsset)));
}

#[test]
fn empty_scheme_is_invalid() {
    let flag = FlagColorizer { color_scheme: vec![], orientation: Orientation::Horizontal };
    assert!(matches!(flag.colorize(&icon("${c1}a", 1)), Err(AssetError::InvalidAsset)));
}

#[test]
fn scheme_without_orientation_is_refused() {
    let art = icon("${c1}a", 1);
    let r = colorize_logo(None, &Some(vec![Color::Blue]), &art);
    assert!(matches!(r, Err(AssetError::MissingOrientation)));
}

#[test]
fn no_scheme_means_own_palette() {
    let art = icon("${c1}a${c2}b", 2);
    let out = colorize_logo(Some(Orientation::Vertical), &None, &art).unwrap();
    assert_eq!(pieces(&out), vec![p("a", Color::Red), p("b", Color::Green)]);
}

#[test]
fn scheme_with_orientation_bands() {
    let art = icon("${c1}ab\n", 2);
    let out = colorize_logo(Some(Orientation::Horizontal), &Some(vec![Color::Grey]), &art).unwrap();
    assert_eq!(pieces(&out), vec![p("ab\n", Color::Grey)]);
}

#[test]
fn later_settings_win() {
    let file = Config::new(Some(String::from("trans")), Some(Orientation::Vertical), None);
    let args = Config::default().with_icon(String::from("arch"));
    let merged = file.with_config(args);
    assert_eq!(merged.scheme_name.as_deref(), Some("trans"));
    assert_eq!(merged.orientation, Some(Orientation::Vertical));
    assert_eq!(merged.icon_name.as_deref(), Some("arch"));
    let over = merged
        .with_config(Config::default().with_orientation(&Orientation::Horizontal).with_scheme_name(String::from("pan")));
    assert_eq!(over.orientation, Some(Orientation::Horizontal));
    assert_eq!(over.scheme_name.as_deref(), Some("pan"));
    assert_eq!(over.icon_name.as_deref(), Some("arch"));
}

#[test]
fn icon_name_falls_back_to_id() {
    let c = Config::default();
    assert_eq!(get_os_id(&c, &String::from("ubuntu")), "ubuntu");
    let c = c.with_icon(String::from("Arch"));
    assert_eq!(get_os_id(&c, &String::from("ubuntu")), "Arch");
}

#[test]
fn settings_scheme_lookup() {
    let schemes = vec![(String::from("bi"), vec![(214u8, 2u8, 112u8)])];
    assert_eq!(get_colorscheme_from_settings(&Config::default(), &schemes).unwrap(), None);
    let c = Config::default().with_scheme_name(String::from("BI"));
    assert_eq!(
        get_colorscheme_from_settings(&c, &schemes).unwrap(),
        Some(vec![Color::Rgb { r: 214, g: 2, b: 112 }])
    );
    let c = Config::default().with_scheme_name(String::from("none"));
    assert!(matches!(get_colorscheme_from_settings(&c, &schemes), Err(AssetError::NotFound)));
}
