use turbo_html2pdf::text::font::{is_font_extension, FontFace};
use turbo_html2pdf::text::registry::{FontRegistry, Generic};
use turbo_html2pdf::text::system::{system_font_dirs, FontDir, Os};

fn face(family: &str, weight: u16, italic: bool, from: u32, to: u32) -> FontFace {
    FontFace::new(family.to_string(), weight, italic, vec![(from, to)], 0)
}

#[test]
fn alias_generics_maps_generic_to_installed_family() {
    let helvetica = face("Helvetica", 400, false, 32, 126);
    let mut reg = FontRegistry::default();
    reg.add(helvetica);
    let before = reg.len();
    reg.alias_generics();
    assert!(reg.len() > before, "an aliased generic face was added");
    assert!(
        reg.select(&vec!["sans-serif"], 400, false).is_some(),
        "sans-serif now resolves to the aliased Helvetica face"
    );
    assert_eq!(reg.len(), before + 1);
}

#[test]
fn the_closest_weight_and_slant_win() {
    let mut reg = FontRegistry::default();
    reg.add(face("A", 400, false, 32, 126));
    reg.add(face("A", 700, false, 32, 126));
    reg.add(face("A", 400, true, 32, 126));
    assert_eq!(reg.select(&vec!["a"], 650, false).unwrap().weight, 700);
    assert!(reg.select(&vec!["a"], 400, true).unwrap().italic);
    assert!(reg.best_in_family("B", 400, false).is_none());
}

#[test]
fn an_unknown_family_falls_back_to_the_first_face() {
    let mut reg = FontRegistry::default();
    assert!(reg.is_empty());
    assert!(reg.select(&vec!["A"], 400, false).is_none());
    reg.add(face("A", 400, false, 32, 126));
    assert_eq!(reg.select(&vec!["B"], 400, false).unwrap().family, "A");
}

#[test]
fn a_glyph_comes_from_a_face_that_has_it() {
    let mut reg = FontRegistry::default();
    reg.add(face("Latin", 400, false, 32, 126));
    reg.add(face("Greek", 400, false, 0x370, 0x3ff));
    assert_eq!(reg.resolve_glyph(&vec!["Latin"], 400, false, 'a').unwrap().family, "Latin");
    assert_eq!(reg.resolve_glyph(&vec!["Latin"], 400, false, 'α').unwrap().family, "Greek");
    assert!(reg.resolve_glyph(&vec!["Latin"], 400, false, '語').is_none());
    assert!(reg.glyph_in_family("Latin", 400, false, 'α').is_none());
    assert_eq!(reg.glyph_in_family("greek", 400, false, 'α').unwrap().family, "Greek");
}

#[test]
fn bundled_faces_stand_in_for_generics() {
    let generics = vec![Generic { name: "serif".to_string(), reals: vec!["Tinos".to_string()] }];
    let reg = FontRegistry::new(vec![face("Tinos", 400, false, 32, 126)], generics);
    assert!(!reg.is_empty());
    assert_eq!(reg.len(), 0);
    assert_eq!(reg.select(&vec!["serif"], 400, false).unwrap().family, "Tinos");
    assert!(reg.select(&vec![], 400, false).is_some());
}

#[test]
fn font_files_are_known_by_their_extension() {
    assert!(is_font_extension("ttf"));
    assert!(is_font_extension("OTF"));
    assert!(!is_font_extension("txt"));
}

#[test]
fn system_font_dirs_lists_platform_dirs() {
    for os in [Os::MacOs, Os::Linux, Os::Windows] {
        assert!(!system_font_dirs(os, false, None).is_empty(), "expected some system font dirs");
    }
    assert!(system_font_dirs(Os::Other, true, None).is_empty());
    let linux = system_font_dirs(Os::Linux, true, None);
    assert_eq!(linux.len(), 4);
    assert!(matches!(&linux[0], FontDir::At(p) if p == "/usr/share/fonts"));
    assert!(matches!(&linux[3], FontDir::UnderHome(p) if p == ".local/share/fonts"));
    let windows = system_font_dirs(Os::Windows, true, Some("D:\\W"));
    assert!(matches!(&windows[0], FontDir::At(p) if p == "D:\\W\\Fonts"));
}
