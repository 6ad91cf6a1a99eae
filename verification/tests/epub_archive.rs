use std::io::{Cursor, Read};

use papyrust::epub::archive::{pack, CoverFiles, EpubPackage};

fn minimal_pkg() -> EpubPackage<'static> {
    EpubPackage {
        opf: "<package/>".into(),
        nav: "<nav/>".into(),
        stylesheet: "body{}",
        title_xhtml: "<html/>".into(),
        copyright_xhtml: "<html/>".into(),
        cover: None,
        front_matter_xhtml: vec![],
        chapter_xhtml: vec!["<html>chapter 1</html>".into()],
        back_matter_xhtml: vec![],
    }
}

fn read_archive(bytes: Vec<u8>) -> zip::ZipArchive<Cursor<Vec<u8>>> {
    zip::ZipArchive::new(Cursor::new(bytes)).expect("valid zip")
}

fn entry_text(archive: &mut zip::ZipArchive<Cursor<Vec<u8>>>, name: &str) -> String {
    let mut file = archive.by_name(name).unwrap();
    let mut s = String::new();
    file.read_to_string(&mut s).unwrap();
    s
}

#[test]
fn writes_a_valid_zip() {
    let bytes = pack(&minimal_pkg()).unwrap();
    assert!(bytes.starts_with(&[0x50, 0x4B]));
    let _ = read_archive(bytes);
}

#[test]
fn mimetype_is_first_entry_and_stored() {
    let bytes = pack(&minimal_pkg()).unwrap();
    let name_len = u16::from_le_bytes([bytes[26], bytes[27]]) as usize;
    let name = &bytes[30..30 + name_len];
    assert_eq!(name, b"mimetype");
    let compression = u16::from_le_bytes([bytes[8], bytes[9]]);
    assert_eq!(compression, 0, "mimetype must be stored");
    let needle = b"application/epub+zip";
    assert!(bytes.windows(needle.len()).any(|w| w == needle));
}

#[test]
fn contains_required_layout_entries() {
    let archive = read_archive(pack(&minimal_pkg()).unwrap());
    let names: Vec<&str> = archive.file_names().collect();
    for required in [
        "mimetype",
        "META-INF/container.xml",
        "OEBPS/content.opf",
        "OEBPS/nav.xhtml",
        "OEBPS/theme.css",
        "OEBPS/title.xhtml",
        "OEBPS/copyright.xhtml",
        "OEBPS/chapter-001.xhtml",
    ] {
        assert!(names.contains(&required), "missing {required} in {names:?}");
    }
}

#[test]
fn includes_cover_when_present() {
    let mut pkg = minimal_pkg();
    pkg.cover = Some(CoverFiles { xhtml: "<html>cover</html>".into(), image_bytes: &[0xff, 0xd8, 0xff] });
    let archive = read_archive(pack(&pkg).unwrap());
    let names: Vec<&str> = archive.file_names().collect();
    assert!(names.contains(&"OEBPS/cover.xhtml"));
    assert!(names.contains(&"OEBPS/cover.jpg"));
}

#[test]
fn omits_cover_when_absent() {
    let archive = read_archive(pack(&minimal_pkg()).unwrap());
    let names: Vec<&str> = archive.file_names().collect();
    assert!(!names.contains(&"OEBPS/cover.xhtml"));
    assert!(!names.contains(&"OEBPS/cover.jpg"));
}

#[test]
fn entries_hold_the_package_texts() {
    let mut archive = read_archive(pack(&minimal_pkg()).unwrap());
    assert_eq!(entry_text(&mut archive, "mimetype"), "application/epub+zip");
    assert_eq!(entry_text(&mut archive, "OEBPS/content.opf"), "<package/>");
    assert_eq!(entry_text(&mut archive, "OEBPS/theme.css"), "body{}");
    assert_eq!(entry_text(&mut archive, "OEBPS/chapter-001.xhtml"), "<html>chapter 1</html>");
    assert!(entry_text(&mut archive, "META-INF/container.xml").contains("OEBPS/content.opf"));
}

#[test]
fn entries_are_written_in_reading_order() {
    let mut pkg = minimal_pkg();
    pkg.front_matter_xhtml = vec!["f".into()];
    pkg.chapter_xhtml = vec!["c1".into(), "c2".into()];
    pkg.back_matter_xhtml = vec!["b".into()];
    let archive = read_archive(pack(&pkg).unwrap());
    let names: Vec<String> = (0..archive.len())
        .map(|i| archive.name_for_index(i).unwrap().to_string())
        .collect();
    assert_eq!(
        names,
        vec![
            "mimetype",
            "META-INF/container.xml",
            "OEBPS/content.opf",
            "OEBPS/theme.css",
            "OEBPS/nav.xhtml",
            "OEBPS/title.xhtml",
            "OEBPS/copyright.xhtml",
            "OEBPS/front-001.xhtml",
            "OEBPS/chapter-001.xhtml",
            "OEBPS/chapter-002.xhtml",
            "OEBPS/back-001.xhtml",
        ]
    );
}

#[test]
fn packing_is_deterministic() {
    assert_eq!(pack(&minimal_pkg()).unwrap(), pack(&minimal_pkg()).unwrap());
}

#[test]
fn entry_names_stay_distinct_past_three_digits() {
    let mut pkg = minimal_pkg();
    pkg.chapter_xhtml = (0..1001).map(|i| format!("<p>{i}</p>")).collect();
    let archive = read_archive(pack(&pkg).unwrap());
    let mut names: Vec<&str> = archive.file_names().collect();
    let total = names.len();
    names.sort();
    names.dedup();
    assert_eq!(names.len(), total);
    assert!(names.contains(&"OEBPS/chapter-1001.xhtml"));
    assert!(names.contains(&"OEBPS/chapter-100.xhtml"));
}
