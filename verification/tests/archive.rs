use bevy_editor::archive::ArchiveEntry;
use bevy_editor::entry::Content;
use bevy_editor::error::Failure;
use bevy_editor::templater::{Rendering, Templater};
use std::io::{Cursor, Write};
use tera::Context;
use zip::write::FileOptions;
use zip::{CompressionMethod, ZipArchive, ZipWriter};

fn archive_bytes(files: &[(&str, &[u8])]) -> Vec<u8> {
    let mut writer = ZipWriter::new(Cursor::new(Vec::new()));
    let options = FileOptions::default().compression_method(CompressionMethod::Stored);
    for (name, bytes) in files {
        if name.ends_with('/') {
            writer.add_directory(*name, options).unwrap();
        } else {
            writer.start_file(*name, options).unwrap();
            writer.write_all(bytes).unwrap();
        }
    }
    writer.finish().unwrap().into_inner()
}

fn archive(files: &[(&str, &[u8])]) -> ZipArchive<Cursor<Vec<u8>>> {
    ZipArchive::new(Cursor::new(archive_bytes(files))).unwrap()
}

fn rendered(t: &Templater, name: &str, context: &Context) -> Vec<u8> {
    let mut out = Vec::new();
    match t.render_to(name, context, &mut out).unwrap() {
        Rendering::Written => {}
        Rendering::EngineOwed => t.engine().render_to(name, context, &mut out).unwrap(),
    }
    out
}

fn sorted_names(t: &Templater) -> Vec<String> {
    let mut names = t.get_template_names();
    names.sort();
    names
}

#[test]
fn test_build_zip_tera() {
    let mut archive = archive(&[
        ("simple/", b""),
        ("simple/Cargo.toml", b"[package]\nname = \"simple\"\n"),
        ("simple/src/", b""),
        ("simple/src/main.rs", b"fn main() {}\n"),
        ("simple/src/simple.rs.tera", b"// {{ name }}\n"),
        ("simple/src/simple_raw.rs", b"// raw\n"),
    ]);
    let tera = Templater::from_zip(&mut archive).unwrap();
    assert_eq!(4, tera.get_template_names().len());
    assert_eq!(
        sorted_names(&tera),
        vec![
            "Cargo.toml".to_string(),
            "src/main.rs".to_string(),
            "src/simple.rs".to_string(),
            "src/simple_raw.rs".to_string(),
        ],
    );
}

#[test]
fn the_names_of_the_store_are_the_files_of_the_archive() {
    let files: Vec<(&str, &[u8])> = vec![
        ("top/", b""),
        ("top/a.txt", b"a"),
        ("top/dir/", b""),
        ("top/dir/b.bin", &[0, 1, 2, 255]),
        ("top/dir/deep/c.md.tera", b"# {{ name }}"),
        ("top/d.tera.tera", b"{{ literal }}"),
        ("other/e.txt", b"e"),
    ];
    let mut archive = archive(&files);
    let t = Templater::from_zip(&mut archive).unwrap();
    assert_eq!(
        t.get_template_names(),
        vec![
            "a.txt".to_string(),
            "dir/b.bin".to_string(),
            "dir/deep/c.md".to_string(),
            "d.tera".to_string(),
            "e.txt".to_string(),
        ]
    );
    assert_eq!(archive.len(), 7);
}

#[test]
fn deflated_entries_are_unpacked() {
    let mut writer = ZipWriter::new(Cursor::new(Vec::new()));
    let options = FileOptions::default().compression_method(CompressionMethod::Deflated);
    let text = "line of text\n".repeat(200);
    writer.start_file("t/long.txt", options).unwrap();
    writer.write_all(text.as_bytes()).unwrap();
    let bytes = writer.finish().unwrap().into_inner();
    assert!(bytes.len() < text.len());
    let mut archive = ZipArchive::new(Cursor::new(bytes)).unwrap();
    let t = Templater::from_zip(&mut archive).unwrap();
    assert_eq!(rendered(&t, "long.txt", &Context::new()), text.as_bytes().to_vec());
}

#[test]
fn an_archive_template_is_classified_and_rendered() {
    let mut archive = archive(&[
        ("tpl/Cargo.toml", b"[package]\nname = \"fixed\"\n"),
        ("tpl/src/main.rs.tera", b"// {{ name }}\nfn main() {}\n"),
        ("tpl/src/keep.tera.tera", b"{{ name }} stays\n"),
    ]);
    let t = Templater::from_zip(&mut archive).unwrap();
    assert_eq!(
        sorted_names(&t),
        vec!["Cargo.toml".to_string(), "src/keep.tera".to_string(), "src/main.rs".to_string()]
    );
    let mut context = Context::new();
    context.insert("name", "bobgame");
    let render = |name: &str| rendered(&t, name, &context);
    assert_eq!(render("Cargo.toml"), b"[package]\nname = \"fixed\"\n".to_vec());
    assert_eq!(render("src/main.rs"), b"// bobgame\nfn main() {}\n".to_vec());
    assert_eq!(render("src/keep.tera"), b"{{ name }} stays\n".to_vec());
    assert!(matches!(t.get("src/main.rs").unwrap().content, Content::Text(_)));
    assert!(t.get("src/main.rs.tera").is_none());
}

#[test]
fn no_entry_is_dropped_for_not_being_text() {
    let mut archive = archive(&[("t/a.tera", &[0xff, 0xfe]), ("t/b", &[0xc3, 0x28])]);
    let t = Templater::from_zip(&mut archive).unwrap();
    assert_eq!(t.get_template_names(), vec!["a".to_string(), "b".to_string()]);
    assert!(matches!(t.get("a").unwrap().content, Content::Binary(ref b) if b == &[0xff, 0xfe]));
}

#[test]
fn an_empty_archive_gives_an_empty_store() {
    let mut archive = archive(&[]);
    let t = Templater::from_zip(&mut archive).unwrap();
    assert_eq!(t.len(), 0);
    let mut only_directories = self::archive(&[("top/", b""), ("top/sub/", b"")]);
    assert_eq!(Templater::from_zip(&mut only_directories).unwrap().len(), 0);
}

#[test]
fn names_that_would_leave_the_root_are_refused() {
    for name in [
        "top/../../evil",
        "top/../evil",
        "../evil",
        "/abs/evil",
        "top/a/../../../evil",
        "top//evil",
        "top/./evil",
        "top\\evil",
        "c:/evil",
        "top/c:evil",
    ] {
        let mut archive = archive(&[("top/ok.txt", b"ok"), (name, b"evil")]);
        let r = Templater::from_zip(&mut archive);
        assert!(matches!(r, Err(Failure::MalformedArchiveEntry)), "{:?}", name);
    }
}

#[test]
fn a_file_outside_a_top_level_directory_is_refused() {
    let mut archive = archive(&[("file.txt", b"x")]);
    assert!(matches!(Templater::from_zip(&mut archive), Err(Failure::MalformedArchiveEntry)));
}

#[test]
fn a_template_that_does_not_parse_fails_the_load() {
    let mut archive = archive(&[("t/ok.txt", b"x"), ("t/bad.tera", b"{% for %}")]);
    assert!(matches!(Templater::from_zip(&mut archive), Err(Failure::InvalidTemplate(_))));
}

#[test]
fn an_entry_that_cannot_be_read_fails_the_load() {
    let mut bytes = archive_bytes(&[("t/a.txt", b"aaaa")]);
    bytes[0] = b'X';
    let mut archive = ZipArchive::new(Cursor::new(bytes)).unwrap();
    assert_eq!(archive.len(), 1);
    match Templater::from_zip(&mut archive) {
        Err(Failure::UnreadableArchive(message)) => assert!(!message.is_empty()),
        other => panic!("{:?}", other.map(|t| t.len())),
    }
}

#[test]
fn a_damaged_entry_fails_the_load() {
    let mut bytes = archive_bytes(&[("t/a.txt", b"aaaa")]);
    let at = bytes.windows(4).position(|w| w == b"aaaa").unwrap();
    bytes[at] = b'b';
    let mut archive = ZipArchive::new(Cursor::new(bytes)).unwrap();
    assert!(matches!(Templater::from_zip(&mut archive), Err(Failure::UnreadableArchive(_))));
}

fn entry(name: &str, is_file: bool, enclosed: Option<&str>, data: &[u8]) -> ArchiveEntry {
    ArchiveEntry {
        name: name.to_string(),
        is_file,
        enclosed: enclosed.map(|p| p.to_string()),
        data: data.to_vec(),
    }
}

#[test]
fn one_entry_at_a_time() {
    let mut t = Templater::default();
    t.add_archive_entry(&entry("top/", false, Some("top/"), b"")).unwrap();
    assert_eq!(t.len(), 0);
    t.add_archive_entry(&entry("top/a/b.txt", true, Some("top/a/b.txt"), b"b")).unwrap();
    assert_eq!(t.get_template_names(), vec!["a/b.txt".to_string()]);
    let r = t.add_archive_entry(&entry("top/c.txt", true, None, b"c"));
    assert!(matches!(r, Err(Failure::MalformedArchiveEntry)));
    let r = t.add_archive_entry(&entry("top/c.txt", true, Some("elsewhere/c.txt"), b"c"));
    assert!(matches!(r, Err(Failure::MalformedArchiveEntry)));
    let r = t.add_archive_entry(&entry("top/.tera", true, Some("top/.tera"), b"c"));
    assert!(matches!(r, Err(Failure::MalformedArchiveEntry)));
    assert_eq!(t.get_template_names(), vec!["a/b.txt".to_string()]);
}

#[test]
fn names_with_dots_that_are_no_dot_components_are_let_in() {
    let mut archive = archive(&[("top/..b", b"1"), ("top/...", b"2"), ("top/.hidden", b"3"), ("top/a..", b"4")]);
    let t = Templater::from_zip(&mut archive).unwrap();
    assert_eq!(
        t.get_template_names(),
        vec!["..b".to_string(), "...".to_string(), ".hidden".to_string(), "a..".to_string()]
    );
}

#[test]
fn an_entry_whose_name_ends_in_a_backslash_is_a_directory() {
    let mut archive = archive(&[("top/odd\\", b"not a file"), ("top/a", b"a")]);
    let t = Templater::from_zip(&mut archive).unwrap();
    assert_eq!(t.get_template_names(), vec!["a".to_string()]);
}

#[test]
fn an_entry_that_asks_for_a_password_fails_the_load() {
    let mut bytes = archive_bytes(&[("t/a.txt", b"aaaa")]);
    let central = bytes.windows(4).position(|w| w == b"PK\x01\x02").unwrap();
    bytes[central + 8] |= 1;
    let mut archive = ZipArchive::new(Cursor::new(bytes)).unwrap();
    assert!(matches!(Templater::from_zip(&mut archive), Err(Failure::UnreadableArchive(_))));
}

#[test]
fn an_entry_marked_for_a_cipher_it_is_not_flagged_for_fails_the_load() {
    let mut writer = ZipWriter::new(Cursor::new(Vec::new()));
    let options = FileOptions::default().compression_method(CompressionMethod::Stored);
    writer
        .start_file_with_extra_data("t/a.txt", options)
        .unwrap();
    let field = [0xfe, 0xca, 7, 0, 2, 0, b'A', b'E', 3, 0, 0];
    writer.write_all(&field).unwrap();
    writer.end_extra_data().unwrap();
    writer.write_all(b"aaaa").unwrap();
    let mut bytes = writer.finish().unwrap().into_inner();
    let mut marked = 0;
    for at in 0..bytes.len() - field.len() {
        if bytes[at..at + field.len()] == field {
            bytes[at] = 0x01;
            bytes[at + 1] = 0x99;
            marked += 1;
        }
    }
    assert_eq!(marked, 2);
    let mut archive = ZipArchive::new(Cursor::new(bytes)).unwrap();
    assert!(matches!(Templater::from_zip(&mut archive), Err(Failure::UnreadableArchive(_))));
}

#[test]
fn the_first_fault_of_an_archive_decides() {
    let mut bytes = archive_bytes(&[("t/../../evil", b"e"), ("t/a.txt", b"aaaa")]);
    let at = bytes.windows(4).position(|w| w == b"aaaa").unwrap();
    bytes[at] = b'b';
    let mut archive = ZipArchive::new(Cursor::new(bytes)).unwrap();
    assert!(matches!(Templater::from_zip(&mut archive), Err(Failure::MalformedArchiveEntry)));
    let mut bytes = archive_bytes(&[("t/a.txt", b"aaaa"), ("t/../../evil", b"e")]);
    let at = bytes.windows(4).position(|w| w == b"aaaa").unwrap();
    bytes[at] = b'b';
    let mut archive = ZipArchive::new(Cursor::new(bytes)).unwrap();
    assert!(matches!(Templater::from_zip(&mut archive), Err(Failure::UnreadableArchive(_))));
}
