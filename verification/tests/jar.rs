use kujav::errors::ErrorKind;
use kujav::jar::{
    archive_failure, class_entry_name, class_names_of, jar_bytes, manifest_text, read_jar_bytes,
    write_failure,
};
use kujav::pipeline::compile_source;
use std::io::Read;

#[test]
fn manifest_names_the_class_of_the_entry_point() {
    assert_eq!(manifest_text("Salida"), "Manifest-Version: 1.0\nMain-Class: Salida\n\n");
    assert_eq!(class_entry_name("Salida"), "Salida.class");
}

#[test]
fn classes_are_the_entries_that_end_with_class() {
    let names: Vec<String> = ["a/B.class", "META-INF/MANIFEST.MF", "C.class", ".class", "x.classes", "p.class.class", "q.classq.class", "short"]
        .iter()
        .map(|s| s.to_string())
        .collect();
    assert_eq!(class_names_of(&names).class_names, vec!["a/B", "C", "", "p", "qq"]);
    assert!(class_names_of(&Vec::new()).class_names.is_empty());
}

#[test]
fn archive_holds_the_manifest_and_the_class() {
    let class = compile_source("Salida", "print 1").unwrap();
    let jar = jar_bytes("Salida", &class).unwrap();
    assert_ne!(jar, class);
    assert_eq!(&jar[0..2], b"PK");
    let mut archive = zip::ZipArchive::new(std::io::Cursor::new(jar.clone())).unwrap();
    assert_eq!(archive.len(), 2);
    let mut manifest = String::new();
    archive.by_name("META-INF/MANIFEST.MF").unwrap().read_to_string(&mut manifest).unwrap();
    assert_eq!(manifest, "Manifest-Version: 1.0\nMain-Class: Salida\n\n");
    let mut stored = Vec::new();
    archive.by_name("Salida.class").unwrap().read_to_end(&mut stored).unwrap();
    assert_eq!(stored, class);
    assert_eq!(archive.by_index(0).unwrap().name(), "META-INF/MANIFEST.MF");
    assert_eq!(archive.by_index(1).unwrap().name(), "Salida.class");
    let again = jar_bytes("Salida", &class).unwrap();
    assert_eq!(jar, again);
}

#[test]
fn archive_is_read_back() {
    let jar = jar_bytes("demo/Main", &[1, 2, 3]).unwrap();
    let meta = read_jar_bytes(jar).unwrap();
    assert_eq!(meta.class_names, vec!["demo/Main"]);
    assert!(read_jar_bytes(vec![1, 2, 3, 4]).is_err());
    assert!(read_jar_bytes(Vec::new()).is_err());
}

#[test]
fn archive_without_entries_holds_no_classes() {
    let mut writer = zip::ZipWriter::new(std::io::Cursor::new(Vec::new()));
    let empty = writer.finish().unwrap().into_inner();
    let meta = read_jar_bytes(empty).unwrap();
    assert!(meta.class_names.is_empty());
}

#[test]
fn archive_with_a_broken_entry_is_refused() {
    let mut jar = jar_bytes("Salida", &[1, 2, 3]).unwrap();
    // the manifest is the first entry, and its header the first bytes
    assert_eq!(&jar[0..4], &[0x50, 0x4B, 0x03, 0x04]);
    jar[2] = 0;
    assert_eq!(read_jar_bytes(jar).unwrap_err(), "unreadable entry");
}

#[test]
fn classes_come_out_in_the_order_of_the_entries() {
    let mut writer = zip::ZipWriter::new(std::io::Cursor::new(Vec::new()));
    for name in ["z/Last.class", "notes.txt", "a/First.class", "b.class.class"] {
        writer.start_file(name, zip::write::FileOptions::default()).unwrap();
    }
    let bytes = writer.finish().unwrap().into_inner();
    let meta = read_jar_bytes(bytes).unwrap();
    assert_eq!(meta.class_names, vec!["z/Last", "a/First", "b"]);
}

#[test]
fn failures_have_their_kinds() {
    let e = archive_failure("broken".to_string());
    assert_eq!(e.kind(), ErrorKind::Bytecode);
    assert_eq!(e.message(), "broken");
    let e = write_failure("disk".to_string());
    assert_eq!(e.kind(), ErrorKind::Io);
    assert_eq!(e.message(), "disk");
}

#[test]
fn class_without_bytes_is_an_empty_entry() {
    let jar = jar_bytes("Vacia", &[]).unwrap();
    let mut archive = zip::ZipArchive::new(std::io::Cursor::new(jar.clone())).unwrap();
    assert_eq!(archive.len(), 2);
    let mut stored = Vec::new();
    archive.by_name("Vacia.class").unwrap().read_to_end(&mut stored).unwrap();
    assert!(stored.is_empty());
    assert_eq!(read_jar_bytes(jar).unwrap().class_names, vec!["Vacia"]);
}

#[test]
fn writing_nothing_outside_an_entry_is_no_error() {
    // the archive library is not asked where there is nothing to write
    let mut writer = zip::ZipWriter::new(std::io::Cursor::new(Vec::new()));
    assert!(std::io::Write::write_all(&mut writer, &[]).is_ok());
    assert!(std::io::Write::write_all(&mut writer, &[1]).is_err());
}
