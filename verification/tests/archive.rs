use launcher::gui::archive::{begin_unpack, unpack_step, UnpackError, UnpackStep, Unpacking};
use std::io::{Cursor, Write};
use zip::write::SimpleFileOptions;
use zip::{CompressionMethod, ZipWriter};

fn packed(files: &[(&str, &[u8])], method: CompressionMethod) -> Vec<u8> {
    let mut writer = ZipWriter::new(Cursor::new(Vec::new()));
    let options = SimpleFileOptions::default().compression_method(method);
    for (name, data) in files {
        writer.start_file(*name, options).unwrap();
        writer.write_all(data).unwrap();
    }
    writer.finish().unwrap().into_inner()
}

fn place(bytes: &[u8], what: &[u8]) -> usize {
    bytes.windows(what.len()).position(|w| w == what).unwrap()
}

fn next_file(run: &mut Unpacking) -> (Option<String>, String) {
    match run.step("C:\\game").unwrap() {
        Some(UnpackStep::File(dir, path)) => (dir, path),
        other => panic!("{other:?}"),
    }
}

#[test]
fn unpacks_directories_and_files_in_order() {
    let mut writer = ZipWriter::new(Cursor::new(Vec::new()));
    let options =
        SimpleFileOptions::default().compression_method(CompressionMethod::Deflated);
    writer.add_directory("data/", options).unwrap();
    writer.start_file("one.txt", options).unwrap();
    writer.write_all(&[b'x'; 300]).unwrap();
    writer.start_file("two.txt", options).unwrap();
    let bytes = writer.finish().unwrap().into_inner();

    let mut run = begin_unpack(bytes).unwrap();
    assert!(matches!(run.step("C:\\game"), Ok(Some(UnpackStep::Directory(p))) if p == "C:\\game\\data"));
    assert!(!run.pending);
    assert_eq!(
        next_file(&mut run),
        (Some("C:\\game".to_string()), "C:\\game\\one.txt".to_string())
    );
    assert!(run.pending);
    assert_eq!(run.contents().unwrap(), vec![b'x'; 300]);
    assert_eq!(next_file(&mut run).1, "C:\\game\\two.txt");
    assert_eq!(run.contents().unwrap(), Vec::<u8>::new());
    assert!(matches!(run.step("C:\\game"), Ok(None)));
    assert_eq!((run.at, run.count, run.pending), (3, 2, false));
}

#[test]
fn names_lead_neither_up_nor_to_a_root() {
    let bytes = packed(
        &[("../up.txt", b"a"), ("/root.txt", b"b"), ("a\\..\\b.txt", b"c")],
        CompressionMethod::Stored,
    );
    let mut run = begin_unpack(bytes).unwrap();
    let mut names = Vec::new();
    for _ in 0..3 {
        names.push(next_file(&mut run).1.replace('/', "\\"));
        run.contents().unwrap();
    }
    assert_eq!(
        names,
        ["C:\\game\\up.txt", "C:\\game\\root.txt", "C:\\game\\a\\b.txt"]
    );
}

#[test]
fn bytes_that_are_no_archive_are_refused() {
    let error = match begin_unpack(b"no archive".to_vec()) {
        Err(e) => e,
        Ok(_) => panic!(),
    };
    assert!(matches!(error, UnpackError::Archive(_)));
    assert_eq!(error.heading().as_deref(), Some("解析 zip 失敗"));
}

#[test]
fn an_entry_with_a_password_is_not_opened() {
    let mut bytes = packed(
        &[("a.txt", b"one"), ("b.txt", b"two")],
        CompressionMethod::Stored,
    );
    let first = place(&bytes, b"PK\x01\x02");
    let second = first + 4 + place(&bytes[first + 4..], b"PK\x01\x02");
    bytes[second + 8] |= 1;
    let mut run = begin_unpack(bytes).unwrap();
    next_file(&mut run);
    assert_eq!(run.contents().unwrap(), b"one");
    let error = run.step("C:\\game").unwrap_err();
    assert_eq!(error.heading().as_deref(), Some("讀取 zip entry #1"));
    match error {
        UnpackError::Entry(i, cause) => {
            assert_eq!(i, 1);
            assert_eq!(
                cause.to_string(),
                "unsupported Zip archive: Password required to decrypt file"
            );
        }
        other => panic!("{other:?}"),
    }
    assert_eq!((run.at, run.count), (1, 1));
}

#[test]
fn damaged_contents_are_not_handed_out() {
    let mut bytes = packed(&[("a.txt", b"contents")], CompressionMethod::Stored);
    let at = place(&bytes, b"contents");
    bytes[at] = b'C';
    let mut run = begin_unpack(bytes).unwrap();
    next_file(&mut run);
    let error = run.contents().unwrap_err();
    assert_eq!(error.heading(), None);
    match error {
        UnpackError::Contents(cause) => assert_eq!(cause.to_string(), "Invalid checksum"),
        other => panic!("{other:?}"),
    }
    assert_eq!((run.at, run.count, run.pending), (1, 0, true));
}

#[test]
fn a_file_needs_the_directory_above_it() {
    match unpack_step("C:\\game", "sprite\\1.spr", false) {
        UnpackStep::File(dir, path) => {
            assert_eq!(dir.as_deref(), Some("C:\\game\\sprite"));
            assert_eq!(path, "C:\\game\\sprite\\1.spr");
        }
        other => panic!("{other:?}"),
    }
    match unpack_step("C:\\game\\", "sprite", true) {
        UnpackStep::Directory(path) => assert_eq!(path, "C:\\game\\sprite"),
        other => panic!("{other:?}"),
    }
}

#[test]
fn files_go_where_the_archive_stores_them() {
    let bytes = packed(
        &[("sprite/a/1.spr", b"one"), ("sprite/a/2.spr", b"two")],
        CompressionMethod::Stored,
    );
    let mut run = begin_unpack(bytes).unwrap();
    let (dir, path) = next_file(&mut run);
    assert_eq!(dir.unwrap().replace('/', "\\"), "C:\\game\\sprite\\a");
    assert_eq!(path.replace('/', "\\"), "C:\\game\\sprite\\a\\1.spr");
    assert_eq!(run.contents().unwrap(), b"one");
    let (_, path) = next_file(&mut run);
    assert_eq!(path.replace('/', "\\"), "C:\\game\\sprite\\a\\2.spr");
    assert_eq!(run.contents().unwrap(), b"two");
}
