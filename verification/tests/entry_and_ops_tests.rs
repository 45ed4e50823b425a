use disk_scanner::entry::{extension_of, FileInfo};
use disk_scanner::ops::{delete_file, move_file, move_to_trash};

#[test]
fn extension_is_text_after_final_dot() {
    assert_eq!(extension_of("report.txt"), "txt");
    assert_eq!(extension_of("archive.tar.gz"), "gz");
    assert_eq!(extension_of(".gitignore"), "gitignore");
}

#[test]
fn extension_is_empty_without_a_dot_or_after_a_trailing_dot() {
    assert_eq!(extension_of("Makefile"), "");
    assert_eq!(extension_of("ends.with.dot."), "");
    assert_eq!(extension_of(""), "");
}

#[test]
fn extension_handles_non_ascii_names() {
    assert_eq!(extension_of("bericht.größe"), "größe");
    assert_eq!(extension_of("名前"), "");
}

#[test]
fn file_info_keeps_the_observed_metadata() {
    let info = FileInfo::new(
        "/home/u/notes.md".to_string(),
        "notes.md".to_string(),
        1234,
        1_700_000_000,
        1_700_000_050,
        false,
    );
    assert_eq!(info.path, "/home/u/notes.md");
    assert_eq!(info.name, "notes.md");
    assert_eq!(info.size, 1234);
    assert_eq!(info.modified, 1_700_000_000);
    assert_eq!(info.accessed, 1_700_000_050);
    assert!(!info.is_directory);
    assert_eq!(info.extension, "md");
}

#[test]
fn delete_rejects_missing_files() {
    let r = delete_file("/gone.txt", false, false);
    assert_eq!(r.unwrap_err(), "File does not exist: /gone.txt");
}

#[test]
fn delete_rejects_directories_as_unsupported() {
    let r = delete_file("/some/dir", true, true);
    assert_eq!(r.unwrap_err(), "Cannot delete directories yet");
}

#[test]
fn delete_clears_an_existing_file() {
    assert!(delete_file("/a/file.txt", true, false).is_ok());
}

#[test]
fn move_rejects_missing_sources() {
    let r = move_file("/gone.txt", false, false);
    assert_eq!(r.unwrap_err(), "Source file does not exist: /gone.txt");
}

#[test]
fn move_rejects_directories_as_unsupported() {
    let r = move_file("/some/dir", true, true);
    assert_eq!(r.unwrap_err(), "Cannot move directories yet");
}

#[test]
fn move_clears_an_existing_file() {
    assert!(move_file("/a/file.txt", true, false).is_ok());
}

#[test]
fn trash_rejects_missing_files() {
    let r = move_to_trash("/gone.txt", false);
    assert_eq!(r.unwrap_err(), "File does not exist: /gone.txt");
}

#[test]
fn trash_clears_an_existing_path() {
    assert!(move_to_trash("/a/file.txt", true).is_ok());
}
