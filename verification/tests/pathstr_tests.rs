use track2line::pathstr::{
    check_ext, extension_of, file_name_of, has_extension, join, str_eq, with_extension,
};
use track2line::{get_file_list, transcript_paths};

#[test]
fn extension_of_simple_name() {
    assert_eq!(extension_of("a.wav"), Some("wav".to_string()));
}

#[test]
fn extension_of_takes_the_last_dot() {
    assert_eq!(extension_of("dir/a.tar.gz"), Some("gz".to_string()));
}

#[test]
fn extension_of_hidden_file_is_none() {
    assert_eq!(extension_of(".bashrc"), None);
    assert_eq!(extension_of("dir/.bashrc"), None);
}

#[test]
fn extension_of_without_dot_is_none() {
    assert_eq!(extension_of("noext"), None);
    assert_eq!(extension_of("dir.d/file"), None);
}

#[test]
fn extension_of_trailing_dot_is_empty() {
    assert_eq!(extension_of("a."), Some("".to_string()));
}

#[test]
fn has_extension_compares_exactly() {
    assert!(has_extension("x/y/z.wav", "wav"));
    assert!(!has_extension("x/y/z.wav", "txt"));
    assert!(!has_extension("plain", "wav"));
}

#[test]
fn with_extension_replaces_or_appends() {
    assert_eq!(with_extension("dir/a.wav", "txt"), "dir/a.txt");
    assert_eq!(with_extension("noext", "txt"), "noext.txt");
    assert_eq!(with_extension(".hidden", "txt"), ".hidden.txt");
    assert_eq!(with_extension("d.ir/file.a.b", "c"), "d.ir/file.a.c");
}

#[test]
fn file_name_of_takes_the_last_segment() {
    assert_eq!(file_name_of("dir/sub/x.wav"), "x.wav");
    assert_eq!(file_name_of("plain"), "plain");
}

#[test]
fn join_inserts_one_separator() {
    assert_eq!(join("d", "n"), "d/n");
    assert_eq!(join("d/", "n"), "d/n");
    assert_eq!(join("", "n"), "n");
}

#[test]
fn str_eq_is_exact() {
    assert!(str_eq("ab", "ab"));
    assert!(!str_eq("ab", "ac"));
    assert!(!str_eq("a", "ab"));
    assert!(str_eq("", ""));
}

#[test]
fn check_ext_rejects_separators_and_dots() {
    assert!(check_ext("wav"));
    assert!(check_ext("flac"));
    assert!(!check_ext(""));
    assert!(!check_ext("w.v"));
    assert!(!check_ext("w/v"));
}

#[test]
fn file_list_keeps_both_extensions() {
    let files = vec![
        "a.wav".to_string(),
        "b.txt".to_string(),
        "c.mp3".to_string(),
        "d".to_string(),
    ];
    let kept = get_file_list(&files, "wav", "txt");
    assert_eq!(kept, vec!["a.wav".to_string(), "b.txt".to_string()]);
}

#[test]
fn transcript_paths_follow_audio_files() {
    let files = vec![
        "a.wav".to_string(),
        "b.txt".to_string(),
        "sub/c.wav".to_string(),
    ];
    let reads = transcript_paths(&files, "wav", "txt");
    assert_eq!(reads, vec!["a.txt".to_string(), "sub/c.txt".to_string()]);
}
