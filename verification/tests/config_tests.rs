use track2line::config::{Config, Error};

#[test]
fn default_config_is_wav_and_txt() {
    let c = Config::default();
    assert_eq!(c.audio_extension, "wav");
    assert_eq!(c.txt_extension, "txt");
}

#[test]
fn new_config_holds_the_given_extensions() {
    let c = Config::new("flac", "md").unwrap();
    assert_eq!(c.audio_extension, "flac");
    assert_eq!(c.txt_extension, "md");
}

#[test]
fn setters_change_one_extension_each() {
    let mut c = Config::default();
    c.set_audio_ext("mp3");
    assert_eq!(c.audio_extension, "mp3");
    assert_eq!(c.txt_extension, "txt");
    c.set_txt_ext("text");
    assert_eq!(c.audio_extension, "mp3");
    assert_eq!(c.txt_extension, "text");
}

#[test]
fn set_both_changes_both_extensions() {
    let mut c = Config::default();
    c.set_both("ogg", "srt");
    assert_eq!(c.audio_extension, "ogg");
    assert_eq!(c.txt_extension, "srt");
}

#[test]
fn config_error_messages_match_display_texts() {
    assert_eq!(Error::FailedGetHome.message(), "failed get home dir");
    assert_eq!(Error::IoErr("nope".to_string()).message(), "io error: nope");
    assert_eq!(
        Error::FailedToString.message(),
        "failed convert to string from Config struct"
    );
    assert_eq!(Error::FailedSave.message(), "failed save Config");
}
