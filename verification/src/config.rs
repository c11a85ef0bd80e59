//! The extension configuration the pipeline is constructed from. Loading and
//! saving it at the OS-specific location is the caller's concern; the
//! library only holds and updates the two extension strings.

use vstd::prelude::*;

verus! {

/// The failure conditions of configuration handling.
#[derive(Debug, PartialEq, Eq)]
pub enum Error {
    /// The home directory could not be determined.
    FailedGetHome,
    /// The configuration file could not be read or written.
    IoErr(String),
    /// The configuration could not be rendered to text.
    FailedToString,
    /// The configuration could not be saved.
    FailedSave,
}

impl Error {
    /// The error's display text.
    pub fn message(&self) -> (r: String)
        ensures
            (match self {
                Error::FailedGetHome => r@ == "failed get home dir"@,
                Error::IoErr(s) => r@ == "io error: "@ + s@,
                Error::FailedToString => r@ == "failed convert to string from Config struct"@,
                Error::FailedSave => r@ == "failed save Config"@,
            }),
    {
        match self {
            Error::FailedGetHome => "failed get home dir".to_owned(),
            Error::IoErr(s) => "io error: ".to_owned().concat(s.as_str()),
            Error::FailedToString => "failed convert to string from Config struct".to_owned(),
            Error::FailedSave => "failed save Config".to_owned(),
        }
    }
}

/// The two configured extensions.
#[derive(Debug, PartialEq, Eq)]
pub struct Config {
    pub audio_extension: String,
    pub txt_extension: String,
}

impl Config {
    /// A configuration holding the two given extensions.
    pub fn new(audio_ex: &str, txt_ex: &str) -> (r: Result<Config, Error>)
        ensures
            r is Ok,
            (match r {
                Result::Ok(c) => c.audio_extension@ == audio_ex@ && c.txt_extension@ == txt_ex@,
                Result::Err(_) => false,
            }),
    {
        Ok(Config { audio_extension: audio_ex.to_owned(), txt_extension: txt_ex.to_owned() })
    }

    pub fn set_audio_ext(&mut self, new_ext: &str)
        ensures
            final(self).audio_extension@ == new_ext@,
            final(self).txt_extension == old(self).txt_extension,
    {
        self.audio_extension = new_ext.to_owned();
    }

    pub fn set_txt_ext(&mut self, new_ext: &str)
        ensures
            final(self).txt_extension@ == new_ext@,
            final(self).audio_extension == old(self).audio_extension,
    {
        self.txt_extension = new_ext.to_owned();
    }

    pub fn set_both(&mut self, new_audio_ext: &str, new_txt_ext: &str)
        ensures
            final(self).audio_extension@ == new_audio_ext@,
            final(self).txt_extension@ == new_txt_ext@,
    {
        self.set_audio_ext(new_audio_ext);
        self.set_txt_ext(new_txt_ext);
    }
}

impl Default for Config {
    /// The defaults: `wav` audio beside `txt` transcripts.
    fn default() -> (r: Self)
        ensures
            r.audio_extension@ == "wav"@,
            r.txt_extension@ == "txt"@,
    {
        Config { audio_extension: "wav".to_owned(), txt_extension: "txt".to_owned() }
    }
}

} // verus!
