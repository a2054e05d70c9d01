//! A small logger: a name, an optional timestamp, an optional output file.
//!
//! Composing the log line is pure and verified here; printing it and writing
//! it to the file are I/O and live with the caller.

use vstd::prelude::*;

verus! {

/// A named logger. By default it stamps each line with the time and writes
/// to no file.
pub struct Logger {
    name: &'static str,
    timestamp: bool,
    file: Option<String>,
}

impl Logger {
    /// The logger's name.
    pub closed spec fn spec_name(&self) -> Seq<char> {
        self.name@
    }

    /// Whether lines carry a timestamp.
    pub closed spec fn spec_timestamp(&self) -> bool {
        self.timestamp
    }

    /// The path of the output file, if lines are also written to one.
    pub closed spec fn spec_file(&self) -> Option<Seq<char>> {
        match self.file {
            Some(ref f) => Some(f@),
            None => None,
        }
    }

    /// Create a new logger with the default values.
    pub fn new(name: &'static str) -> (r: Self)
        ensures
            r.spec_name() == name@,
            r.spec_timestamp(),
            r.spec_file() is None,
    {
        Logger { name, timestamp: true, file: None }
    }

    /// Set whether lines carry a timestamp.
    pub fn timestamp(self, toggle_timestamp: bool) -> (r: Self)
        ensures
            r.spec_name() == self.spec_name(),
            r.spec_timestamp() == toggle_timestamp,
            r.spec_file() == self.spec_file(),
    {
        Logger { timestamp: toggle_timestamp, ..self }
    }

    /// Set the output file.
    pub fn file(self, file: String) -> (r: Self)
        ensures
            r.spec_name() == self.spec_name(),
            r.spec_timestamp() == self.spec_timestamp(),
            r.spec_file() == Some(file@),
    {
        Logger { file: Some(file), ..self }
    }

    /// The path of the output file, if any, for the caller that performs the
    /// write.
    pub fn file_path(&self) -> (r: Option<&String>)
        ensures
            match r {
                Some(f) => self.spec_file() == Some(f@),
                None => self.spec_file() is None,
            },
    {
        match &self.file {
            Some(f) => Some(f),
            None => None,
        }
    }

    /// Compose one log line: the timestamp where configured, the logger's
    /// name, then the message. The caller prints it and, where a file is
    /// configured, appends it there.
    pub fn line(&self, timestamp: &str, message: &str) -> (r: String)
        ensures
            r@ == "["@ + (if self.spec_timestamp() {
                timestamp@ + " "@
            } else {
                Seq::<char>::empty()
            }) + self.spec_name() + "] "@ + message@,
    {
        let mut r = String::from_str("[");
        if self.timestamp {
            r.append(timestamp);
            r.append(" ");
        }
        r.append(self.name);
        r.append("] ");
        r.append(message);
        proof {
            assert(r@ =~= "["@ + (if self.spec_timestamp() {
                timestamp@ + " "@
            } else {
                Seq::<char>::empty()
            }) + self.spec_name() + "] "@ + message@);
        }
        r
    }
}

} // verus!
