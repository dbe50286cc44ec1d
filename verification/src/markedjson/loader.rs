//! The loader's state: the source text, whether errors were reported, and
//! the lines reported, for the caller to show.

use vstd::prelude::*;
use crate::markedjson::json::{json_parse_of, parse_json};
use crate::text::{append_str, chars_of, string_from, string_of, string_views};

verus! {

/// A loader over one source text.
#[derive(Debug)]
pub struct Loader {
    pub stream: String,
    pub haserrors: bool,
    /// The lines reported so far, in order.
    pub messages: Vec<String>,
}

/// The line that reports `msg`.
pub open spec fn report_line(msg: Seq<char>) -> Seq<char> {
    "powerline-lint: "@ + msg
}

impl Loader {
    /// A loader over `stream` that has reported no error.
    pub fn new(stream: &str) -> (r: Self)
        ensures
            r.stream@ == stream@,
            !r.haserrors,
            r.messages@.len() == 0,
    {
        Loader { stream: string_from(stream), haserrors: false, messages: Vec::new() }
    }

    /// Reports `msg` and records that an error was met.
    pub fn echoerr(&mut self, msg: &str)
        ensures
            final(self).haserrors,
            final(self).stream == old(self).stream,
            string_views(final(self).messages@) == string_views(old(self).messages@).push(report_line(msg@)),
    {
        let mut line = chars_of("powerline-lint: ");
        append_str(&mut line, msg);
        self.messages.push(string_of(&line));
        self.haserrors = true;
        assert(string_views(self.messages@) =~= string_views(old(self).messages@).push(report_line(msg@)));
    }

    /// The document the source holds; when it is not JSON, nothing, and the
    /// error is reported as `JSON parse error: ` and its message.
    pub fn get_single_data(&mut self) -> (r: Option<serde_json::Value>)
        ensures
            final(self).stream == old(self).stream,
            match json_parse_of(old(self).stream@) {
                Ok(v) => {
                    &&& r == Some(v)
                    &&& final(self).haserrors == old(self).haserrors
                    &&& final(self).messages@ == old(self).messages@
                },
                Err(m) => {
                    &&& r is None
                    &&& final(self).haserrors
                    &&& string_views(final(self).messages@) == string_views(old(self).messages@).push(
                        report_line("JSON parse error: "@ + m),
                    )
                },
            },
    {
        match parse_json(self.stream.as_str()) {
            Ok(v) => Some(v),
            Err(e) => {
                let mut msg = chars_of("JSON parse error: ");
                append_str(&mut msg, e.as_str());
                let m = string_of(&msg);
                self.echoerr(m.as_str());
                None
            },
        }
    }

    /// Releases the loader's resources; its state stays as it was.
    pub fn dispose(&mut self)
        ensures
            final(self).stream == old(self).stream,
            final(self).haserrors == old(self).haserrors,
            final(self).messages@ == old(self).messages@,
    {
    }
}

} // verus!
