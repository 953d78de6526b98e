//! Configuration of a logger before it is created on the C++ side.
use vstd::prelude::*;
use vstd::string::*;
use crate::ffi_value::has_no_nul;

verus! {

/// What a logger is created with: the context it logs under and which
/// fields of a record its message header shows.
pub struct LoggerSettings {
    pub context: String,
    pub show_module: bool,
    pub show_file: bool,
    pub show_line: bool,
}

/// Builder for a logger.
pub struct MwLoggerBuilder {
    context: Option<String>,
}

impl MwLoggerBuilder {
    /// The context set so far, if any.
    pub closed spec fn context_text(&self) -> Option<Seq<char>> {
        match self.context {
            Some(c) => Some(c@),
            None => None,
        }
    }

    /// A builder with no context set.
    pub fn new() -> (b: Self)
        ensures
            b.context_text() is None,
    {
        MwLoggerBuilder { context: None }
    }

    /// Sets the context of the logger; it must not hold a NUL character.
    pub fn context(self, context: &str) -> (b: Self)
        requires
            has_no_nul(context@),
        ensures
            b.context_text() == Some(context@),
    {
        MwLoggerBuilder { context: Some(String::from_str(context)) }
    }

    /// The settings of the logger: the context set, `DFLT` when none was,
    /// and the header fields chosen by the flags.
    pub fn build<const SHOW_MODULE: bool, const SHOW_FILE: bool, const SHOW_LINE: bool>(self) -> (s:
        LoggerSettings)
        ensures
            s.context@ == (match self.context_text() {
                Some(c) => c,
                None => "DFLT"@,
            }),
            s.show_module == SHOW_MODULE,
            s.show_file == SHOW_FILE,
            s.show_line == SHOW_LINE,
    {
        let context = match self.context {
            Some(c) => c,
            None => String::from_str("DFLT"),
        };
        LoggerSettings {
            context,
            show_module: SHOW_MODULE,
            show_file: SHOW_FILE,
            show_line: SHOW_LINE,
        }
    }
}

} // verus!
