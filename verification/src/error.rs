use vstd::prelude::*;
use vstd::string::StringExecFns;

verus! {

/// Errors reported by the build engine.
///
/// Every variant carries enough context (path, template identifier or
/// snapshot name) to be actionable without a debugger.
#[derive(Debug)]
pub enum Error {
    /// Startup configuration problem, such as a missing templates directory.
    Configuration(String),
    /// A compiler failed while transforming a resource.
    Compiler(String),
    /// The template backend failed; carries the template identifier and the
    /// backend's own message.
    Template { template: String, message: String },
    /// A renderer asked for a snapshot that nobody has appended to.
    NoSuchSnapshot(String),
    /// A filesystem failure reported by the embedding program.
    Io(String),
    /// A copy action whose resolved destination equals its resolved source;
    /// committing it would truncate the source file.
    CopySourceIsDestination(String),
}

impl Error {
    /// A human-readable description of the error, carrying the variant's
    /// context (the offending path, template identifier or snapshot name).
    pub fn message(&self) -> (r: String)
        ensures
            r@ == (match self {
                Error::Configuration(s) => "configuration error: "@ + s@,
                Error::Compiler(s) => "compiler error: "@ + s@,
                Error::Template { template, message } => "error when rendering with template `"@
                    + template@ + "`: "@ + message@,
                Error::NoSuchSnapshot(s) => "there is no snapshot with key `"@ + s@
                    + "`, is the source rule empty (producing no items) or is the name misspelled?"@,
                Error::Io(s) => "i/o error: "@ + s@,
                Error::CopySourceIsDestination(s) => "copy source and destination are the same path: "@
                    + s@,
            }),
    {
        match self {
            Error::Configuration(s) => String::from_str("configuration error: ").concat(
                s.as_str(),
            ),
            Error::Compiler(s) => String::from_str("compiler error: ").concat(s.as_str()),
            Error::Template { template, message } => String::from_str(
                "error when rendering with template `",
            ).concat(template.as_str()).concat("`: ").concat(message.as_str()),
            Error::NoSuchSnapshot(s) => String::from_str("there is no snapshot with key `").concat(
                s.as_str(),
            ).concat(
                "`, is the source rule empty (producing no items) or is the name misspelled?",
            ),
            Error::Io(s) => String::from_str("i/o error: ").concat(s.as_str()),
            Error::CopySourceIsDestination(s) => String::from_str(
                "copy source and destination are the same path: ",
            ).concat(s.as_str()),
        }
    }
}

} // verus!
