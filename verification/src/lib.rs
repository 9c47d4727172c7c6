//! A client library for the Piston remote code execution service.
//!
//! Callers describe a program with [`File`] values gathered into an
//! [`Executor`], hand the serialized request to a transport of their
//! choice, and read the outcome back through [`ExecResponse`].  The
//! wire format of the service (the JSON request and response bodies)
//! is produced and parsed by this crate, so a transport only moves
//! opaque text.

use vstd::prelude::*;
use vstd::string::StringExecFns;

mod client;
mod executor;
mod json;
mod text;
mod wire;

pub use client::Client;
pub use client::Headers;
pub use executor::ExecResponse;
pub use executor::ExecResult;
pub use executor::Executor;
pub use text::lower_of;
pub use wire::parse_runtimes;

verus! {

/// A runtime available on the remote execution service: one supported
/// language at one version, together with its aliases.
#[derive(Clone, Debug)]
pub struct Runtime {
    /// The language.
    pub language: String,
    /// The version of the language.
    pub version: String,
    /// The aliases associated with this runtime.
    pub aliases: Vec<String>,
}

/// The mathematical value of a [`Runtime`]: its fields as sequences of
/// characters.
#[verifier::ext_equal]
pub struct RuntimeView {
    pub language: Seq<char>,
    pub version: Seq<char>,
    pub aliases: Seq<Seq<char>>,
}

impl View for Runtime {
    type V = RuntimeView;

    open spec fn view(&self) -> RuntimeView {
        RuntimeView {
            language: self.language@,
            version: self.version@,
            aliases: self.aliases@.map_values(|a: String| a@),
        }
    }
}

/// The result from attempting to load a [`File`] from disk.
pub type LoadResult<T> = Result<T, LoadError>;

/// The error that is returned when loading a [`File`] from disk fails
/// for any reason.
#[derive(Debug, Clone)]
pub struct LoadError {
    /// The details of this error.
    pub details: String,
}

impl LoadError {
    /// Generates a new [`LoadError`] carrying the given details.
    pub fn new(details: &str) -> (e: Self)
        ensures
            e.details@ == details@,
    {
        LoadError { details: String::from_str(details) }
    }
}

/// A file that contains source code to be executed.
#[derive(Clone, Debug, PartialEq, Eq)]
pub struct File {
    /// The name of the file. Defaults to a new `String`.
    pub name: String,
    /// **Required** The content of the file.
    pub content: String,
    /// The encoding of the file: one of `"utf8"`, `"hex"` or
    /// `"base64"`. Defaults to `"utf8"`.
    pub encoding: String,
}

/// The mathematical value of a [`File`]: its fields as sequences of
/// characters.
#[verifier::ext_equal]
pub struct FileView {
    pub name: Seq<char>,
    pub content: Seq<char>,
    pub encoding: Seq<char>,
}

impl View for File {
    type V = FileView;

    open spec fn view(&self) -> FileView {
        FileView { name: self.name@, content: self.content@, encoding: self.encoding@ }
    }
}

impl Default for File {
    /// Creates an unnamed new [`File`] with utf8 encoding and no
    /// content.
    fn default() -> (f: Self)
        ensures
            f@.name.len() == 0,
            f@.content.len() == 0,
            f@.encoding == "utf8"@,
    {
        File {
            name: String::new(),
            content: String::new(),
            encoding: String::from_str("utf8"),
        }
    }
}

impl File {
    /// Creates a new [`File`] with the given name, content and
    /// encoding. The encoding should be one of `"utf8"`, `"hex"` or
    /// `"base64"`; no validation is performed here, an unrecognized
    /// encoding is rejected by the remote service.
    pub fn new(name: &str, content: &str, encoding: &str) -> (f: Self)
        ensures
            f@ == (FileView { name: name@, content: content@, encoding: encoding@ }),
    {
        File {
            name: String::from_str(name),
            content: String::from_str(content),
            encoding: String::from_str(encoding),
        }
    }

    /// Sets the content of the file, keeping its name and encoding.
    #[must_use]
    pub fn set_content(self, content: &str) -> (f: Self)
        ensures
            f@ == (FileView { content: content@, ..self@ }),
    {
        File { content: String::from_str(content), ..self }
    }

    /// Sets the name of the file, keeping its content and encoding.
    #[must_use]
    pub fn set_name(self, name: &str) -> (f: Self)
        ensures
            f@ == (FileView { name: name@, ..self@ }),
    {
        File { name: String::from_str(name), ..self }
    }

    /// Sets the encoding of the file, keeping its name and content.
    /// The encoding should be one of `"utf8"`, `"hex"` or `"base64"`.
    #[must_use]
    pub fn set_encoding(self, encoding: &str) -> (f: Self)
        ensures
            f@ == (FileView { encoding: encoding@, ..self@ }),
    {
        File { encoding: String::from_str(encoding), ..self }
    }
}

} // verus!
