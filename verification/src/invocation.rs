//! The process to start for each operation.

use vstd::prelude::*;

verus! {

/// What becomes of an output stream of the process.
#[derive(Clone, Copy, Debug, PartialEq, Eq, Structural)]
pub enum Sink {
    /// The stream is thrown away.
    Discard,
    /// The stream is collected in full.
    Capture,
}

/// A process to start: the program, its arguments and its streams.
#[derive(Clone, Debug, PartialEq, Eq)]
pub struct Invocation {
    /// Name of the executable, looked up on the search path.
    pub program: String,
    /// The arguments, in order.
    pub args: Vec<String>,
    /// Bytes to write to standard input before closing it; `None` if the
    /// process gets no input.
    pub input: Option<Vec<u8>>,
    /// What becomes of standard output.
    pub stdout: Sink,
    /// What becomes of standard error.
    pub stderr: Sink,
    /// Start the process without a visible console window, on platforms that
    /// have one.
    pub hide_console: bool,
}

/// An invocation as plain values.
pub struct InvocationView {
    pub program: Seq<char>,
    pub args: Seq<Seq<char>>,
    pub input: Option<Seq<u8>>,
    pub stdout: Sink,
    pub stderr: Sink,
    pub hide_console: bool,
}

impl View for Invocation {
    type V = InvocationView;

    open spec fn view(&self) -> InvocationView {
        InvocationView {
            program: self.program@,
            args: self.args@.map_values(|a: String| a@),
            input: match self.input {
                Some(bytes) => Some(bytes@),
                None => None,
            },
            stdout: self.stdout,
            stderr: self.stderr,
            hide_console: self.hide_console,
        }
    }
}

/// The name of the tool.
pub open spec fn program_name() -> Seq<char> {
    "gpg"@
}

/// The version query: both output streams are thrown away.
pub open spec fn version_query_view() -> InvocationView {
    InvocationView {
        program: program_name(),
        args: seq!["--version"@],
        input: None,
        stdout: Sink::Discard,
        stderr: Sink::Discard,
        hide_console: true,
    }
}

/// The key listing in colon-delimited form: only standard output is kept.
pub open spec fn key_listing_view() -> InvocationView {
    InvocationView {
        program: program_name(),
        args: seq!["--with-colons"@, "--list-keys"@],
        input: None,
        stdout: Sink::Capture,
        stderr: Sink::Discard,
        hide_console: true,
    }
}

/// Encryption of `data` to `recipient`, without prompts.
pub open spec fn encryption_view(data: Seq<u8>, recipient: Seq<char>) -> InvocationView {
    InvocationView {
        program: program_name(),
        args: seq!["--encrypt"@, "--recipient"@, recipient, "--batch"@, "--yes"@],
        input: Some(data),
        stdout: Sink::Capture,
        stderr: Sink::Capture,
        hide_console: true,
    }
}

/// Decryption of `data`, without prompts.
pub open spec fn decryption_view(data: Seq<u8>) -> InvocationView {
    InvocationView {
        program: program_name(),
        args: seq!["--decrypt"@, "--batch"@, "--yes"@],
        input: Some(data),
        stdout: Sink::Capture,
        stderr: Sink::Capture,
        hide_console: true,
    }
}

/// The process that tells whether the tool is installed.
pub fn version_query() -> (inv: Invocation)
    ensures
        inv@ == version_query_view(),
{
    let mut args: Vec<String> = Vec::new();
    args.push("--version".to_owned());
    let inv = Invocation {
        program: "gpg".to_owned(),
        args,
        input: None,
        stdout: Sink::Discard,
        stderr: Sink::Discard,
        hide_console: true,
    };
    assert(inv@.args == version_query_view().args);
    inv
}

/// The process that lists all keys.
pub fn key_listing() -> (inv: Invocation)
    ensures
        inv@ == key_listing_view(),
{
    let mut args: Vec<String> = Vec::new();
    args.push("--with-colons".to_owned());
    args.push("--list-keys".to_owned());
    let inv = Invocation {
        program: "gpg".to_owned(),
        args,
        input: None,
        stdout: Sink::Capture,
        stderr: Sink::Discard,
        hide_console: true,
    };
    assert(inv@.args == key_listing_view().args);
    inv
}

/// The process that encrypts `data` to `recipient`.
pub fn encryption(data: Vec<u8>, recipient: &str) -> (inv: Invocation)
    ensures
        inv@ == encryption_view(data@, recipient@),
{
    let mut args: Vec<String> = Vec::new();
    args.push("--encrypt".to_owned());
    args.push("--recipient".to_owned());
    args.push(recipient.to_owned());
    args.push("--batch".to_owned());
    args.push("--yes".to_owned());
    let inv = Invocation {
        program: "gpg".to_owned(),
        args,
        input: Some(data),
        stdout: Sink::Capture,
        stderr: Sink::Capture,
        hide_console: true,
    };
    assert(inv@.args == encryption_view(data@, recipient@).args);
    inv
}

/// The process that decrypts `data`.
pub fn decryption(data: Vec<u8>) -> (inv: Invocation)
    ensures
        inv@ == decryption_view(data@),
{
    let mut args: Vec<String> = Vec::new();
    args.push("--decrypt".to_owned());
    args.push("--batch".to_owned());
    args.push("--yes".to_owned());
    let inv = Invocation {
        program: "gpg".to_owned(),
        args,
        input: Some(data),
        stdout: Sink::Capture,
        stderr: Sink::Capture,
        hide_console: true,
    };
    assert(inv@.args == decryption_view(data@).args);
    inv
}

} // verus!
