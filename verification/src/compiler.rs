//! The interface to the upstream markup compiler, as plain data.  Running
//! the compiler is the front end's job; the library only describes requests
//! and artifacts.

use vstd::prelude::*;

verus! {

/// The output format of one compiler run.
#[derive(Debug, Copy, Clone, PartialEq, Eq, Structural)]
pub enum CompileTarget {
    Html,
    Pdf,
}

impl CompileTarget {
    /// The format name handed to the compiler.
    pub fn as_str(self) -> (r: &'static str)
        ensures
            self == CompileTarget::Html ==> r@ == "html"@,
            self == CompileTarget::Pdf ==> r@ == "pdf"@,
    {
        match self {
            CompileTarget::Html => "html",
            CompileTarget::Pdf => "pdf",
        }
    }
}

/// Where a compiler run writes its result.
#[derive(Debug, Clone)]
pub enum CompileOutput {
    /// The result is returned on standard output.
    Stdout,
    /// The result is written to the named file.
    File(String),
}

/// One compilation request.
#[derive(Debug, Clone)]
pub struct CompileRequest {
    /// The source file to compile.
    pub source: String,
    /// The output format.
    pub target: CompileTarget,
    /// Where the result goes.
    pub output: CompileOutput,
    /// Additional key-value inputs visible to the compiled document.
    pub additional_inputs: Vec<(String, String)>,
}

/// What one compilation produced.
#[derive(Debug)]
pub enum CompileArtifact {
    /// The bytes the compiler wrote to standard output.
    Stdout(Vec<u8>),
    /// The compiler wrote the requested file itself.
    FileWritten,
}

/// The compiler reached through its command-line interface; the front end
/// implements the actual invocation.
#[derive(Debug)]
pub struct CliTypstCompiler;

} // verus!
