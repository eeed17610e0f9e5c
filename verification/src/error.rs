use vstd::prelude::*;
use crate::render::dec_u64;

verus! {

/// The coarse diagnostic families of the toolchain.  The scanner reports
/// and goes on; a parser or runtime diagnostic ends the run.
#[derive(Debug, Clone, Copy, PartialEq, Eq, Structural)]
pub enum KlangError {
    ScannerError,
    ParserError,
    RuntimeError,
}

impl KlangError {
    /// The family's name as it appears between square brackets in a
    /// diagnostic line.
    pub fn name(&self) -> (r: &'static str)
        ensures
            *self == KlangError::ScannerError ==> r@ == "ScannerError"@,
            *self == KlangError::ParserError ==> r@ == "ParserError"@,
            *self == KlangError::RuntimeError ==> r@ == "RuntimeError"@,
    {
        match self {
            KlangError::ScannerError => "ScannerError",
            KlangError::ParserError => "ParserError",
            KlangError::RuntimeError => "RuntimeError",
        }
    }

    /// The one diagnostic line the host prints for a failure:
    /// `[<kind>] <file> at line <n>: <message>`.
    pub fn error(et: KlangError, msg: &str, line: usize, filename: &str) -> (r: String)
        ensures
            r@ == diagnostic_line(kind_name(et), filename@, line as nat, msg@),
    {
        format_diagnostic(et.name(), msg, line, filename)
    }
}

/// The name of a diagnostic family.
pub open spec fn kind_name(et: KlangError) -> Seq<char> {
    match et {
        KlangError::ScannerError => "ScannerError"@,
        KlangError::ParserError => "ParserError"@,
        KlangError::RuntimeError => "RuntimeError"@,
    }
}

/// `[<kind>] <file> at line <n>: <message>`.
pub open spec fn diagnostic_line(kind: Seq<char>, file: Seq<char>, line: nat, msg: Seq<char>) -> Seq<char> {
    seq!['['] + kind + seq![']', ' '] + file + " at line "@ + crate::render::dec_u(line)
        + seq![':', ' '] + msg
}

/// The runtime failure kinds: every one is fatal where it is detected.
#[derive(Debug, Clone, Copy, PartialEq, Eq, Structural)]
pub enum ErrorKind {
    StackUnderflow,
    TypeMismatch,
    DivisionByZero,
    UndefinedVariable,
    UnknownFunction,
    ArityMismatch,
    OutOfBoundsJump,
    NativeArityMismatch,
    UnknownNativeFunction,
}

/// The name of a runtime failure kind.
pub open spec fn error_kind_name(k: ErrorKind) -> Seq<char> {
    match k {
        ErrorKind::StackUnderflow => "StackUnderflow"@,
        ErrorKind::TypeMismatch => "TypeMismatch"@,
        ErrorKind::DivisionByZero => "DivisionByZero"@,
        ErrorKind::UndefinedVariable => "UndefinedVariable"@,
        ErrorKind::UnknownFunction => "UnknownFunction"@,
        ErrorKind::ArityMismatch => "ArityMismatch"@,
        ErrorKind::OutOfBoundsJump => "OutOfBoundsJump"@,
        ErrorKind::NativeArityMismatch => "NativeArityMismatch"@,
        ErrorKind::UnknownNativeFunction => "UnknownNativeFunction"@,
    }
}

impl ErrorKind {
    /// The kind's name as it appears between square brackets.
    pub fn name(&self) -> (r: &'static str)
        ensures
            r@ == error_kind_name(*self),
    {
        match self {
            ErrorKind::StackUnderflow => "StackUnderflow",
            ErrorKind::TypeMismatch => "TypeMismatch",
            ErrorKind::DivisionByZero => "DivisionByZero",
            ErrorKind::UndefinedVariable => "UndefinedVariable",
            ErrorKind::UnknownFunction => "UnknownFunction",
            ErrorKind::ArityMismatch => "ArityMismatch",
            ErrorKind::OutOfBoundsJump => "OutOfBoundsJump",
            ErrorKind::NativeArityMismatch => "NativeArityMismatch",
            ErrorKind::UnknownNativeFunction => "UnknownNativeFunction",
        }
    }
}

/// One fatal runtime diagnostic: its kind, the source line of the failing
/// instruction, and a message.
pub struct Fault {
    pub kind: ErrorKind,
    pub line: usize,
    pub msg: String,
}

impl Fault {
    /// The diagnostic line the host prints before it terminates:
    /// `[<kind>] <file> at line <n>: <message>`.
    pub fn render(&self, filename: &str) -> (r: String)
        ensures
            r@ == diagnostic_line(
                error_kind_name(self.kind),
                filename@,
                self.line as nat,
                self.msg@,
            ),
    {
        format_diagnostic(self.kind.name(), self.msg.as_str(), self.line, filename)
    }
}

/// Shared layout of every diagnostic line.
fn format_diagnostic(kind: &str, msg: &str, line: usize, filename: &str) -> (r: String)
    ensures
        r@ == diagnostic_line(kind@, filename@, line as nat, msg@),
{
    let mut out = String::from_str("[");
    out.append(kind);
    out.append("] ");
    out.append(filename);
    out.append(" at line ");
    let digits = dec_u64(line as u64);
    out.append(digits.as_str());
    out.append(": ");
    out.append(msg);
    proof {
        reveal_strlit("[");
        reveal_strlit("] ");
        reveal_strlit(": ");
        assert(line as u64 as nat == line as nat);
        assert(out@ =~= diagnostic_line(kind@, filename@, line as nat, msg@));
    }
    out
}

} // verus!
