//! The error type shared by every fallible operation of the crate.
use vstd::prelude::*;
use vstd::string::*;

verus! {

/// The result of every fallible operation of the crate.
pub type Result<T> = std::result::Result<T, CpkError>;

/// What went wrong while reading an archive, one variant per concern.
#[derive(Debug)]
pub enum CpkError {
    /// The byte source ended early or could not be read.
    Io(String),
    /// The archive does not start with `CPK `.
    InvalidSignature,
    /// A table does not start with `@UTF`.
    InvalidUtfSignature,
    /// No entry of the file table matches the requested name.
    FileNotFound(String),
    /// A structural constraint of the archive or of a table is violated.
    InvalidFormat(String),
    /// A CRILAYLA blob has an invalid header or a corrupt stream.
    Compression(String),
    /// A table could not be deobfuscated.
    Encryption(String),
    /// A table declares an unknown storage mode or column type.
    Parse(String),
    /// The operation is documented but not implemented.
    Unsupported(String),
}

/// The concern an error belongs to, without its detail.
#[derive(Debug, Clone, Copy, PartialEq, Eq, Structural)]
pub enum ErrorKind {
    Io,
    InvalidSignature,
    InvalidUtfSignature,
    FileNotFound,
    InvalidFormat,
    Compression,
    Encryption,
    Parse,
    Unsupported,
}

impl CpkError {
    /// The concern this error belongs to.
    pub open spec fn kind_of(&self) -> ErrorKind {
        match self {
            CpkError::Io(_) => ErrorKind::Io,
            CpkError::InvalidSignature => ErrorKind::InvalidSignature,
            CpkError::InvalidUtfSignature => ErrorKind::InvalidUtfSignature,
            CpkError::FileNotFound(_) => ErrorKind::FileNotFound,
            CpkError::InvalidFormat(_) => ErrorKind::InvalidFormat,
            CpkError::Compression(_) => ErrorKind::Compression,
            CpkError::Encryption(_) => ErrorKind::Encryption,
            CpkError::Parse(_) => ErrorKind::Parse,
            CpkError::Unsupported(_) => ErrorKind::Unsupported,
        }
    }

    /// The concern this error belongs to.
    #[verifier::when_used_as_spec(kind_of)]
    pub fn kind(&self) -> (k: ErrorKind)
        ensures
            k == self.kind_of(),
    {
        match self {
            CpkError::Io(_) => ErrorKind::Io,
            CpkError::InvalidSignature => ErrorKind::InvalidSignature,
            CpkError::InvalidUtfSignature => ErrorKind::InvalidUtfSignature,
            CpkError::FileNotFound(_) => ErrorKind::FileNotFound,
            CpkError::InvalidFormat(_) => ErrorKind::InvalidFormat,
            CpkError::Compression(_) => ErrorKind::Compression,
            CpkError::Encryption(_) => ErrorKind::Encryption,
            CpkError::Parse(_) => ErrorKind::Parse,
            CpkError::Unsupported(_) => ErrorKind::Unsupported,
        }
    }

    /// The text that introduces the detail of each variant.
    pub open spec fn prefix(self) -> Seq<char> {
        match self {
            CpkError::Io(_) => "IO error: "@,
            CpkError::InvalidSignature => "Invalid CPK signature"@,
            CpkError::InvalidUtfSignature => "Invalid UTF signature"@,
            CpkError::FileNotFound(_) => "File not found: "@,
            CpkError::InvalidFormat(_) => "Invalid archive format: "@,
            CpkError::Compression(_) => "Compression error: "@,
            CpkError::Encryption(_) => "Encryption error: "@,
            CpkError::Parse(_) => "Parse error: "@,
            CpkError::Unsupported(_) => "Unsupported feature: "@,
        }
    }

    /// The detail carried by the variant, empty for the two bare ones.
    pub open spec fn detail(self) -> Seq<char> {
        match self {
            CpkError::Io(m) => m@,
            CpkError::InvalidSignature => Seq::empty(),
            CpkError::InvalidUtfSignature => Seq::empty(),
            CpkError::FileNotFound(m) => m@,
            CpkError::InvalidFormat(m) => m@,
            CpkError::Compression(m) => m@,
            CpkError::Encryption(m) => m@,
            CpkError::Parse(m) => m@,
            CpkError::Unsupported(m) => m@,
        }
    }

    /// The human-readable description of the error.
    pub fn message(&self) -> (text: String)
        ensures
            text@ == self.prefix() + self.detail(),
    {
        match self {
            CpkError::Io(m) => String::from_str("IO error: ").concat(m.as_str()),
            CpkError::InvalidSignature => String::from_str("Invalid CPK signature"),
            CpkError::InvalidUtfSignature => String::from_str("Invalid UTF signature"),
            CpkError::FileNotFound(m) => String::from_str("File not found: ").concat(m.as_str()),
            CpkError::InvalidFormat(m) => String::from_str("Invalid archive format: ").concat(
                m.as_str(),
            ),
            CpkError::Compression(m) => String::from_str("Compression error: ").concat(m.as_str()),
            CpkError::Encryption(m) => String::from_str("Encryption error: ").concat(m.as_str()),
            CpkError::Parse(m) => String::from_str("Parse error: ").concat(m.as_str()),
            CpkError::Unsupported(m) => String::from_str("Unsupported feature: ").concat(
                m.as_str(),
            ),
        }
    }
}

} // verus!
