//! Errors reported by the loaders and writers, with their codes, their short
//! descriptions and their full messages.
use vstd::prelude::*;
use crate::text::{
    cleaned, clean_utf8, decimal, push_decimal, push_str, push_usize, string_of,
};

verus! {

/// Maximum depth of the error stack trace.
pub const ERROR_STACK_MAX_DEPTH: usize = 8;

/// Maximum length in bytes of the additional error information.
pub const ERROR_INFO_LENGTH: usize = 256;

/// A single frame in an error stack trace.
#[derive(Debug, Clone)]
pub struct ErrorFrame {
    /// Source line number where the error occurred.
    pub source_line: u32,
    /// Function name where the error occurred.
    pub function: String,
    /// Description of what failed at this frame.
    pub description: String,
}

impl ErrorFrame {
    /// Creates a frame from its line, function name and description.
    pub fn new(source_line: u32, function: &str, description: &str) -> (r: Self)
        ensures
            r.source_line == source_line,
            r.function@ == function@,
            r.description@ == description@,
    {
        ErrorFrame {
            source_line,
            function: string_of(function),
            description: string_of(description),
        }
    }

    /// The text of the frame: `"<description> at <function>:<line>"`.
    pub open spec fn text(self) -> Seq<char> {
        self.description@ + " at "@ + self.function@ + ":"@ + decimal(self.source_line as nat)
    }

    /// The frame as text.
    pub fn to_string(&self) -> (r: String)
        ensures
            r@ == self.text(),
    {
        let mut s = string_of(self.description.as_str());
        push_str(&mut s, " at ");
        push_str(&mut s, self.function.as_str());
        push_str(&mut s, ":");
        push_decimal(&mut s, self.source_line as u64);
        s
    }
}

/// Stack trace and context carried by an unknown error.
#[derive(Debug, Clone)]
pub struct ErrorStack {
    /// Stack frames, at most [`ERROR_STACK_MAX_DEPTH`] of them.
    pub frames: Vec<ErrorFrame>,
    /// Additional context information.
    pub info: String,
}

/// Text of the frames of a stack trace from index `start` on, one line each.
pub open spec fn frame_lines(frames: Seq<ErrorFrame>, start: nat) -> Seq<char>
    decreases frames.len(),
{
    if frames.len() == 0 {
        Seq::empty()
    } else {
        frame_lines(frames.drop_last(), start) + "  #"@ + decimal((start + frames.len() - 1) as nat)
            + ": "@ + frames.last().text() + "\n"@
    }
}

impl ErrorStack {
    /// An empty stack with no information.
    pub fn new() -> (r: Self)
        ensures
            r.frames@.len() == 0,
            r.info@.len() == 0,
    {
        ErrorStack { frames: Vec::new(), info: String::new() }
    }

    /// Adds a frame, unless the stack already holds the maximum number of frames.
    pub fn push_frame(&mut self, frame: ErrorFrame)
        ensures
            old(self).frames@.len() < ERROR_STACK_MAX_DEPTH ==> final(self).frames@ == old(
                self,
            ).frames@.push(frame),
            old(self).frames@.len() >= ERROR_STACK_MAX_DEPTH ==> final(self).frames@ == old(
                self,
            ).frames@,
            final(self).info@ == old(self).info@,
    {
        if self.frames.len() < ERROR_STACK_MAX_DEPTH {
            self.frames.push(frame);
        }
    }

    /// Sets the additional information: at most [`ERROR_INFO_LENGTH`] bytes of
    /// `info`, with control characters other than newline and tab replaced by `?`.
    pub fn set_info(&mut self, info: &str)
        ensures
            final(self).info@ == cleaned(info@, ERROR_INFO_LENGTH as nat),
            final(self).frames@ == old(self).frames@,
    {
        self.info = clean_utf8(info, ERROR_INFO_LENGTH);
    }

    /// The text of the stack: an `Info:` line when there is information, then
    /// a `Stack trace:` line followed by one line per frame when there are frames.
    pub open spec fn text(self) -> Seq<char> {
        (if self.info@.len() > 0 {
            "Info: "@ + self.info@ + "\n"@
        } else {
            Seq::empty()
        }) + (if self.frames@.len() > 0 {
            "Stack trace:\n"@ + frame_lines(self.frames@, 0)
        } else {
            Seq::empty()
        })
    }

    /// The stack as text.
    pub fn to_string(&self) -> (r: String)
        ensures
            r@ == self.text(),
    {
        let mut s = String::new();
        if self.info.as_str().unicode_len() > 0 {
            push_str(&mut s, "Info: ");
            push_str(&mut s, self.info.as_str());
            push_str(&mut s, "\n");
        }
        let ghost head = s@;
        if self.frames.len() > 0 {
            push_str(&mut s, "Stack trace:\n");
            let ghost head2 = s@;
            let mut i: usize = 0;
            while i < self.frames.len()
                invariant
                    0 <= i <= self.frames@.len(),
                    s@ == head2 + frame_lines(self.frames@.subrange(0, i as int), 0),
                decreases self.frames@.len() - i,
            {
                let ghost before = s@;
                push_str(&mut s, "  #");
                push_usize(&mut s, i);
                push_str(&mut s, ": ");
                let line = self.frames[i].to_string();
                push_str(&mut s, line.as_str());
                push_str(&mut s, "\n");
                proof {
                    let sub = self.frames@.subrange(0, i + 1);
                    assert(sub.drop_last() =~= self.frames@.subrange(0, i as int));
                    assert(sub.last() == self.frames@[i as int]);
                    assert(s@ =~= head2 + frame_lines(sub, 0));
                }
                i = i + 1;
            }
            assert(self.frames@.subrange(0, self.frames@.len() as int) =~= self.frames@);
        }
        assert(s@ =~= self.text());
        s
    }
}

impl Default for ErrorStack {
    fn default() -> (r: Self)
        ensures
            r.frames@.len() == 0,
            r.info@.len() == 0,
    {
        ErrorStack::new()
    }
}

/// What an I/O failure was about, as far as error conversion needs to know.
#[derive(Debug, Clone, Copy, PartialEq, Eq, Structural)]
pub enum IoErrorKind {
    /// The file was not found.
    NotFound,
    /// The data ended before a read could be completed.
    UnexpectedEof,
    /// Any other failure.
    Other,
}

/// Every way an operation of the library can fail.
#[derive(Debug)]
#[allow(inconsistent_fields)]
pub enum Error {
    /// File not found at the specified path.
    FileNotFound { path: String },
    /// File exists but is empty.
    EmptyFile { path: String },
    /// External file referenced in the scene was not found.
    ExternalFileNotFound { path: String },
    /// The allocator could not provide `size` bytes.
    OutOfMemory { size: usize },
    /// Memory limit from allocator options exhausted.
    MemoryLimit { used: usize, limit: usize },
    /// Allocation count limit from allocator options exhausted.
    AllocationLimit { count: usize, limit: usize },
    /// The data ended during parsing.
    TruncatedFile { offset: u64 },
    /// A read or write failed.
    Io { message: String },
    /// The operation was cancelled by the user.
    Cancelled,
    /// The file format could not be detected.
    UnrecognizedFileFormat { filename: String },
    /// An options struct was not initialized.
    UninitializedOptions,
    /// Vertex streams given to index generation are empty.
    ZeroVertexSize,
    /// A vertex stream given to index generation is too short.
    TruncatedVertexStream { expected: usize, actual: usize },
    /// Invalid UTF-8 at a byte offset.
    InvalidUtf8 { offset: usize },
    /// A required feature is disabled.
    FeatureDisabled { feature: String },
    /// NURBS geometry that cannot be tessellated.
    BadNurbs { reason: String },
    /// An index out of bounds.
    BadIndex { index: usize, max: usize },
    /// A node nested deeper than the limit.
    NodeDepthLimit { depth: usize, limit: usize },
    /// An ASCII array could not be parsed.
    ThreadedAsciiParse { message: String },
    /// An unsafe option was given without allowing it.
    UnsafeOptions { option: String },
    /// A property was overridden twice.
    DuplicateOverride { property: String },
    /// Unsupported format version.
    UnsupportedVersion { version: u32 },
    /// Any other failure, with a description and an optional stack trace.
    Unknown { description: String, stack: Option<Box<ErrorStack>> },
}

impl Error {
    /// Numeric code of each kind of error.
    pub open spec fn code(&self) -> u32 {
        match self {
            Error::FileNotFound { .. } => 2,
            Error::EmptyFile { .. } => 3,
            Error::ExternalFileNotFound { .. } => 4,
            Error::OutOfMemory { .. } => 5,
            Error::MemoryLimit { .. } => 6,
            Error::AllocationLimit { .. } => 7,
            Error::TruncatedFile { .. } => 8,
            Error::Io { .. } => 9,
            Error::Cancelled => 10,
            Error::UnrecognizedFileFormat { .. } => 11,
            Error::UninitializedOptions => 12,
            Error::ZeroVertexSize => 13,
            Error::TruncatedVertexStream { .. } => 14,
            Error::InvalidUtf8 { .. } => 15,
            Error::FeatureDisabled { .. } => 16,
            Error::BadNurbs { .. } => 17,
            Error::BadIndex { .. } => 18,
            Error::NodeDepthLimit { .. } => 19,
            Error::ThreadedAsciiParse { .. } => 20,
            Error::UnsafeOptions { .. } => 21,
            Error::DuplicateOverride { .. } => 22,
            Error::UnsupportedVersion { .. } => 23,
            Error::Unknown { .. } => 1,
        }
    }

    /// Short description of each kind of error.
    pub open spec fn kind_text(&self) -> Seq<char> {
        match self {
            Error::FileNotFound { .. } => "File not found"@,
            Error::EmptyFile { .. } => "Empty file"@,
            Error::ExternalFileNotFound { .. } => "External file not found"@,
            Error::OutOfMemory { .. } => "Out of memory"@,
            Error::MemoryLimit { .. } => "Memory limit exceeded"@,
            Error::AllocationLimit { .. } => "Allocation limit exceeded"@,
            Error::TruncatedFile { .. } => "Truncated file"@,
            Error::Io { .. } => "IO error"@,
            Error::Cancelled => "Cancelled"@,
            Error::UnrecognizedFileFormat { .. } => "Unrecognized file format"@,
            Error::UninitializedOptions => "Uninitialized options"@,
            Error::ZeroVertexSize => "Zero vertex size"@,
            Error::TruncatedVertexStream { .. } => "Truncated vertex stream"@,
            Error::InvalidUtf8 { .. } => "Invalid UTF-8"@,
            Error::FeatureDisabled { .. } => "Feature disabled"@,
            Error::BadNurbs { .. } => "Bad NURBS geometry"@,
            Error::BadIndex { .. } => "Bad index"@,
            Error::NodeDepthLimit { .. } => "Node depth limit exceeded"@,
            Error::ThreadedAsciiParse { .. } => "Threaded ASCII parse error"@,
            Error::UnsafeOptions { .. } => "Unsafe options"@,
            Error::DuplicateOverride { .. } => "Duplicate override"@,
            Error::UnsupportedVersion { .. } => "Unsupported version"@,
            Error::Unknown { .. } => "Unknown error"@,
        }
    }

    /// Full message of an error, with the values it carries.
    pub open spec fn message(&self) -> Seq<char> {
        match self {
            Error::FileNotFound { path } => "File not found: "@ + path@,
            Error::EmptyFile { path } => "Empty file: "@ + path@,
            Error::ExternalFileNotFound { path } => "External file not found: "@ + path@,
            Error::OutOfMemory { size } => "Out of memory: failed to allocate "@ + decimal(
                *size as nat,
            ) + " bytes"@,
            Error::MemoryLimit { used, limit } => "Memory limit exceeded: "@ + decimal(*used as nat)
                + " bytes used, "@ + decimal(*limit as nat) + " bytes limit"@,
            Error::AllocationLimit { count, limit } => "Allocation limit exceeded: "@ + decimal(
                *count as nat,
            ) + " allocations, "@ + decimal(*limit as nat) + " limit"@,
            Error::TruncatedFile { offset } => "Truncated file: unexpected end of file at offset "@
                + decimal(*offset as nat),
            Error::Io { message } => "IO error: "@ + message@,
            Error::Cancelled => "Operation cancelled by user"@,
            Error::UnrecognizedFileFormat { filename } => "Unrecognized file format: "@
                + filename@,
            Error::UninitializedOptions =>
                "Uninitialized options: options struct must be zero-initialized"@,
            Error::ZeroVertexSize => "Zero vertex size: vertex streams cannot be empty"@,
            Error::TruncatedVertexStream { expected, actual } =>
                "Truncated vertex stream: expected "@ + decimal(*expected as nat) + " vertices, got "@
                + decimal(*actual as nat),
            Error::InvalidUtf8 { offset } => "Invalid UTF-8 at offset "@ + decimal(*offset as nat),
            Error::FeatureDisabled { feature } => "Feature disabled: "@ + feature@,
            Error::BadNurbs { reason } => "Bad NURBS geometry: "@ + reason@,
            Error::BadIndex { index, max } => "Bad index: "@ + decimal(*index as nat)
                + " out of bounds (max: "@ + decimal(*max as nat) + ")"@,
            Error::NodeDepthLimit { depth, limit } => "Node depth limit exceeded: depth "@ + decimal(
                *depth as nat,
            ) + ", limit "@ + decimal(*limit as nat),
            Error::ThreadedAsciiParse { message } => "Threaded ASCII parse error: "@ + message@,
            Error::UnsafeOptions { option } => "Unsafe options: "@ + option@
                + " requires allow_unsafe=true"@,
            Error::DuplicateOverride { property } => "Duplicate override: property '"@ + property@
                + "' already overridden"@,
            Error::UnsupportedVersion { version } => "Unsupported version: FBX version "@ + decimal(
                *version as nat,
            ),
            Error::Unknown { description, .. } => "Unknown error: "@ + description@,
        }
    }

    /// An unknown error with a description and no stack.
    pub fn unknown(description: &str) -> (r: Self)
        ensures
            r matches Error::Unknown { description: d, stack } && d@ == description@ && stack
                is None,
    {
        Error::Unknown { description: string_of(description), stack: None }
    }

    /// An unknown error with a description and a stack trace.
    pub fn unknown_with_stack(description: &str, stack: ErrorStack) -> (r: Self)
        ensures
            r matches Error::Unknown { description: d, stack: s } && d@ == description@ && s
                == Some(Box::new(stack)),
    {
        Error::Unknown { description: string_of(description), stack: Some(Box::new(stack)) }
    }

    /// A file-not-found error for `path`.
    pub fn file_not_found(path: &str) -> (r: Self)
        ensures
            r matches Error::FileNotFound { path: p } && p@ == path@,
    {
        Error::FileNotFound { path: string_of(path) }
    }

    /// An I/O error with a message.
    pub fn io(message: &str) -> (r: Self)
        ensures
            r matches Error::Io { message: m } && m@ == message@,
    {
        Error::Io { message: string_of(message) }
    }

    /// The error that an I/O failure of the given kind and message becomes:
    /// a missing file, a truncated file at an unknown offset, or an I/O error.
    pub fn from_io_kind(kind: IoErrorKind, message: String) -> (r: Self)
        ensures
            kind == IoErrorKind::NotFound ==> (r matches Error::FileNotFound { path } && path@
                == message@),
            kind == IoErrorKind::UnexpectedEof ==> (r matches Error::TruncatedFile { offset }
                && offset == 0),
            kind == IoErrorKind::Other ==> (r matches Error::Io { message: m } && m@ == message@),
    {
        match kind {
            IoErrorKind::NotFound => Error::FileNotFound { path: message },
            IoErrorKind::UnexpectedEof => Error::TruncatedFile { offset: 0 },
            IoErrorKind::Other => Error::Io { message },
        }
    }

    /// An I/O error carrying the text of a standard I/O error.
    pub fn from_io_error(err: std::io::Error) -> (r: Self)
        ensures
            r is Io,
    {
        Error::Io { message: io_error_text(&err) }
    }

    /// Short description of the kind of error.
    pub fn type_description(&self) -> (r: &'static str)
        ensures
            r@ == self.kind_text(),
    {
        match self {
            Error::FileNotFound { .. } => "File not found",
            Error::EmptyFile { .. } => "Empty file",
            Error::ExternalFileNotFound { .. } => "External file not found",
            Error::OutOfMemory { .. } => "Out of memory",
            Error::MemoryLimit { .. } => "Memory limit exceeded",
            Error::AllocationLimit { .. } => "Allocation limit exceeded",
            Error::TruncatedFile { .. } => "Truncated file",
            Error::Io { .. } => "IO error",
            Error::Cancelled => "Cancelled",
            Error::UnrecognizedFileFormat { .. } => "Unrecognized file format",
            Error::UninitializedOptions => "Uninitialized options",
            Error::ZeroVertexSize => "Zero vertex size",
            Error::TruncatedVertexStream { .. } => "Truncated vertex stream",
            Error::InvalidUtf8 { .. } => "Invalid UTF-8",
            Error::FeatureDisabled { .. } => "Feature disabled",
            Error::BadNurbs { .. } => "Bad NURBS geometry",
            Error::BadIndex { .. } => "Bad index",
            Error::NodeDepthLimit { .. } => "Node depth limit exceeded",
            Error::ThreadedAsciiParse { .. } => "Threaded ASCII parse error",
            Error::UnsafeOptions { .. } => "Unsafe options",
            Error::DuplicateOverride { .. } => "Duplicate override",
            Error::UnsupportedVersion { .. } => "Unsupported version",
            Error::Unknown { .. } => "Unknown error",
        }
    }

    /// Numeric error code.
    pub fn to_error_code(&self) -> (r: u32)
        ensures
            r == self.code(),
    {
        match self {
            Error::FileNotFound { .. } => 2,
            Error::EmptyFile { .. } => 3,
            Error::ExternalFileNotFound { .. } => 4,
            Error::OutOfMemory { .. } => 5,
            Error::MemoryLimit { .. } => 6,
            Error::AllocationLimit { .. } => 7,
            Error::TruncatedFile { .. } => 8,
            Error::Io { .. } => 9,
            Error::Cancelled => 10,
            Error::UnrecognizedFileFormat { .. } => 11,
            Error::UninitializedOptions => 12,
            Error::ZeroVertexSize => 13,
            Error::TruncatedVertexStream { .. } => 14,
            Error::InvalidUtf8 { .. } => 15,
            Error::FeatureDisabled { .. } => 16,
            Error::BadNurbs { .. } => 17,
            Error::BadIndex { .. } => 18,
            Error::NodeDepthLimit { .. } => 19,
            Error::ThreadedAsciiParse { .. } => 20,
            Error::UnsafeOptions { .. } => 21,
            Error::DuplicateOverride { .. } => 22,
            Error::UnsupportedVersion { .. } => 23,
            Error::Unknown { .. } => 1,
        }
    }

    /// The full message of the error.
    pub fn to_string(&self) -> (r: String)
        ensures
            r@ == self.message(),
    {
        let mut s = String::new();
        match self {
            Error::FileNotFound { path } => {
                push_str(&mut s, "File not found: ");
                push_str(&mut s, path.as_str());
            },
            Error::EmptyFile { path } => {
                push_str(&mut s, "Empty file: ");
                push_str(&mut s, path.as_str());
            },
            Error::ExternalFileNotFound { path } => {
                push_str(&mut s, "External file not found: ");
                push_str(&mut s, path.as_str());
            },
            Error::OutOfMemory { size } => {
                push_str(&mut s, "Out of memory: failed to allocate ");
                push_usize(&mut s, *size);
                push_str(&mut s, " bytes");
            },
            Error::MemoryLimit { used, limit } => {
                push_str(&mut s, "Memory limit exceeded: ");
                push_usize(&mut s, *used);
                push_str(&mut s, " bytes used, ");
                push_usize(&mut s, *limit);
                push_str(&mut s, " bytes limit");
            },
            Error::AllocationLimit { count, limit } => {
                push_str(&mut s, "Allocation limit exceeded: ");
                push_usize(&mut s, *count);
                push_str(&mut s, " allocations, ");
                push_usize(&mut s, *limit);
                push_str(&mut s, " limit");
            },
            Error::TruncatedFile { offset } => {
                push_str(&mut s, "Truncated file: unexpected end of file at offset ");
                push_decimal(&mut s, *offset);
            },
            Error::Io { message } => {
                push_str(&mut s, "IO error: ");
                push_str(&mut s, message.as_str());
            },
            Error::Cancelled => {
                push_str(&mut s, "Operation cancelled by user");
            },
            Error::UnrecognizedFileFormat { filename } => {
                push_str(&mut s, "Unrecognized file format: ");
                push_str(&mut s, filename.as_str());
            },
            Error::UninitializedOptions => {
                push_str(&mut s, "Uninitialized options: options struct must be zero-initialized");
            },
            Error::ZeroVertexSize => {
                push_str(&mut s, "Zero vertex size: vertex streams cannot be empty");
            },
            Error::TruncatedVertexStream { expected, actual } => {
                push_str(&mut s, "Truncated vertex stream: expected ");
                push_usize(&mut s, *expected);
                push_str(&mut s, " vertices, got ");
                push_usize(&mut s, *actual);
            },
            Error::InvalidUtf8 { offset } => {
                push_str(&mut s, "Invalid UTF-8 at offset ");
                push_usize(&mut s, *offset);
            },
            Error::FeatureDisabled { feature } => {
                push_str(&mut s, "Feature disabled: ");
                push_str(&mut s, feature.as_str());
            },
            Error::BadNurbs { reason } => {
                push_str(&mut s, "Bad NURBS geometry: ");
                push_str(&mut s, reason.as_str());
            },
            Error::BadIndex { index, max } => {
                push_str(&mut s, "Bad index: ");
                push_usize(&mut s, *index);
                push_str(&mut s, " out of bounds (max: ");
                push_usize(&mut s, *max);
                push_str(&mut s, ")");
            },
            Error::NodeDepthLimit { depth, limit } => {
                push_str(&mut s, "Node depth limit exceeded: depth ");
                push_usize(&mut s, *depth);
                push_str(&mut s, ", limit ");
                push_usize(&mut s, *limit);
            },
            Error::ThreadedAsciiParse { message } => {
                push_str(&mut s, "Threaded ASCII parse error: ");
                push_str(&mut s, message.as_str());
            },
            Error::UnsafeOptions { option } => {
                push_str(&mut s, "Unsafe options: ");
                push_str(&mut s, option.as_str());
                push_str(&mut s, " requires allow_unsafe=true");
            },
            Error::DuplicateOverride { property } => {
                push_str(&mut s, "Duplicate override: property '");
                push_str(&mut s, property.as_str());
                push_str(&mut s, "' already overridden");
            },
            Error::UnsupportedVersion { version } => {
                push_str(&mut s, "Unsupported version: FBX version ");
                push_decimal(&mut s, *version as u64);
            },
            Error::Unknown { description, .. } => {
                push_str(&mut s, "Unknown error: ");
                push_str(&mut s, description.as_str());
            },
        }
        assert(s@ =~= self.message());
        s
    }
}

/// The standard I/O error type, carried through without inspection.
#[verifier::external_type_specification]
#[verifier::external_body]
pub struct ExIoError(std::io::Error);

/// `<std::io::Error as ToString>::to_string`: the error's display text.
/// Nothing is stated of the text.
#[verifier::external_body]
fn io_error_text(err: &std::io::Error) -> String {
    err.to_string()
}

/// `std::io::Error::kind`, sorted into the kinds that error conversion tells apart.
/// Nothing is stated of which kind comes back.
#[verifier::external_body]
fn io_error_kind(err: &std::io::Error) -> IoErrorKind {
    match err.kind() {
        std::io::ErrorKind::NotFound => IoErrorKind::NotFound,
        std::io::ErrorKind::UnexpectedEof => IoErrorKind::UnexpectedEof,
        _ => IoErrorKind::Other,
    }
}

impl From<std::io::Error> for Error {
    /// Converts by the error's kind, as [`Error::from_io_kind`] states.
    fn from(err: std::io::Error) -> (r: Self) {
        let kind = io_error_kind(&err);
        let text = io_error_text(&err);
        Error::from_io_kind(kind, text)
    }
}

impl vstd::std_specs::convert::FromSpecImpl<std::io::Error> for Error {
    open spec fn obeys_from_spec() -> bool {
        false
    }

    open spec fn from_spec(v: std::io::Error) -> Self {
        vstd::pervasive::arbitrary()
    }
}

/// Result type of the library's fallible operations.
pub type Result<T> = core::result::Result<T, Error>;

} // verus!
