//! Error records kept by the loaders: a kind, a stack of frames and a short
//! cleaned-up information text.
use vstd::prelude::*;
use vstd::string::StrSliceExecFns;
use crate::error::{frame_lines, ERROR_INFO_LENGTH, ERROR_STACK_MAX_DEPTH};
use crate::text::{cleaned, clean_utf8, push_str};

pub use crate::error::ErrorFrame;

verus! {

/// Kinds of errors, in the order of their numeric codes.
#[derive(Debug, Clone, Copy, PartialEq, Eq, Hash, Structural)]
pub enum ErrorType {
    /// No error.
    NoError,
    Unknown,
    FileNotFound,
    EmptyFile,
    ExternalFileNotFound,
    OutOfMemory,
    MemoryLimit,
    AllocationLimit,
    TruncatedFile,
    Io,
    Cancelled,
    UnrecognizedFileFormat,
    UninitializedOptions,
    ZeroVertexSize,
    TruncatedVertexStream,
    InvalidUtf8,
    FeatureDisabled,
    BadNurbs,
    BadIndex,
    NodeDepthLimit,
    ThreadedAsciiParse,
    UnsafeOptions,
    DuplicateOverride,
    UnsupportedVersion,
}

impl ErrorType {
    /// Human-readable description of each kind.
    pub open spec fn text(self) -> Seq<char> {
        match self {
            ErrorType::NoError => "No error"@,
            ErrorType::Unknown => "Unknown error"@,
            ErrorType::FileNotFound => "File not found"@,
            ErrorType::EmptyFile => "Empty file"@,
            ErrorType::ExternalFileNotFound => "External file not found"@,
            ErrorType::OutOfMemory => "Out of memory"@,
            ErrorType::MemoryLimit => "Memory limit exceeded"@,
            ErrorType::AllocationLimit => "Allocation limit exceeded"@,
            ErrorType::TruncatedFile => "Truncated file"@,
            ErrorType::Io => "IO error"@,
            ErrorType::Cancelled => "Cancelled"@,
            ErrorType::UnrecognizedFileFormat => "Unrecognized file format"@,
            ErrorType::UninitializedOptions => "Uninitialized options"@,
            ErrorType::ZeroVertexSize => "Zero vertex size"@,
            ErrorType::TruncatedVertexStream => "Truncated vertex stream"@,
            ErrorType::InvalidUtf8 => "Invalid UTF-8"@,
            ErrorType::FeatureDisabled => "Feature disabled"@,
            ErrorType::BadNurbs => "Bad NURBS geometry"@,
            ErrorType::BadIndex => "Bad index"@,
            ErrorType::NodeDepthLimit => "Node depth limit exceeded"@,
            ErrorType::ThreadedAsciiParse => "Threaded ASCII parse error"@,
            ErrorType::UnsafeOptions => "Unsafe options"@,
            ErrorType::DuplicateOverride => "Duplicate override"@,
            ErrorType::UnsupportedVersion => "Unsupported version"@,
        }
    }

    /// The description of this kind of error.
    pub fn description(&self) -> (r: &'static str)
        ensures
            r@ == self.text(),
    {
        match self {
            ErrorType::NoError => "No error",
            ErrorType::Unknown => "Unknown error",
            ErrorType::FileNotFound => "File not found",
            ErrorType::EmptyFile => "Empty file",
            ErrorType::ExternalFileNotFound => "External file not found",
            ErrorType::OutOfMemory => "Out of memory",
            ErrorType::MemoryLimit => "Memory limit exceeded",
            ErrorType::AllocationLimit => "Allocation limit exceeded",
            ErrorType::TruncatedFile => "Truncated file",
            ErrorType::Io => "IO error",
            ErrorType::Cancelled => "Cancelled",
            ErrorType::UnrecognizedFileFormat => "Unrecognized file format",
            ErrorType::UninitializedOptions => "Uninitialized options",
            ErrorType::ZeroVertexSize => "Zero vertex size",
            ErrorType::TruncatedVertexStream => "Truncated vertex stream",
            ErrorType::InvalidUtf8 => "Invalid UTF-8",
            ErrorType::FeatureDisabled => "Feature disabled",
            ErrorType::BadNurbs => "Bad NURBS geometry",
            ErrorType::BadIndex => "Bad index",
            ErrorType::NodeDepthLimit => "Node depth limit exceeded",
            ErrorType::ThreadedAsciiParse => "Threaded ASCII parse error",
            ErrorType::UnsafeOptions => "Unsafe options",
            ErrorType::DuplicateOverride => "Duplicate override",
            ErrorType::UnsupportedVersion => "Unsupported version",
        }
    }
}

/// An error record: its kind, a stack of frames and cleaned-up information.
#[derive(Debug, Clone)]
pub struct Error {
    /// Kind of error.
    pub error_type: ErrorType,
    /// Stack trace, at most [`ERROR_STACK_MAX_DEPTH`] frames.
    pub stack: Vec<ErrorFrame>,
    /// Additional context information.
    pub info: String,
}

impl Error {
    /// An error of the given kind with no frames and no information.
    pub fn new(error_type: ErrorType) -> (r: Self)
        ensures
            r.error_type == error_type,
            r.stack@.len() == 0,
            r.info@.len() == 0,
    {
        Error { error_type, stack: Vec::new(), info: String::new() }
    }

    /// The error with its information set: at most [`ERROR_INFO_LENGTH`] bytes
    /// of `info`, control characters other than newline and tab replaced by `?`.
    pub fn with_info(self, info: &str) -> (r: Self)
        ensures
            r.error_type == self.error_type,
            r.stack@ == self.stack@,
            r.info@ == cleaned(info@, ERROR_INFO_LENGTH as nat),
    {
        let mut e = self;
        e.info = clean_utf8(info, ERROR_INFO_LENGTH);
        e
    }

    /// Adds a frame, unless the stack already holds the maximum number of frames.
    pub fn push_frame(&mut self, frame: ErrorFrame)
        ensures
            old(self).stack@.len() < ERROR_STACK_MAX_DEPTH ==> final(self).stack@ == old(
                self,
            ).stack@.push(frame),
            old(self).stack@.len() >= ERROR_STACK_MAX_DEPTH ==> final(self).stack@ == old(
                self,
            ).stack@,
            final(self).error_type == old(self).error_type,
            final(self).info@ == old(self).info@,
    {
        if self.stack.len() < ERROR_STACK_MAX_DEPTH {
            self.stack.push(frame);
        }
    }

    /// Resets the record to no error, no frames and no information.
    pub fn clear(&mut self)
        ensures
            final(self).error_type == ErrorType::NoError,
            final(self).stack@.len() == 0,
            final(self).info@.len() == 0,
    {
        self.error_type = ErrorType::NoError;
        self.stack = Vec::new();
        self.info = String::new();
    }

    /// Copies `s` keeping at most `max_len` bytes of encoded text, with control
    /// characters other than newline and tab replaced by `?`.
    pub fn clean_utf8(s: &str, max_len: usize) -> (r: String)
        ensures
            r@ == cleaned(s@, max_len as nat),
    {
        clean_utf8(s, max_len)
    }

    /// The description of the error's kind.
    pub fn description(&self) -> (r: &'static str)
        ensures
            r@ == self.error_type.text(),
    {
        self.error_type.description()
    }

    /// Whether the record holds an actual error.
    pub fn is_err(&self) -> (r: bool)
        ensures
            r == (self.error_type != ErrorType::NoError),
    {
        self.error_type != ErrorType::NoError
    }

    /// The text of the error: the description, then `": "` and the
    /// information when there is some, then when there are frames a line
    /// break, a `Stack trace:` line and one line per frame.
    pub open spec fn message(self) -> Seq<char> {
        self.error_type.text() + (if self.info@.len() > 0 {
            ": "@ + self.info@
        } else {
            Seq::empty()
        }) + (if self.stack@.len() > 0 {
            "\n"@ + "Stack trace:\n"@ + frame_lines(self.stack@, 0)
        } else {
            Seq::empty()
        })
    }

    /// The error as text.
    pub fn to_string(&self) -> (r: String)
        ensures
            r@ == self.message(),
    {
        let mut s = String::new();
        push_str(&mut s, self.error_type.description());
        if self.info.as_str().unicode_len() > 0 {
            push_str(&mut s, ": ");
            push_str(&mut s, self.info.as_str());
        }
        let ghost head = s@;
        if self.stack.len() > 0 {
            push_str(&mut s, "\n");
            push_str(&mut s, "Stack trace:\n");
            let ghost head2 = s@;
            let mut i: usize = 0;
            while i < self.stack.len()
                invariant
                    0 <= i <= self.stack@.len(),
                    s@ == head2 + frame_lines(self.stack@.subrange(0, i as int), 0),
                decreases self.stack@.len() - i,
            {
                push_str(&mut s, "  #");
                crate::text::push_usize(&mut s, i);
                push_str(&mut s, ": ");
                let line = self.stack[i].to_string();
                push_str(&mut s, line.as_str());
                push_str(&mut s, "\n");
                proof {
                    let sub = self.stack@.subrange(0, i + 1);
                    assert(sub.drop_last() =~= self.stack@.subrange(0, i as int));
                    assert(sub.last() == self.stack@[i as int]);
                    assert(s@ =~= head2 + frame_lines(sub, 0));
                }
                i = i + 1;
            }
            assert(self.stack@.subrange(0, self.stack@.len() as int) =~= self.stack@);
        }
        assert(s@ =~= self.message());
        s
    }
}

/// Result type of operations that report error records.
pub type Result<T> = core::result::Result<T, Error>;

} // verus!
