use vstd::prelude::*;

verus! {

/// Why an object key could not be turned into a file descriptor.
#[derive(Debug, Clone, PartialEq, Eq)]
pub enum S3DecodeError {
    /// The key does not have the shape `<prefix>.<digits>[.gz]`; holds the key.
    FileInfo(String),
    /// The digit run of the key does not fit a signed 64-bit millisecond count;
    /// holds the key.
    Timestamp(String),
}

/// Failures that come from the object store or from what it lists.
#[derive(Debug, Clone, PartialEq, Eq)]
pub enum S3Error {
    /// Reading a byte stream failed.
    Io(String),
    /// A listed key is malformed.
    Decode(S3DecodeError),
    /// A listing or fetch request failed.
    Rpc(String),
}

} // verus!

verus! {

/// Why a file's bytes could not be split into records.
#[derive(Debug, Clone, PartialEq, Eq)]
pub enum FrameError {
    /// The bytes are not a valid gzip stream; holds the decoder's message.
    Compression(String),
    /// The decompressed stream ends inside a length header or a payload.
    Truncated,
}

} // verus!

verus! {

/// Why an import run, or one file of it, failed.
#[derive(Debug, Clone, PartialEq, Eq)]
pub enum ImportError {
    /// The analytical store refused an operation; holds its message.
    Db(String),
    /// The object store failed, or listed a malformed key.
    S3(S3Error),
    /// Conflicting time-window options.
    TimeArgs,
    /// Continuing was asked for, but no file of the prefix was ever recorded.
    NoPriorImport,
    /// A file's bytes could not be split into records.
    Frame(FrameError),
}

} // verus!
