//! The failures that the library reports, one variant per distinct reason.
use vstd::prelude::*;

verus! {

/// Why an operation was refused. Variants that carry a `String` carry the
/// name or path that the refusal is about; a path given as a `Vec` is its
/// components, to be shown with the platform's separator.
#[derive(Debug, PartialEq, Eq)]
pub enum Error {
    /// The entry name starts with a path separator.
    AbsolutePath(String),
    /// The entry name has an empty, `.` or `..` component, a component that
    /// ends in a space or a dot, or a character that Windows forbids.
    UnsafePath(String),
    /// A component of the entry name is a reserved device name on Windows.
    ReservedName(String),
    /// The entry name has no component.
    EmptyPath,
    /// Two entries name the same file once case and Unicode composition are
    /// ignored; the path is the later one.
    DuplicateName(Vec<String>),
    /// An entry sits below a path that is a file entry; the path is that file.
    PathConflict(Vec<String>),
    /// A listing, or the items found to compress, hold more entries than the
    /// library handles (100,000).
    TooManyEntries,
    /// More entries were met while reading or extracting than the library
    /// handles.
    TooManyItems,
    /// The ZIP directory lists more entries than the library handles
    /// (100,000).
    ZipTooManyListed,
    /// The ZIP directory to extract lists more entries than the library
    /// handles.
    ZipTooManyToExtract,
    /// A running total of sizes does not fit in 64 bits.
    SizeOverflow,
    /// The count of bytes written does not fit in 64 bits.
    WrittenSizeOverflow,
    /// The sizes that the archive declares add up to more than the limit.
    LimitExceeded,
    /// The archive's format is not one that can be read.
    UnsupportedFormat,
    /// The format names no decompressor that the library has.
    UnsupportedCompression,
    /// The job was cancelled while it ran; what it wrote is removed.
    Cancelled,
    /// The bytes written pass the limit, or the size that the entry declared.
    WrittenOverLimit,
    /// A folder entry came with data.
    DataInFolder,
    /// A file ended with another size than it declared.
    SizeMismatch,
    /// The job was cancelled before anything was written.
    CancelledScan,
    /// The 7z entry is a link or a special file, which is not supported.
    SpecialEntry(String),
    /// The ZIP entry is a link or a special file, which is not extracted.
    ZipSpecial(String),
    /// The sizes that the ZIP directory declares add up to more than the
    /// limit.
    DeclaredOverLimit,
    /// Another job runs.
    Busy,
    /// A seek before the start of the file, or past 64 bits.
    BadSeek,
    /// A decompressed stream gave more bytes than the limit allows.
    DecodedOverLimit,
    /// A source file changed size while it was compressed.
    SourceChanged,
    /// The archive needs a password and none, or a wrong one, was given.
    PasswordRequired,
    /// A RAR entry is a link or a special file.
    RarSpecial,
    /// The RAR archive is split into volumes.
    SplitRar,
    /// A RAR entry needs a dictionary above 512 MiB.
    RarDictionary,
    /// A RAR entry name is not Unicode.
    RarNameEncoding,
    /// The RAR password is wrong.
    RarBadPassword,
    /// RAR data or a checksum is damaged.
    RarBadData,
    /// Another UnRAR failure, with its code.
    RarFailed(i32),
    /// A TAR entry is a link or a special file.
    TarSpecial,
    /// A TAR entry name is not UTF-8.
    TarNameEncoding,
    /// The output name does not end in the extension of the format named.
    WrongExtension(String),
    /// The output format is not one that can be written.
    UnsupportedOutputFormat,
    /// Nothing was chosen to compress.
    NoSources,
    /// The compression level is not one that is offered.
    UnsupportedLevel,
    /// The output would be written inside a folder being compressed.
    OutputInsideSource,
    /// A source is a symbolic link, which is not compressed.
    SymlinkSource,
    /// A source is the root of the file system.
    RootSource,
    /// A file below a source is a link or a special file.
    SpecialSource(String),
    /// A file name below a source is not UTF-8.
    NameEncoding,
    /// The extraction limit is not between 1 and 2048 GiB.
    LimitRange,
    /// No extension, or one that is not handled, was chosen.
    NoExtensions,
    /// The chosen item has no file name.
    NoFileName,
    /// The chosen item has no parent folder.
    NoParent,
    /// A link or a special file was found where sources are checked.
    SpecialInSource,
    /// Two sources give the same relative path.
    DuplicateSource,
    /// The archive does not hold what the sources hold now.
    ContentMismatch,
    /// Moving the sources to the trash was cancelled.
    TrashCancelled,
    /// A source path changed since it was compressed.
    SourceMoved,
    /// The update to install is not the one that was checked.
    UpdateStale,
}

} // verus!
