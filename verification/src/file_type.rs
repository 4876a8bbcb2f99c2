//! Classification of filesystem objects into the coarse kinds the parsing
//! pipeline distinguishes.

use vstd::prelude::*;
use vstd::string::StringExecFns;

verus! {

/// The high level type of a file or directory.
#[derive(Debug, Clone, Copy, PartialEq, Eq, Structural)]
pub enum FileType {
    /// A file.
    File,
    /// A directory.
    Directory,
    /// A symbolic link.
    Symlink,
    /// Any other type.
    Unknown,
}

/// The display name of a file-type value.
pub open spec fn file_type_name(t: FileType) -> Seq<char> {
    match t {
        FileType::File => "File"@,
        FileType::Directory => "Directory"@,
        FileType::Symlink => "Symlink"@,
        FileType::Unknown => "Unknown"@,
    }
}

impl FileType {
    /// The display name of this file type.
    pub fn name(&self) -> (r: String)
        ensures
            r@ == file_type_name(*self),
    {
        match self {
            FileType::File => String::from_str("File"),
            FileType::Directory => String::from_str("Directory"),
            FileType::Symlink => String::from_str("Symlink"),
            FileType::Unknown => String::from_str("Unknown"),
        }
    }

    /// Classify a filesystem object from the three metadata flags, checking
    /// directory first, then regular file, then symbolic link; anything else
    /// is `Unknown`. Total: never fails, never panics.
    pub fn classify(is_dir: bool, is_file: bool, is_symlink: bool) -> (r: FileType)
        ensures
            r == (if is_dir {
                FileType::Directory
            } else if is_file {
                FileType::File
            } else if is_symlink {
                FileType::Symlink
            } else {
                FileType::Unknown
            }),
    {
        if is_dir {
            FileType::Directory
        } else if is_file {
            FileType::File
        } else if is_symlink {
            FileType::Symlink
        } else {
            FileType::Unknown
        }
    }
}

} // verus!
