//! Local payload targets: transform flags attached to a configured entry, and
//! the resolved file-or-directory handle that staging consumes.

use vstd::prelude::*;

verus! {

use vstd::string::StringExecFns;

/// A recognized transform flag attached to a configured entry.
#[derive(Clone, Debug, Hash, PartialEq, Eq)]
pub enum FileOption {
    Zip,
}

/// An unrecognized transform flag. Each bad flag is an error of its own and
/// never invalidates sibling flags or the entry's path.
#[derive(Clone, Debug, Hash, PartialEq, Eq)]
pub enum FileOptionError {
    Unexpected(String),
}

impl FileOption {
    /// Parse one flag string; exactly the string "zip" is recognized, and an
    /// unrecognized string is returned inside the error.
    pub fn try_from(string: &String) -> (r: Result<FileOption, FileOptionError>)
        ensures
            string@ == "zip"@ ==> r == Ok::<FileOption, FileOptionError>(FileOption::Zip),
            string@ != "zip"@ ==> r == Err::<FileOption, FileOptionError>(
                FileOptionError::Unexpected(*string),
            ),
    {
        let zip_word = String::from_str("zip");
        if string.eq(&zip_word) {
            Ok(FileOption::Zip)
        } else {
            Err(FileOptionError::Unexpected(string.clone()))
        }
    }
}

/// What a probe of the local filesystem found at a path.
#[derive(Clone, Copy, Debug, PartialEq, Eq)]
pub enum PathStatus {
    IsFile,
    IsDir,
    Missing,
}

/// A path that pointed at an existing file or directory when it was checked.
/// A value is only ever constructed from a probe that found the path present.
#[derive(Clone, Debug, Hash, PartialEq, Eq)]
pub enum IncludePath {
    File(String),
    Dir(String),
}

/// Failure to resolve a configured entry path, carrying the path that was
/// checked for diagnostics.
#[derive(Clone, Debug, Hash, PartialEq, Eq)]
pub enum IncludeError {
    NotPresent(String),
}

/// Pick the project root among a chain of ancestor directories, nearest
/// first: the index of the first one that holds the configuration file, or
/// `None` when none does before the chain ends at the filesystem root.
pub fn find_root(has_config: &Vec<bool>) -> (r: Option<usize>)
    ensures
        match r {
            Some(i) => i < has_config@.len() && has_config@[i as int] && (forall|j: int|
                0 <= j < i ==> !(#[trigger] has_config@[j])),
            None => forall|j: int| 0 <= j < has_config@.len() ==> !(#[trigger] has_config@[j]),
        },
{
    let mut i: usize = 0;
    while i < has_config.len()
        invariant
            i <= has_config.len(),
            forall|j: int| 0 <= j < i ==> !(#[trigger] has_config@[j]),
        decreases has_config.len() - i,
    {
        if has_config[i] {
            return Some(i);
        }
        i += 1;
    }
    None
}

impl IncludePath {
    /// Classify a checked path by what the probe found: an existing regular
    /// file or directory resolves, anything else is `NotPresent` carrying the
    /// checked path.
    pub fn try_find(path: &String, status: PathStatus) -> (r: Result<IncludePath, IncludeError>)
        ensures
            status is IsFile ==> r == Ok::<IncludePath, IncludeError>(IncludePath::File(*path)),
            status is IsDir ==> r == Ok::<IncludePath, IncludeError>(IncludePath::Dir(*path)),
            status is Missing ==> r == Err::<IncludePath, IncludeError>(
                IncludeError::NotPresent(*path),
            ),
    {
        match status {
            PathStatus::IsFile => Ok(IncludePath::File(path.clone())),
            PathStatus::IsDir => Ok(IncludePath::Dir(path.clone())),
            PathStatus::Missing => Err(IncludeError::NotPresent(path.clone())),
        }
    }

    /// The checked path string.
    pub open spec fn spec_path(&self) -> Seq<char> {
        match self {
            IncludePath::File(p) => p@,
            IncludePath::Dir(p) => p@,
        }
    }

    pub fn path(&self) -> (r: &String)
        ensures
            r@ == self.spec_path(),
    {
        match self {
            IncludePath::File(p) => p,
            IncludePath::Dir(p) => p,
        }
    }

    pub fn is_file(&self) -> (r: bool)
        ensures
            r == (self is File),
    {
        match self {
            IncludePath::File(_) => true,
            _ => false,
        }
    }

    pub fn is_dir(&self) -> (r: bool)
        ensures
            r == (self is Dir),
    {
        match self {
            IncludePath::Dir(_) => true,
            _ => false,
        }
    }
}

} // verus!
