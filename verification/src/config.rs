//! Configuration value types: the partial identifier as written by the user,
//! the staged entry paths of an assignment, and the configuration-shape
//! errors.

use vstd::prelude::*;

verus! {

/// An error in the shape of the configuration itself.
#[derive(Clone, Debug, PartialEq, Eq)]
pub enum FetchError {
    /// The requested assignment key is not present in the configuration.
    NoSuchAssignmentKey(String),
}

/// A user-supplied partial identifier: an optional name and an optional
/// numeric id. Absence of both fields is a legal state of its own, handled at
/// resolution time rather than rejected at construction time.
#[derive(Clone, Debug, PartialEq)]
pub struct Identifier {
    pub name: Option<String>,
    pub id: Option<u64>,
}

/// Which of an identifier's fields are present, with their values.
#[derive(Clone, Debug, PartialEq)]
pub enum ReadIdentifier {
    NameAndId { name: String, id: u64 },
    NameOnly { name: String },
    IdOnly { id: u64 },
    Neither,
}

/// The read state that an identifier owes: a case per combination of present
/// fields.
pub open spec fn read_model(ident: Identifier) -> ReadIdentifier {
    match (ident.name, ident.id) {
        (Some(n), Some(i)) => ReadIdentifier::NameAndId { name: n, id: i },
        (Some(n), None) => ReadIdentifier::NameOnly { name: n },
        (None, Some(i)) => ReadIdentifier::IdOnly { id: i },
        (None, None) => ReadIdentifier::Neither,
    }
}

impl Identifier {
    pub fn new(name: Option<String>, id: Option<u64>) -> (r: Identifier)
        ensures
            r.name == name,
            r.id == id,
    {
        Identifier { name, id }
    }

    /// Whether neither a name nor an id is present.
    pub fn is_none(&self) -> (r: bool)
        ensures
            r == (self.name is None && self.id is None),
    {
        self.name.is_none() && self.id.is_none()
    }

    /// Read off which fields are present.
    pub fn read(&self) -> (r: ReadIdentifier)
        ensures
            r == read_model(*self),
    {
        match (&self.name, &self.id) {
            (Some(name), Some(id)) => ReadIdentifier::NameAndId { name: name.clone(), id: *id },
            (Some(name), None) => ReadIdentifier::NameOnly { name: name.clone() },
            (None, Some(id)) => ReadIdentifier::IdOnly { id: *id },
            (None, None) => ReadIdentifier::Neither,
        }
    }
}

impl Default for Identifier {
    /// The identifier with neither field present.
    fn default() -> (r: Identifier)
        ensures
            r.name is None,
            r.id is None,
    {
        Identifier { name: None, id: None }
    }
}

/// One staged entry of an assignment: a path string, either bare or together
/// with a list of option flags.
#[derive(Clone, Debug, PartialEq)]
pub enum Path {
    Flat(String),
    Optioned { path: String, options: Option<Vec<String>> },
}

impl Path {
    /// The path string of the entry.
    pub open spec fn spec_path(&self) -> Seq<char> {
        match self {
            Path::Flat(path) => path@,
            Path::Optioned { path, .. } => path@,
        }
    }

    /// The option flags of the entry, in configuration order and with
    /// repeats kept; a bare entry and an entry without an options list have
    /// none.
    pub open spec fn spec_options(&self) -> Seq<String> {
        match self {
            Path::Flat(_) => Seq::<String>::empty(),
            Path::Optioned { options, .. } => match options {
                Some(v) => v@,
                None => Seq::<String>::empty(),
            },
        }
    }

    pub fn path(&self) -> (r: &String)
        ensures
            r@ == self.spec_path(),
    {
        match self {
            Path::Flat(path) => path,
            Path::Optioned { path, .. } => path,
        }
    }

    pub fn options(&self) -> (r: Vec<String>)
        ensures
            r@ == self.spec_options(),
    {
        match self {
            Path::Flat(_) => Vec::new(),
            Path::Optioned { options, .. } => match options {
                Some(v) => {
                    let r = v.clone();
                    proof {
                        assert(r@ =~= v@);
                    }
                    r
                },
                None => Vec::new(),
            },
        }
    }
}

} // verus!
