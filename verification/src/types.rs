use crate::text::concat;
use vstd::prelude::*;

verus! {

/// Something that lives at a path of the wiki.
pub trait UrlTyped {
    /// The path, as a sequence of characters.
    spec fn path(&self) -> Seq<char>;

    /// The path.
    fn get_path(&self) -> (r: String)
        ensures
            r@ == self.path(),
    ;
}

/// What can go wrong while fetching and reading pages.
#[derive(Debug, Clone)]
pub enum Error {
    /// A page could not be fetched.
    RequestError(String),
    /// A page did not have the expected shape.
    InvalidStructure(String),
}

impl Error {
    /// The text that goes with the error.
    pub open spec fn detail(&self) -> Seq<char> {
        match self {
            Error::RequestError(m) => m@,
            Error::InvalidStructure(m) => m@,
        }
    }

    /// The error is a structure error that says `msg`.
    pub open spec fn is_structure(&self, msg: Seq<char>) -> bool {
        self is InvalidStructure && self.detail() == msg
    }

    /// The error is a request error that says `msg`.
    pub open spec fn is_request(&self, msg: Seq<char>) -> bool {
        self is RequestError && self.detail() == msg
    }

    /// The message of the error, with the kind of error before it.
    pub open spec fn message(&self) -> Seq<char> {
        match self {
            Error::RequestError(m) => "Request error: "@ + m@,
            Error::InvalidStructure(m) => "Invalid html structure: "@ + m@,
        }
    }

    /// The message of the error, as text.
    pub fn to_text(&self) -> (r: String)
        ensures
            r@ == self.message(),
    {
        match self {
            Error::RequestError(m) => concat("Request error: ", m.as_str()),
            Error::InvalidStructure(m) => concat("Invalid html structure: ", m.as_str()),
        }
    }
}

/// A copy of `error`.
pub fn copy_of_error(error: &Error) -> (r: Error)
    ensures
        r == *error,
{
    match error {
        Error::RequestError(m) => Error::RequestError(m.clone()),
        Error::InvalidStructure(m) => Error::InvalidStructure(m.clone()),
    }
}

/// A structure error that says `msg`.
pub fn invalid_structure(msg: &str) -> (r: Error)
    ensures
        r.is_structure(msg@),
{
    Error::InvalidStructure(msg.to_owned())
}

/// A name and the path it links to.
#[derive(Debug, Clone, PartialEq, Eq)]
pub struct NamedUrl {
    pub name: String,
    pub url: String,
}

impl NamedUrl {
    /// The link named `name` to `url`.
    pub fn new(name: String, url: String) -> (r: Self)
        ensures
            r.name == name,
            r.url == url,
    {
        Self { name, url }
    }

    /// A copy of the link.
    pub fn duplicate(&self) -> (r: NamedUrl)
        ensures
            r == *self,
    {
        NamedUrl { name: self.name.clone(), url: self.url.clone() }
    }
}

/// The names and paths of `links`.
pub open spec fn named_url_views(links: Seq<NamedUrl>) -> Seq<(Seq<char>, Seq<char>)> {
    links.map_values(|l: NamedUrl| (l.name@, l.url@))
}

impl Default for NamedUrl {
    fn default() -> (r: Self)
        ensures
            r.name@ == Seq::<char>::empty(),
            r.url@ == Seq::<char>::empty(),
    {
        NamedUrl { name: String::new(), url: String::new() }
    }
}

impl UrlTyped for NamedUrl {
    open spec fn path(&self) -> Seq<char> {
        self.url@
    }

    fn get_path(&self) -> (r: String) {
        self.url.clone()
    }
}

/// A native name, its English name and a description.
#[derive(Debug, Clone)]
pub struct NamedJpEn {
    pub name: String,
    pub en_name: String,
    pub description: String,
}

impl NamedJpEn {
    /// The names `name` and `en_name` with the description `description`.
    pub fn new(name: String, en_name: String, description: String) -> (r: Self)
        ensures
            r.name == name,
            r.en_name == en_name,
            r.description == description,
    {
        Self { name, en_name, description }
    }
}

impl Default for NamedJpEn {
    fn default() -> (r: Self)
        ensures
            r.name@ == Seq::<char>::empty(),
            r.en_name@ == Seq::<char>::empty(),
            r.description@ == Seq::<char>::empty(),
    {
        NamedJpEn { name: String::new(), en_name: String::new(), description: String::new() }
    }
}

} // verus!
