use crate::text::concat;
use vstd::prelude::*;

verus! {

/// The formats in which results are written.
#[derive(Debug, Clone, Copy, PartialEq, Eq, Structural)]
pub enum OutputFormat {
    Json,
}

impl OutputFormat {
    /// The file extension of the format.
    pub open spec fn extension(self) -> Seq<char> {
        match self {
            OutputFormat::Json => "json"@,
        }
    }

    /// The file extension of the format, as text.
    pub fn to_text(&self) -> (r: String)
        ensures
            r@ == self.extension(),
    {
        match self {
            OutputFormat::Json => "json".to_owned(),
        }
    }

    /// Every format.
    pub fn all() -> (r: Vec<OutputFormat>)
        ensures
            r@ == seq![OutputFormat::Json],
    {
        let mut v: Vec<OutputFormat> = Vec::new();
        v.push(OutputFormat::Json);
        v
    }
}

/// Where results are written, and in which formats.
#[derive(Debug)]
pub struct OutputWriter {
    pub format: Vec<OutputFormat>,
    pub dir: String,
}

/// The path of the file `file_name` in `dir`, with the extension `extension`.
pub open spec fn file_path(dir: Seq<char>, file_name: Seq<char>, extension: Seq<char>) -> Seq<char> {
    dir + "/"@ + file_name + "."@ + extension
}

impl OutputWriter {
    /// A writer into the directory `dir`, for every format.
    pub fn new(dir: String) -> (r: Self)
        ensures
            r.dir == dir,
            r.format@ == seq![OutputFormat::Json],
    {
        Self { format: OutputFormat::all(), dir }
    }

    /// The path of the file that holds `file_name` in the format `format`.
    pub fn path_for(&self, file_name: &str, format: OutputFormat) -> (r: String)
        ensures
            r@ == file_path(self.dir@, file_name@, format.extension()),
    {
        let mut out = concat(self.dir.as_str(), "/");
        out.append(file_name);
        out.append(".");
        out.append(format.to_text().as_str());
        out
    }
}

} // verus!
