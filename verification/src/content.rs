//! One reported line.

use crate::text::texts;
use vstd::prelude::*;

verus! {

/// A line that the search reports: where it was found and its text, whole or
/// cut around the matched part.
#[derive(Debug, Clone, PartialEq, Eq)]
pub struct Content {
    /// The line's number within its file, counted from 1.
    pub line_number: Option<usize>,
    /// The line's text: one piece, or the text before the match, the matched
    /// text and the text after it.
    pub line_vec: Vec<String>,
    /// The path of the file that holds the line.
    pub file_path: Option<String>,
}

/// What a `Content` stands for.
pub struct Report {
    pub line_number: Option<nat>,
    pub segments: Seq<Seq<char>>,
    pub file_path: Option<Seq<char>>,
}

impl Report {
    /// A report as the search makes it: it names its file and a line number
    /// from 1 up, and holds the line in one piece or in three.
    pub open spec fn well_formed(self) -> bool {
        &&& self.file_path is Some
        &&& self.line_number matches Some(n) && n >= 1
        &&& (self.segments.len() == 1 || self.segments.len() == 3)
    }

    /// The text of the reported line.
    pub open spec fn line(self) -> Seq<char> {
        self.segments.flatten()
    }
}

impl View for Content {
    type V = Report;

    open spec fn view(&self) -> Report {
        Report {
            line_number: match self.line_number {
                Some(n) => Some(n as nat),
                None => None,
            },
            segments: texts(self.line_vec@),
            file_path: match self.file_path {
                Some(path) => Some(path@),
                None => None,
            },
        }
    }
}

impl Content {
    /// Puts a report together from its parts.
    pub fn new(line_number: Option<usize>, line_vec: Vec<String>, file_path: Option<String>) -> (content:
        Content)
        ensures
            content.line_number == line_number,
            content.line_vec == line_vec,
            content.file_path == file_path,
    {
        Content { line_number, line_vec, file_path }
    }
}

} // verus!
