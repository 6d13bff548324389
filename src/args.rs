//! The command line of the reader.
use vstd::prelude::*;

verus! {

/// The command-line arguments: the document to open, when one is named.
pub struct AppArgs {
    pub path: Option<String>,
}

impl AppArgs {
    /// The document to open: the one named on the command line, else the one
    /// read last; `None` when there is neither.
    pub fn pdf_path(self, last_read: Option<String>) -> (r: Option<String>)
        ensures
            r == match self.path {
                Some(p) => Some(p),
                None => last_read,
            },
    {
        match self.path {
            Some(p) => Some(p),
            None => last_read,
        }
    }
}

} // verus!
