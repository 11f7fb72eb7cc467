//! What was asked for on the command line.
use vstd::prelude::*;

use crate::document::{copy_opt, opt_text};
use crate::theme::ThemeChoice;

verus! {

/// What was asked for on the command line.
#[derive(Debug, PartialEq, Eq)]
pub struct Cli {
    /// Do not capture mouse events; keeps native terminal text selection.
    pub no_mouse: bool,
    /// Override the saved color theme for this run.
    pub theme: Option<ThemeChoice>,
    /// EPUB, TXT, Markdown file, or directory to open. Reopens the most recent
    /// file when omitted.
    pub file: Option<String>,
}

impl Cli {
    /// The file to begin with: the one that was asked for, or the last one that was opened.
    pub fn first_file(&self, last_opened: Option<String>) -> (file: Option<String>)
        ensures
            opt_text(file) == (if self.file is Some {
                opt_text(self.file)
            } else {
                opt_text(last_opened)
            }),
    {
        match &self.file {
            Some(_) => copy_opt(&self.file),
            None => last_opened,
        }
    }
}

} // verus!
