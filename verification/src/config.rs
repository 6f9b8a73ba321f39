//! The formatter's options and what to do with a formatted file.
use vstd::prelude::*;
use crate::parser::parse_and_format;
use crate::printer::formatted_source;
use crate::syntax::{char_index_of_bytes, spans_from_table, SyntaxNode};
use crate::text::{chars_of, same_chars};

verus! {

/// Datastar attribute formatter options.
pub struct Args {
    /// Files or directories to format; standard input when empty.
    pub paths: Vec<String>,
    /// Line width.
    pub line_width: usize,
    /// Use spaces instead of tabs.
    pub use_spaces: bool,
    /// Spaces per indent level when spaces are used.
    pub tab_width: usize,
    /// Check only: report the files that formatting would change.
    pub check: bool,
    /// Write changes back to the files.
    pub write: bool,
}

/// Formats `input` with the options of `args`.
pub fn format_text(input: &str, args: &Args) -> (r: String)
    ensures
        r@ == input@ || (input@.len() + 2 <= usize::MAX && exists|root: SyntaxNode|
            root.wf(input@.len()) && spans_from_table(
                root,
                char_index_of_bytes(input@),
                input@.len(),
            ) && r@ == formatted_source(
                input@,
                root,
                args.line_width as nat,
                args.use_spaces,
                args.tab_width as nat,
            )),
{
    parse_and_format(input, args.line_width, args.use_spaces, args.tab_width)
}

/// What to do with a file once it has been formatted.
#[derive(Debug, Clone, Copy, PartialEq, Eq, Structural)]
pub enum FileAction {
    /// Print the formatted text.
    Print,
    /// Write the formatted text back to the file.
    WriteBack,
    /// Report that the file would be reformatted, and fail.
    ReportChange,
    /// Nothing to do.
    Nothing,
}

/// In check mode a changed file is reported; in write mode a changed file is
/// written back; otherwise the formatted text is printed.
pub open spec fn file_action_for(check: bool, write: bool, changed: bool) -> FileAction {
    if check {
        if changed {
            FileAction::ReportChange
        } else {
            FileAction::Nothing
        }
    } else if write {
        if changed {
            FileAction::WriteBack
        } else {
            FileAction::Nothing
        }
    } else {
        FileAction::Print
    }
}

fn same_text(a: &str, b: &str) -> (r: bool)
    ensures
        r == (a@ == b@),
{
    same_chars(&chars_of(a), &chars_of(b))
}

/// What to do with a file whose text `input` formats to `output`.
pub fn file_action(args: &Args, input: &str, output: &str) -> (r: FileAction)
    ensures
        r == file_action_for(args.check, args.write, input@ != output@),
{
    let changed = !same_text(input, output);
    if args.check {
        if changed {
            FileAction::ReportChange
        } else {
            FileAction::Nothing
        }
    } else if args.write {
        if changed {
            FileAction::WriteBack
        } else {
            FileAction::Nothing
        }
    } else {
        FileAction::Print
    }
}

} // verus!
