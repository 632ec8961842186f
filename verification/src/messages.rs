//! What the reader tells the user when something fails.
use vstd::prelude::*;

use crate::commands::CommandError;
use crate::document::PageError;
use crate::text::{self, owned, push_decimal, push_str};
use crate::workspace::WorkspaceError;

verus! {

/// A text as the standard library's `Debug` writes a string: in double
/// quotes, with special characters escaped.
pub uninterp spec fn quoted(s: Seq<char>) -> Seq<char>;

/// The standard library's `Debug` form of a string, through `format!`. Nothing
/// is claimed of it but that it depends on the string alone.
#[verifier::external_body]
pub(crate) fn quote(s: &str) -> (r: String)
    ensures
        r@ == quoted(s@),
{
    format!("{:?}", s)
}

impl PageError {
    /// The words for the error.
    pub open spec fn words(self) -> Seq<char> {
        match self {
            PageError::OutOfRange { page_idx, count } => "page "@ + text::decimal(page_idx as nat)
                + " out of range ("@ + text::decimal(count as nat) + ")"@,
            PageError::OtherLook => "page was measured for another view"@,
            PageError::Unreadable(why) => why@,
            PageError::TooLarge => "page is too large to draw"@,
        }
    }

    /// The words for the error.
    pub fn message(&self) -> (s: String)
        ensures
            s@ == self.words(),
    {
        match self {
            PageError::OutOfRange { page_idx, count } => {
                let mut s: String = owned("page ");
                push_decimal(&mut s, *page_idx as u64);
                push_str(&mut s, " out of range (");
                push_decimal(&mut s, *count as u64);
                push_str(&mut s, ")");
                s
            },
            PageError::OtherLook => owned("page was measured for another view"),
            PageError::Unreadable(why) => owned(why.as_str()),
            PageError::TooLarge => owned("page is too large to draw"),
        }
    }
}

impl WorkspaceError {
    /// The words for the error.
    pub open spec fn words(self) -> Seq<char> {
        match self {
            WorkspaceError::Passthrough => "command is not for the workspace"@,
            WorkspaceError::NoAlternate => "no alternate buffer"@,
            WorkspaceError::NoSuchBuffer(n) => ":b "@ + text::decimal(n as nat)
                + ": no such buffer"@,
            WorkspaceError::NoBuffers => "no open buffers"@,
            WorkspaceError::CannotOpen(why) => why@,
            WorkspaceError::NotSupplied => "path was not looked up"@,
            WorkspaceError::BufferGone(id) => "buffer BufferId("@ + text::decimal(id.0 as nat)
                + ") no longer in pool"@,
            WorkspaceError::NotALetter => "mark must be a letter"@,
            WorkspaceError::NotAPdf => "not a PDF buffer"@,
            WorkspaceError::Page(e) => e.words(),
        }
    }

    /// The words for the error.
    pub fn message(&self) -> (s: String)
        ensures
            s@ == self.words(),
    {
        match self {
            WorkspaceError::Passthrough => owned("command is not for the workspace"),
            WorkspaceError::NoAlternate => owned("no alternate buffer"),
            WorkspaceError::NoSuchBuffer(n) => {
                let mut s: String = owned(":b ");
                push_decimal(&mut s, *n as u64);
                push_str(&mut s, ": no such buffer");
                s
            },
            WorkspaceError::NoBuffers => owned("no open buffers"),
            WorkspaceError::CannotOpen(why) => owned(why.as_str()),
            WorkspaceError::NotSupplied => owned("path was not looked up"),
            WorkspaceError::BufferGone(id) => {
                let mut s: String = owned("buffer BufferId(");
                push_decimal(&mut s, id.0 as u64);
                push_str(&mut s, ") no longer in pool");
                s
            },
            WorkspaceError::NotALetter => owned("mark must be a letter"),
            WorkspaceError::NotAPdf => owned("not a PDF buffer"),
            WorkspaceError::Page(e) => e.message(),
        }
    }
}

impl CommandError {
    /// The words for the error.
    pub open spec fn words(self) -> Seq<char> {
        match self {
            CommandError::Empty => "empty command"@,
            CommandError::OnlyVerticalResize => "only `:vertical resize` is supported"@,
            CommandError::Unknown { name } => "unknown command: "@ + name@,
            CommandError::Usage { usage, got } => match got {
                Some(arg) => usage@ + " (got "@ + quoted(arg@) + ")"@,
                None => usage@,
            },
        }
    }

    /// The words for the error.
    pub fn message(&self) -> (s: String)
        ensures
            s@ == self.words(),
    {
        match self {
            CommandError::Empty => owned("empty command"),
            CommandError::OnlyVerticalResize => owned("only `:vertical resize` is supported"),
            CommandError::Unknown { name } => {
                let mut s: String = owned("unknown command: ");
                push_str(&mut s, name.as_str());
                s
            },
            CommandError::Usage { usage, got } => {
                let mut s: String = owned(usage);
                match got {
                    Some(arg) => {
                        push_str(&mut s, " (got ");
                        let q: String = quote(arg.as_str());
                        push_str(&mut s, q.as_str());
                        push_str(&mut s, ")");
                    },
                    None => {},
                }
                s
            },
        }
    }
}

/// The words for a directory where a document is wanted.
pub open spec fn not_a_document(dir: Seq<char>) -> Seq<char> {
    "failed to open PDF "@ + quoted(dir)
}

pub(crate) fn about_directory(dir: &str) -> (s: String)
    ensures
        s@ == not_a_document(dir@),
{
    let mut s: String = owned("failed to open PDF ");
    let q: String = quote(dir);
    push_str(&mut s, q.as_str());
    s
}

/// A prefix and the words for an error.
pub(crate) fn prefixed(prefix: &str, e: &WorkspaceError) -> (s: String)
    ensures
        s@ == prefix@ + e.words(),
{
    let mut s: String = owned(prefix);
    let words: String = e.message();
    push_str(&mut s, words.as_str());
    s
}

/// A mark between two texts.
pub(crate) fn about_mark(before: &str, mark: char, after: &str) -> (s: String)
    ensures
        s@ == before@ + seq![mark] + after@,
{
    let mut s: String = owned(before);
    s.push(mark);
    assert(s@ =~= before@ + seq![mark]);
    push_str(&mut s, after);
    s
}

/// Which hit has the focus, and how many there are.
pub open spec fn hit_words(current: nat, total: nat) -> Seq<char> {
    "["@ + text::decimal(current) + "/"@ + text::decimal(total) + "]"@
}

/// Which hit has the focus, and how many there are.
pub(crate) fn hit_string(current: usize, total: usize) -> (s: String)
    ensures
        s@ == hit_words(current as nat, total as nat),
{
    let mut s: String = owned("[");
    push_decimal(&mut s, current as u64);
    push_str(&mut s, "/");
    push_decimal(&mut s, total as u64);
    push_str(&mut s, "]");
    s
}

/// What a search has found.
pub open spec fn search_words(query: Seq<char>, current: nat, total: nat) -> Seq<char> {
    if total == 0 {
        "no match for "@ + quoted(query)
    } else {
        "/"@ + query + "  "@ + hit_words(current, total)
    }
}

/// What a search has found.
pub(crate) fn search_string(query: &str, current: usize, total: usize) -> (s: String)
    ensures
        s@ == search_words(query@, current as nat, total as nat),
{
    if total == 0 {
        let mut s: String = owned("no match for ");
        let q: String = quote(query);
        push_str(&mut s, q.as_str());
        s
    } else {
        let mut s: String = owned("/");
        push_str(&mut s, query);
        push_str(&mut s, "  ");
        let hits: String = hit_string(current, total);
        push_str(&mut s, hits.as_str());
        s
    }
}

} // verus!
