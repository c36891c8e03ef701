use crate::text::{chars_of, push_char};
use vstd::prelude::*;

verus! {

/// Why a configuration could not be read.
#[derive(PartialEq, Eq, Debug)]
pub enum ParseError {
    /// The file to read does not exist.
    FileNotFound(String),
    /// A required directive names a file that could not be read; the second
    /// field is the file that holds the directive, where known.
    IncludedFileNotFound(String, Option<String>),
    /// A line is malformed: the line without its comment and outer separators,
    /// and the file that holds it, where known.
    IllegalConfiguration(String, Option<String>),
    /// The file exists but its text could not be read, with the cause.
    FailedToReadFile(String, String),
}

/// A [`ParseError`] as values.
pub enum ParseErrorModel {
    FileNotFound(Seq<char>),
    IncludedFileNotFound(Seq<char>, Option<Seq<char>>),
    IllegalConfiguration(Seq<char>, Option<Seq<char>>),
    FailedToReadFile(Seq<char>, Seq<char>),
}

/// The characters of an optional string.
pub open spec fn opt_view(o: Option<String>) -> Option<Seq<char>> {
    match o {
        Some(s) => Some(s@),
        None => None,
    }
}

impl View for ParseError {
    type V = ParseErrorModel;

    open spec fn view(&self) -> ParseErrorModel {
        match self {
            ParseError::FileNotFound(p) => ParseErrorModel::FileNotFound(p@),
            ParseError::IncludedFileNotFound(p, o) => ParseErrorModel::IncludedFileNotFound(
                p@,
                opt_view(*o),
            ),
            ParseError::IllegalConfiguration(l, o) => ParseErrorModel::IllegalConfiguration(
                l@,
                opt_view(*o),
            ),
            ParseError::FailedToReadFile(p, c) => ParseErrorModel::FailedToReadFile(p@, c@),
        }
    }
}

/// The origin as a message shows it.
pub open spec fn origin_text(o: Option<Seq<char>>) -> Seq<char> {
    match o {
        Some(p) => p,
        None => "<unknown>"@,
    }
}

/// The message that describes an error.
pub open spec fn message_of(e: ParseErrorModel) -> Seq<char> {
    match e {
        ParseErrorModel::FileNotFound(p) => "file '"@ + p + "' not found"@,
        ParseErrorModel::IncludedFileNotFound(p, o) => "file '"@ + p + "' included from '"@
            + origin_text(o) + "' not found"@,
        ParseErrorModel::IllegalConfiguration(l, o) => "illegal configuration line '"@ + l
            + "' in '"@ + origin_text(o) + "'"@,
        ParseErrorModel::FailedToReadFile(p, c) => "failed to read contents of '"@ + p + "': "@
            + c,
    }
}

/// Appends the characters of `t` to `s`.
fn push_str(s: &mut String, t: &str)
    ensures
        final(s)@ == old(s)@ + t@,
{
    let cs = chars_of(t);
    let mut i: usize = 0;
    while i < cs.len()
        invariant
            i <= cs.len(),
            cs@ == t@,
            s@ == old(s)@ + cs@.take(i as int),
        decreases cs.len() - i,
    {
        push_char(s, cs[i]);
        assert(cs@.take(i + 1) == cs@.take(i as int).push(cs@[i as int]));
        i = i + 1;
    }
    assert(cs@.take(cs.len() as int) == cs@);
}

/// Appends the origin as a message shows it.
fn push_origin(s: &mut String, o: &Option<String>)
    ensures
        final(s)@ == old(s)@ + origin_text(opt_view(*o)),
{
    match o {
        Some(p) => push_str(s, p.as_str()),
        None => push_str(s, "<unknown>"),
    }
}

impl ParseError {
    /// The message that describes the error.
    pub fn message(&self) -> (r: String)
        ensures
            r@ == message_of(self@),
    {
        let mut s = String::new();
        match self {
            ParseError::FileNotFound(p) => {
                push_str(&mut s, "file '");
                push_str(&mut s, p.as_str());
                push_str(&mut s, "' not found");
            },
            ParseError::IncludedFileNotFound(p, o) => {
                push_str(&mut s, "file '");
                push_str(&mut s, p.as_str());
                push_str(&mut s, "' included from '");
                push_origin(&mut s, o);
                push_str(&mut s, "' not found");
            },
            ParseError::IllegalConfiguration(l, o) => {
                push_str(&mut s, "illegal configuration line '");
                push_str(&mut s, l.as_str());
                push_str(&mut s, "' in '");
                push_origin(&mut s, o);
                push_str(&mut s, "'");
            },
            ParseError::FailedToReadFile(p, c) => {
                push_str(&mut s, "failed to read contents of '");
                push_str(&mut s, p.as_str());
                push_str(&mut s, "': ");
                push_str(&mut s, c.as_str());
            },
        }
        s
    }
}

/// A copy of an optional string.
pub fn clone_opt(o: &Option<String>) -> (r: Option<String>)
    ensures
        opt_view(r) == opt_view(*o),
{
    match o {
        Some(s) => Some(s.clone()),
        None => None,
    }
}

} // verus!
