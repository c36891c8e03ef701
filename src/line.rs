use crate::text::{
    chars_of, find_in, join_space, push_char, string_of, strip_comment, tokenize,
    tokens, trim, trim_range,
};
use vstd::prelude::*;

verus! {

/// What one line of a configuration means.
pub enum LineModel {
    /// Nothing: the line is empty, blank or a comment.
    Blank,
    /// An assignment of a value to a key.
    Setting(Seq<char>, Seq<char>),
    /// A directive to read another file: its path, and whether a missing file
    /// is tolerated.
    Directive(Seq<char>, bool),
    /// A malformed line, as it reads without its comment and outer separators.
    Illegal(Seq<char>),
}

/// The directive word for a file that must be read.
pub open spec fn required_word() -> Seq<char> {
    seq!['i', 'n', 'c', 'l', 'u', 'd', 'e']
}

/// The directive word for a file that is read where it can be.
pub open spec fn optional_word() -> Seq<char> {
    seq!['!', 'i', 'n', 'c', 'l', 'u', 'd', 'e']
}

/// The meaning of a line.
pub open spec fn classify(line: Seq<char>) -> LineModel {
    let body = strip_comment(line);
    let t = tokens(body);
    if t.len() == 0 {
        LineModel::Blank
    } else if t.len() == 1 {
        LineModel::Illegal(trim(body))
    } else if t[0] == required_word() || t[0] == optional_word() {
        if t.len() == 2 {
            LineModel::Directive(t[1], t[0] == optional_word())
        } else {
            LineModel::Illegal(trim(body))
        }
    } else if t[1] != seq!['='] {
        LineModel::Illegal(trim(body))
    } else {
        LineModel::Setting(t[0], join_space(t.subrange(2, t.len() as int)))
    }
}

/// One line of a configuration, classified.
#[derive(PartialEq, Eq, Debug)]
pub enum Line {
    Blank,
    Setting(String, String),
    Directive(String, bool),
    Illegal(String),
}

impl View for Line {
    type V = LineModel;

    open spec fn view(&self) -> LineModel {
        match self {
            Line::Blank => LineModel::Blank,
            Line::Setting(k, v) => LineModel::Setting(k@, v@),
            Line::Directive(p, optional) => LineModel::Directive(p@, *optional),
            Line::Illegal(text) => LineModel::Illegal(text@),
        }
    }
}

/// Whether `a` and `b` hold the same characters.
fn same_chars(a: &Vec<char>, b: &Vec<char>) -> (r: bool)
    ensures
        r == (a@ == b@),
{
    if a.len() != b.len() {
        return false;
    }
    let mut i: usize = 0;
    while i < a.len()
        invariant
            a.len() == b.len(),
            i <= a.len(),
            forall|j: int| 0 <= j < i ==> a@[j] == b@[j],
        decreases a.len() - i,
    {
        if a[i] != b[i] {
            return false;
        }
        i = i + 1;
    }
    assert(a@ =~= b@);
    true
}

/// The tokens `t[from..]` with one space between neighbours.
fn join_from(t: &Vec<Vec<char>>, from: usize) -> (r: String)
    requires
        from <= t.len(),
    ensures
        r@ == join_space(t.deep_view().subrange(from as int, t.len() as int)),
{
    let ghost dv = t.deep_view();
    let mut s = String::new();
    let mut i: usize = from;
    while i < t.len()
        invariant
            from <= i <= t.len(),
            dv == t.deep_view(),
            s@ == join_space(dv.subrange(from as int, i as int)),
        decreases t.len() - i,
    {
        let ghost before = s@;
        let tok = &t[i];
        assert(dv[i as int] =~= tok@);
        if i > from {
            push_char(&mut s, ' ');
        }
        let mut j: usize = 0;
        while j < tok.len()
            invariant
                j <= tok.len(),
                i > from ==> s@ == before.push(' ') + tok@.take(j as int),
                i == from ==> s@ == before + tok@.take(j as int),
            decreases tok.len() - j,
        {
            push_char(&mut s, tok[j]);
            assert(tok@.take(j + 1) == tok@.take(j as int).push(tok@[j as int]));
            j = j + 1;
        }
        assert(tok@.take(tok.len() as int) == tok@);
        assert(dv.subrange(from as int, i + 1).drop_last() == dv.subrange(from as int, i as int));
        i = i + 1;
    }
    s
}

/// The meaning of the line `cs[lo..hi]`.
pub fn classify_range(cs: &Vec<char>, lo: usize, hi: usize) -> (r: Line)
    requires
        lo <= hi <= cs.len(),
    ensures
        r@ == classify(cs@.subrange(lo as int, hi as int)),
{
    let ghost line = cs@.subrange(lo as int, hi as int);
    let end = lo + find_in(cs, '#', lo, hi);
    assert(cs@.subrange(lo as int, end as int) == strip_comment(line));
    let t = tokenize(cs, lo, end);
    let ghost tv = t.deep_view();
    if t.len() == 0 {
        return Line::Blank;
    }
    if t.len() == 1 {
        let (b, e) = trim_range(cs, lo, end);
        return Line::Illegal(string_of(cs, b, e));
    }
    assert(tv[0] =~= t[0]@);
    assert(tv[1] =~= t[1]@);
    let required: Vec<char> = vec!['i', 'n', 'c', 'l', 'u', 'd', 'e'];
    let optional: Vec<char> = vec!['!', 'i', 'n', 'c', 'l', 'u', 'd', 'e'];
    assert(required@ == required_word());
    assert(optional@ == optional_word());
    let is_optional = same_chars(&t[0], &optional);
    if is_optional || same_chars(&t[0], &required) {
        if t.len() == 2 {
            assert(t[1]@.subrange(0, t[1]@.len() as int) == t[1]@);
            return Line::Directive(string_of(&t[1], 0, t[1].len()), is_optional);
        }
        let (b, e) = trim_range(cs, lo, end);
        return Line::Illegal(string_of(cs, b, e));
    }
    let equals: Vec<char> = vec!['='];
    assert(equals@ == seq!['=']);
    if !same_chars(&t[1], &equals) {
        let (b, e) = trim_range(cs, lo, end);
        return Line::Illegal(string_of(cs, b, e));
    }
    assert(t[0]@.subrange(0, t[0]@.len() as int) == t[0]@);
    let key = string_of(&t[0], 0, t[0].len());
    let value = join_from(&t, 2);
    Line::Setting(key, value)
}

/// The meaning of one line of a configuration.
pub fn interpret_line(line: &str) -> (r: Line)
    ensures
        r@ == classify(line@),
{
    let cs = chars_of(line);
    assert(cs@.subrange(0, cs@.len() as int) == cs@);
    classify_range(&cs, 0, cs.len())
}

} // verus!
