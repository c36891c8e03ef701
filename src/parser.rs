use crate::error::{clone_opt, opt_view, ParseError, ParseErrorModel};
use crate::line::{classify, classify_range, Line, LineModel};
use crate::settings::{insert_all, lemma_insert_all_concat, Entries, NixConfig};
use crate::text::{chars_of, find_from, find_in, lemma_find_from_bounds};
use vstd::prelude::*;

verus! {

/// Searching a suffix finds the same position, counted from the suffix start.
pub proof fn lemma_find_from_suffix(s: Seq<char>, c: char, lo: int, k: int)
    requires
        0 <= lo <= k <= s.len(),
    ensures
        find_from(s.subrange(lo, s.len() as int), c, k - lo) + lo == find_from(s, c, k),
    decreases s.len() - k,
{
    if k < s.len() && s[k] != c {
        lemma_find_from_suffix(s, c, lo, k + 1);
    }
}

/// Where the line that starts at `i` ends.
pub open spec fn line_end(s: Seq<char>, i: int) -> int {
    find_from(s, '\n', i)
}

/// Where the line after the one that starts at `i` starts: past the newline,
/// or the end of the text.
pub open spec fn next_line(s: Seq<char>, i: int) -> int {
    if line_end(s, i) < s.len() {
        line_end(s, i) + 1
    } else {
        s.len() as int
    }
}

/// How reading a text from one position on ends.
pub enum ScanModel {
    /// The text is done: the pairs assigned, in order.
    Done(Entries),
    /// A line is malformed.
    Failed(ParseErrorModel),
    /// A directive asks for another file: where the reading resumes, the
    /// pairs assigned so far, the path, and whether a missing file is
    /// tolerated.
    Waiting(int, Entries, Seq<char>, bool),
}

/// Reads the lines of `s` from position `i`, appending the pair of each
/// assignment to `acc`, until the text ends, a line is malformed, or a directive asks for another
/// file.
pub open spec fn scan(s: Seq<char>, i: int, acc: Entries, origin: Option<Seq<char>>) -> ScanModel
    decreases s.len() - i,
    via scan_decreases
{
    if i < 0 || i >= s.len() {
        ScanModel::Done(acc)
    } else {
        let next = next_line(s, i);
        match classify(s.subrange(i, line_end(s, i))) {
            LineModel::Blank => scan(s, next, acc, origin),
            LineModel::Setting(k, v) => scan(s, next, acc.push((k, v)), origin),
            LineModel::Directive(p, optional) => ScanModel::Waiting(next, acc, p, optional),
            LineModel::Illegal(t) => ScanModel::Failed(
                ParseErrorModel::IllegalConfiguration(t, origin),
            ),
        }
    }
}

#[via_fn]
proof fn scan_decreases(s: Seq<char>, i: int, acc: Entries, origin: Option<Seq<char>>) {
    if 0 <= i < s.len() {
        lemma_find_from_bounds(s, '\n', i);
    }
}

/// Reads one configuration text. The caller drives it: each call of
/// [`ConfigParser::next_directive`] reads on until the text ends, a line is
/// malformed, or a directive names another file; the caller then reads that
/// file and hands the outcome to [`ConfigParser::resolve`].
pub struct ConfigParser {
    text: Vec<char>,
    pos: usize,
    config: NixConfig,
    origin: Option<String>,
    pending: Option<(String, bool)>,
    assigned: Ghost<Entries>,
}

impl ConfigParser {
    /// The text being read.
    pub closed spec fn text(&self) -> Seq<char> {
        self.text@
    }

    /// Where the reading resumes.
    pub closed spec fn pos(&self) -> int {
        self.pos as int
    }

    /// The settings so far.
    pub closed spec fn entries(&self) -> Entries {
        self.config.entries()
    }

    /// The pairs assigned so far, in the order met: those of the lines read,
    /// and in the place of each directive the settings of its file.
    pub closed spec fn assigned(&self) -> Entries {
        self.assigned@
    }

    /// The file that holds the text, where known.
    pub closed spec fn origin(&self) -> Option<Seq<char>> {
        opt_view(self.origin)
    }

    /// The directive that waits for its file: the path, and whether a missing
    /// file is tolerated.
    pub closed spec fn pending(&self) -> Option<(Seq<char>, bool)> {
        match self.pending {
            Some((p, optional)) => Some((p@, optional)),
            None => None,
        }
    }

    /// The position lies within the text, the keys are pairwise different, and
    /// the settings are the assigned pairs inserted in turn.
    pub closed spec fn wf(&self) -> bool {
        &&& self.pos <= self.text@.len()
        &&& self.config.wf()
        &&& self.config.entries() == insert_all(Seq::empty(), self.assigned@)
    }

    /// The settings are the assigned pairs, inserted in turn.
    pub proof fn lemma_entries_assigned(&self)
        requires
            self.wf(),
        ensures
            self.entries() == insert_all(Seq::empty(), self.assigned()),
    {
    }

    /// A parser at the start of `contents`, with no settings yet.
    pub fn new(contents: &str, origin: Option<String>) -> (r: Self)
        ensures
            r.wf(),
            r.text() == contents@,
            r.pos() == 0,
            r.entries() == Seq::<(Seq<char>, Seq<char>)>::empty(),
            r.assigned() == Seq::<(Seq<char>, Seq<char>)>::empty(),
            r.origin() == opt_view(origin),
            r.pending() is None,
    {
        ConfigParser {
            text: chars_of(contents),
            pos: 0,
            config: NixConfig::new(),
            origin,
            pending: None,
            assigned: Ghost(Seq::empty()),
        }
    }

    /// Reads on until the text ends (`Ok(None)`), a line is malformed (the
    /// error), or a directive names another file (`Ok(Some(path))`, after which
    /// [`ConfigParser::resolve`] must be called).
    pub fn next_directive(&mut self) -> (r: Result<Option<String>, ParseError>)
        requires
            old(self).wf(),
            old(self).pending() is None,
        ensures
            final(self).wf(),
            final(self).text() == old(self).text(),
            final(self).origin() == old(self).origin(),
            match scan(old(self).text(), old(self).pos(), old(self).assigned(), old(self).origin()) {
                ScanModel::Done(acc) => {
                    &&& r matches Ok(None)
                    &&& final(self).assigned() == acc
                    &&& final(self).entries() == insert_all(Seq::empty(), acc)
                    &&& final(self).pos() == old(self).text().len()
                    &&& final(self).pending() is None
                },
                ScanModel::Failed(e) => r matches Err(err) && err@ == e,
                ScanModel::Waiting(next, acc, p, optional) => {
                    &&& r matches Ok(Some(path)) && path@ == p
                    &&& final(self).assigned() == acc
                    &&& final(self).entries() == insert_all(Seq::empty(), acc)
                    &&& final(self).pos() == next
                    &&& final(self).pending() == Some((p, optional))
                },
            },
    {
        let ghost s = self.text@;
        let ghost origin = opt_view(self.origin);
        let ghost goal = scan(s, self.pos as int, self.assigned@, origin);
        let n = self.text.len();
        while self.pos < n
            invariant
                n == self.text@.len(),
                s == self.text@,
                s == old(self).text@,
                origin == opt_view(old(self).origin),
                origin == opt_view(self.origin),
                self.pos <= n,
                self.config.wf(),
                self.config.entries() == insert_all(Seq::empty(), self.assigned@),
                self.pending is None,
                goal == scan(s, self.pos as int, self.assigned@, origin),
                goal == scan(
                    old(self).text@,
                    old(self).pos as int,
                    old(self).assigned@,
                    opt_view(old(self).origin),
                ),
            decreases n - self.pos,
        {
            let lo = self.pos;
            let end = lo + find_in(&self.text, '\n', lo, n);
            proof {
                lemma_find_from_suffix(s, '\n', lo as int, lo as int);
                lemma_find_from_bounds(s, '\n', lo as int);
            }
            let next = if end < n { end + 1 } else { n };
            match classify_range(&self.text, lo, end) {
                Line::Blank => {
                    self.pos = next;
                },
                Line::Setting(k, v) => {
                    let ghost pair = (k@, v@);
                    let ghost before = self.assigned@;
                    self.config.insert_setting(k, v);
                    self.assigned = Ghost(before.push(pair));
                    assert(self.assigned@.drop_last() == before);
                    self.pos = next;
                },
                Line::Directive(p, optional) => {
                    self.pos = next;
                    self.pending = Some((p.clone(), optional));
                    return Ok(Some(p));
                },
                Line::Illegal(t) => {
                    return Err(ParseError::IllegalConfiguration(t, clone_opt(&self.origin)));
                },
            }
        }
        Ok(None)
    }

    /// Takes the outcome of reading the file that the waiting directive names:
    /// its settings, or `None` where it could not be read. The settings are
    /// assigned in their order. A file that could not be read is passed over
    /// where the directive tolerates it, and is an error otherwise.
    pub fn resolve(&mut self, child: Option<NixConfig>) -> (r: Result<(), ParseError>)
        requires
            old(self).wf(),
            old(self).pending() is Some,
        ensures
            final(self).wf(),
            final(self).text() == old(self).text(),
            final(self).pos() == old(self).pos(),
            final(self).origin() == old(self).origin(),
            final(self).pending() is None,
            match child {
                Some(c) => {
                    &&& r is Ok
                    &&& final(self).entries() == insert_all(old(self).entries(), c.entries())
                    &&& final(self).assigned() == old(self).assigned() + c.entries()
                },
                None => if old(self).pending().unwrap().1 {
                    &&& r is Ok
                    &&& final(self).entries() == old(self).entries()
                    &&& final(self).assigned() == old(self).assigned()
                } else {
                    r matches Err(e) && e@ == ParseErrorModel::IncludedFileNotFound(
                        old(self).pending().unwrap().0,
                        old(self).origin(),
                    )
                },
            },
    {
        let pending = self.pending.take();
        let (path, optional) = match pending {
            Some(p) => p,
            None => {
                return Ok(());
            },
        };
        match child {
            Some(c) => {
                let ghost add = c.entries();
                self.config.merge(c);
                proof {
                    lemma_insert_all_concat(Seq::empty(), self.assigned@, add);
                }
                self.assigned = Ghost(self.assigned@ + add);
                Ok(())
            },
            None => {
                if optional {
                    Ok(())
                } else {
                    Err(ParseError::IncludedFileNotFound(path, clone_opt(&self.origin)))
                }
            },
        }
    }

    /// The settings read, once the text is done.
    pub fn into_config(self) -> (r: NixConfig)
        requires
            self.wf(),
        ensures
            r.entries() == self.entries(),
            r.entries() == insert_all(Seq::empty(), self.assigned()),
            r.wf(),
    {
        self.config
    }
}

} // verus!
