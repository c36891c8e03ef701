use crate::line::{classify, LineModel};
use crate::text::{
    clean_token, is_space, join_space, lemma_join_clean, lemma_tokens_clean, find_from, lemma_find_concat, lemma_find_from_bounds, lemma_scan_from_concat,
    lemma_scan_run, scan_tokens, strip_comment, tokens,
};
use crate::parser::{line_end, next_line, scan, ConfigParser, ScanModel};
use crate::settings::{
    first_pos, has_key, insert_all, insert_entry, key_index, keys_unique, last_value, lemma_first_pos_bounds,
    lemma_has_key_last, lemma_insert_keeps_unique, Entries,
};
use crate::text::lemma_scan_blank;
use vstd::prelude::*;

verus! {

/// A run of spaces and tabs within a line acts as a single space: the line
/// has the same tokens, so it is malformed exactly when the other is, and
/// otherwise means the same.
pub proof fn lemma_separator_runs(a: Seq<char>, r: Seq<char>, b: Seq<char>)
    requires
        r.len() > 0,
        forall|i: int| 0 <= i < r.len() ==> #[trigger] r[i] == ' ' || r[i] == '\t',
    ensures
        tokens(strip_comment(a + r + b)) == tokens(strip_comment(a + seq![' '] + b)),
        classify(a + r + b) is Illegal <==> classify(a + seq![' '] + b) is Illegal,
        !(classify(a + r + b) is Illegal) ==> classify(a + r + b) == classify(
            a + seq![' '] + b,
        ),
{
    let sp = seq![' '];
    let x = a + r + b;
    let y = a + sp + b;
    assert(x =~= a + (r + b));
    assert(y =~= a + (sp + b));
    lemma_find_concat(a, r + b, '#', 0);
    lemma_find_concat(a, sp + b, '#', 0);
    let f = find_from(a, '#', 0);
    lemma_find_from_bounds(a, '#', 0);
    if f < a.len() {
        assert(strip_comment(x) == strip_comment(y));
    } else {
        lemma_find_concat(r, b, '#', 0);
        lemma_find_concat(sp, b, '#', 0);
        lemma_find_from_bounds(r, '#', 0);
        lemma_find_from_bounds(sp, '#', 0);
        let fr = find_from(r, '#', 0);
        if fr < r.len() {
            assert(r[fr] == '#');
        }
        let sb = strip_comment(b);
        lemma_find_from_bounds(b, '#', 0);
        assert(find_from(x, '#', 0) == a.len() + r.len() + find_from(b, '#', 0));
        assert(find_from(y, '#', 0) == a.len() + 1 + find_from(b, '#', 0));
        assert(strip_comment(x) =~= a + r + sb);
        assert(strip_comment(y) =~= a + sp + sb);
        let init = (Seq::<Seq<char>>::empty(), Seq::<char>::empty());
        lemma_scan_from_concat(init, a + r, sb);
        lemma_scan_from_concat(init, a + sp, sb);
        lemma_scan_from_concat(init, a, r);
        lemma_scan_from_concat(init, a, sp);
        lemma_scan_run(scan_tokens(a), r);
        lemma_scan_run(scan_tokens(a), sp);
    }
}

/// Assigning the pairs of `add` in turn to an empty map gives each key the
/// value of its last pair, and orders the keys by their first pair.
pub proof fn lemma_first_insertion_order(add: Entries)
    ensures
        keys_unique(insert_all(Seq::empty(), add)),
        forall|k: Seq<char>| has_key(insert_all(Seq::empty(), add), k) <==> has_key(add, k),
        forall|i: int|
            0 <= i < insert_all(Seq::empty(), add).len() ==> (#[trigger] insert_all(
                Seq::empty(),
                add,
            )[i]).1 == last_value(add, insert_all(Seq::empty(), add)[i].0),
        forall|i: int, j: int|
            0 <= i < j < insert_all(Seq::empty(), add).len() ==> first_pos(
                add,
                (#[trigger] insert_all(Seq::empty(), add)[i]).0,
            ) < first_pos(add, (#[trigger] insert_all(Seq::empty(), add)[j]).0),
    decreases add.len(),
{
    let r = insert_all(Seq::empty(), add);
    if add.len() == 0 {
        assert forall|k: Seq<char>| !has_key(add, k) && !has_key(r, k) by {}
    } else {
        let a = add.drop_last();
        let k = add.last().0;
        let v = add.last().1;
        let p = insert_all(Seq::empty(), a);
        lemma_first_insertion_order(a);
        assert(r == insert_entry(p, k, v));
        lemma_insert_keeps_unique(p, k, v);
        assert forall|x: Seq<char>| has_key(r, x) <==> has_key(add, x) by {
            lemma_has_key_last(add, x);
            if has_key(p, k) {
                let idx = key_index(p, k);
                if has_key(r, x) {
                    let i = choose|i: int| 0 <= i < r.len() && #[trigger] r[i].0 == x;
                    if i != idx {
                        assert(p[i].0 == x);
                    }
                }
                if has_key(p, x) {
                    let i = choose|i: int| 0 <= i < p.len() && #[trigger] p[i].0 == x;
                    if i != idx {
                        assert(r[i].0 == x);
                    } else {
                        assert(r[idx].0 == k);
                    }
                }
                if x == k {
                    assert(r[idx].0 == k);
                }
            } else {
                if has_key(r, x) {
                    let i = choose|i: int| 0 <= i < r.len() && #[trigger] r[i].0 == x;
                    if i < p.len() {
                        assert(p[i].0 == x);
                    }
                }
                if has_key(p, x) {
                    let i = choose|i: int| 0 <= i < p.len() && #[trigger] p[i].0 == x;
                    assert(r[i].0 == x);
                }
                if x == k {
                    assert(r[p.len() as int].0 == k);
                }
            }
        }
        assert forall|x: Seq<char>| has_key(a, x) implies first_pos(add, x) == first_pos(a, x)
            && 0 <= first_pos(a, x) < a.len() by {
            lemma_first_pos_bounds(a, x);
        }
        if has_key(p, k) {
            let idx = key_index(p, k);
            assert forall|i: int| 0 <= i < r.len() implies (#[trigger] r[i]).1 == last_value(
                add,
                r[i].0,
            ) by {
                if i != idx {
                    assert(p[i].0 != k);
                }
            }
            assert forall|i: int, j: int| 0 <= i < j < r.len() implies first_pos(
                add,
                (#[trigger] r[i]).0,
            ) < first_pos(add, (#[trigger] r[j]).0) by {
                assert(r[i].0 == p[i].0);
                assert(r[j].0 == p[j].0);
                assert(has_key(a, p[i].0) && has_key(a, p[j].0)) by {
                    assert(has_key(p, p[i].0));
                    assert(has_key(p, p[j].0));
                }
                assert(first_pos(a, p[i].0) < first_pos(a, p[j].0)) by {
                    assert(0 <= i < j < p.len());
                }
            }
        } else {
            assert(!has_key(a, k));
            assert forall|i: int| 0 <= i < r.len() implies (#[trigger] r[i]).1 == last_value(
                add,
                r[i].0,
            ) by {
                if i < p.len() {
                    assert(r[i] == p[i]);
                    assert(p[i].0 != k) by {
                        assert(has_key(p, p[i].0));
                    }
                }
            }
            assert forall|i: int, j: int| 0 <= i < j < r.len() implies first_pos(
                add,
                (#[trigger] r[i]).0,
            ) < first_pos(add, (#[trigger] r[j]).0) by {
                assert(r[i] == p[i]);
                assert(has_key(a, p[i].0)) by {
                    assert(has_key(p, p[i].0));
                }
                if j < p.len() {
                    assert(r[j] == p[j]);
                    assert(has_key(a, p[j].0)) by {
                        assert(has_key(p, p[j].0));
                    }
                } else {
                    assert(r[j].0 == k);
                    assert(first_pos(add, k) == a.len());
                }
            }
        }
    }
}

/// True when the line of `s` that starts at `i` holds nothing but separators
/// before its comment.
pub open spec fn blank_line(s: Seq<char>, i: int) -> bool {
    let body = strip_comment(s.subrange(i, line_end(s, i)));
    forall|j: int| 0 <= j < body.len() ==> is_space(#[trigger] body[j])
}

/// True when every line of `s` is empty, blank or a comment.
pub open spec fn blank_text(s: Seq<char>) -> bool {
    forall|i: int|
        0 <= i < s.len() && (i == 0 || s[i - 1] == '\n') ==> #[trigger] blank_line(s, i)
}

/// A text of blank lines and comments alone gives no settings.
pub proof fn lemma_blank_text(s: Seq<char>, origin: Option<Seq<char>>)
    requires
        blank_text(s),
    ensures
        scan(s, 0, Seq::empty(), origin) == ScanModel::Done(Seq::empty()),
{
    lemma_blank_from(s, 0, Seq::empty(), origin);
}

proof fn lemma_blank_from(s: Seq<char>, i: int, acc: Entries, origin: Option<Seq<char>>)
    requires
        blank_text(s),
        0 <= i <= s.len(),
        i == 0 || i == s.len() || s[i - 1] == '\n',
    ensures
        scan(s, i, acc, origin) == ScanModel::Done(acc),
    decreases s.len() - i,
{
    if i < s.len() {
        assert(blank_line(s, i));
        lemma_find_from_bounds(s, '\n', i);
        let body = strip_comment(s.subrange(i, line_end(s, i)));
        lemma_scan_blank(body);
        let next = next_line(s, i);
        lemma_blank_from(s, next, acc, origin);
    }
}

/// Reading is a function of the text, the starting point, the settings so
/// far and the origin: the same inputs give the same outcome.
pub proof fn lemma_scan_deterministic(
    s1: Seq<char>,
    s2: Seq<char>,
    i: int,
    acc: Entries,
    origin: Option<Seq<char>>,
)
    requires
        s1 == s2,
    ensures
        scan(s1, i, acc, origin) == scan(s2, i, acc, origin),
{
}

/// At every point of a parse the settings are ordered by the first
/// assignment of each key, the files of directives read in place, and each key
/// holds the value of its last assignment.
pub proof fn lemma_parse_order(p: &ConfigParser)
    requires
        p.wf(),
    ensures
        p.entries() == insert_all(Seq::empty(), p.assigned()),
        keys_unique(p.entries()),
        forall|k: Seq<char>| has_key(p.entries(), k) <==> has_key(p.assigned(), k),
        forall|i: int|
            0 <= i < p.entries().len() ==> (#[trigger] p.entries()[i]).1 == last_value(
                p.assigned(),
                p.entries()[i].0,
            ),
        forall|i: int, j: int|
            0 <= i < j < p.entries().len() ==> first_pos(
                p.assigned(),
                (#[trigger] p.entries()[i]).0,
            ) < first_pos(p.assigned(), (#[trigger] p.entries()[j]).0),
{
    p.lemma_entries_assigned();
    lemma_first_insertion_order(p.assigned());
}

/// The text before the first `#` of a line holds no `#`.
pub proof fn lemma_strip_comment_clean(line: Seq<char>)
    ensures
        forall|i: int| 0 <= i < strip_comment(line).len() ==> #[trigger] strip_comment(line)[i] != '#',
{
    lemma_find_from_bounds(line, '#', 0);
}

/// An assigned value is the value's tokens with exactly one space between
/// neighbours; each token is non-empty and holds no separator, so the value
/// neither starts nor ends with whitespace.
pub proof fn lemma_value_shape(line: Seq<char>)
    ensures
        classify(line) matches LineModel::Setting(k, v) ==> {
            let t = tokens(strip_comment(line));
            let ts = t.subrange(2, t.len() as int);
            &&& v == join_space(ts)
            &&& forall|i: int| 0 <= i < ts.len() ==> clean_token(#[trigger] ts[i], '#')
            &&& v.len() > 0 ==> !is_space(v[0]) && !is_space(v.last())
        },
{
    lemma_strip_comment_clean(line);
    let t = tokens(strip_comment(line));
    lemma_tokens_clean(strip_comment(line), '#');
    if t.len() >= 2 {
        let ts = t.subrange(2, t.len() as int);
        assert forall|i: int| 0 <= i < ts.len() implies clean_token(#[trigger] ts[i], '#') by {
            assert(ts[i] == t[i + 2]);
        }
        lemma_join_clean(ts, '#');
    }
}

/// Text after a `#` never reaches a key, a value or a path: none of them
/// holds a `#`.
pub proof fn lemma_comments_dropped(line: Seq<char>)
    ensures
        classify(line) matches LineModel::Setting(k, v) ==> {
            &&& forall|i: int| 0 <= i < k.len() ==> #[trigger] k[i] != '#'
            &&& forall|i: int| 0 <= i < v.len() ==> #[trigger] v[i] != '#'
        },
        classify(line) matches LineModel::Directive(p, _) ==> forall|i: int|
            0 <= i < p.len() ==> #[trigger] p[i] != '#',
{
    lemma_value_shape(line);
    lemma_strip_comment_clean(line);
    lemma_tokens_clean(strip_comment(line), '#');
    let t = tokens(strip_comment(line));
    if t.len() >= 2 {
        assert(clean_token(t[0], '#'));
        assert(clean_token(t[1], '#'));
        let ts = t.subrange(2, t.len() as int);
        assert forall|i: int| 0 <= i < ts.len() implies clean_token(#[trigger] ts[i], '#') by {
            assert(ts[i] == t[i + 2]);
        }
        lemma_join_clean(ts, '#');
    }
}

} // verus!
