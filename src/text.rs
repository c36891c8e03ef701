use vstd::prelude::*;

verus! {

/// The characters that separate tokens.
pub open spec fn is_space(c: char) -> bool {
    c == ' ' || c == '\t' || c == '\r' || c == '\n'
}

/// The first position at or after `i` that holds `c`, or the length of `s`
/// where there is none.
pub open spec fn find_from(s: Seq<char>, c: char, i: int) -> int
    decreases s.len() - i,
{
    if i >= s.len() {
        s.len() as int
    } else if s[i] == c {
        i
    } else {
        find_from(s, c, i + 1)
    }
}

/// The part of a line before its first `#`.
pub open spec fn strip_comment(s: Seq<char>) -> Seq<char> {
    s.take(find_from(s, '#', 0))
}

/// `s` without its trailing separators.
pub open spec fn trim_end(s: Seq<char>) -> Seq<char>
    decreases s.len(),
{
    if s.len() > 0 && is_space(s.last()) {
        trim_end(s.drop_last())
    } else {
        s
    }
}

/// `s` without its leading separators.
pub open spec fn trim_start(s: Seq<char>) -> Seq<char>
    decreases s.len(),
{
    if s.len() > 0 && is_space(s[0]) {
        trim_start(s.drop_first())
    } else {
        s
    }
}

/// `s` without its leading and trailing separators.
pub open spec fn trim(s: Seq<char>) -> Seq<char> {
    trim_start(trim_end(s))
}

/// A token scan: the tokens completed so far, and the token in progress.
pub type TokenScan = (Seq<Seq<char>>, Seq<char>);

/// The scan `st` after one more character `c`.
pub open spec fn scan_step(st: TokenScan, c: char) -> TokenScan {
    let (done, cur) = st;
    if !is_space(c) {
        (done, cur.push(c))
    } else if cur.len() > 0 {
        (done.push(cur), Seq::empty())
    } else {
        (done, cur)
    }
}

/// The scan `st` after the characters of `s`, left to right.
pub open spec fn scan_from(st: TokenScan, s: Seq<char>) -> TokenScan
    decreases s.len(),
{
    if s.len() == 0 {
        st
    } else {
        scan_step(scan_from(st, s.drop_last()), s.last())
    }
}

/// The scan of `s` from its start.
pub open spec fn scan_tokens(s: Seq<char>) -> TokenScan {
    scan_from((Seq::empty(), Seq::empty()), s)
}

/// The maximal runs of non-separator characters of `s`, in order.
pub open spec fn tokens(s: Seq<char>) -> Seq<Seq<char>> {
    let (done, cur) = scan_tokens(s);
    if cur.len() > 0 {
        done.push(cur)
    } else {
        done
    }
}

/// The tokens of `t` with one space between neighbours.
pub open spec fn join_space(t: Seq<Seq<char>>) -> Seq<char>
    decreases t.len(),
{
    if t.len() == 0 {
        Seq::empty()
    } else if t.len() == 1 {
        t[0]
    } else {
        join_space(t.drop_last()).push(' ') + t.last()
    }
}

/// `find_from` stays between its start and the end, and stops on `c`.
pub proof fn lemma_find_from_bounds(s: Seq<char>, c: char, i: int)
    requires
        0 <= i,
    ensures
        i <= s.len() ==> i <= find_from(s, c, i) <= s.len(),
        find_from(s, c, i) < s.len() ==> s[find_from(s, c, i)] == c,
        forall|j: int| i <= j < find_from(s, c, i) ==> s[j] != c,
    decreases s.len() - i,
{
    if i < s.len() && s[i] != c {
        lemma_find_from_bounds(s, c, i + 1);
    }
}

/// Searching the second part of `a + x` is searching `x`, shifted.
pub proof fn lemma_find_shift(a: Seq<char>, x: Seq<char>, c: char, k: int)
    requires
        0 <= k <= x.len(),
    ensures
        find_from(a + x, c, a.len() + k) == a.len() + find_from(x, c, k),
    decreases x.len() - k,
{
    if k < x.len() {
        assert((a + x)[a.len() + k] == x[k]);
        if x[k] != c {
            lemma_find_shift(a, x, c, k + 1);
        }
    }
}

/// The first `c` of `a + x` is that of `a`, or else that of `x`, shifted.
pub proof fn lemma_find_concat(a: Seq<char>, x: Seq<char>, c: char, i: int)
    requires
        0 <= i <= a.len(),
    ensures
        find_from(a + x, c, i) == if find_from(a, c, i) < a.len() {
            find_from(a, c, i)
        } else {
            a.len() + find_from(x, c, 0)
        },
    decreases a.len() - i,
{
    if i == a.len() {
        lemma_find_shift(a, x, c, 0);
    } else {
        assert((a + x)[i] == a[i]);
        if a[i] != c {
            lemma_find_concat(a, x, c, i + 1);
        }
    }
}

/// A scan over `x + y` is a scan over `x`, continued over `y`.
pub proof fn lemma_scan_from_concat(st: TokenScan, x: Seq<char>, y: Seq<char>)
    ensures
        scan_from(st, x + y) == scan_from(scan_from(st, x), y),
    decreases y.len(),
{
    if y.len() == 0 {
        assert(x + y == x);
    } else {
        assert((x + y).drop_last() == x + y.drop_last());
        assert((x + y).last() == y.last());
        lemma_scan_from_concat(st, x, y.drop_last());
    }
}

/// A run of separators acts on a scan as one space does.
pub proof fn lemma_scan_run(st: TokenScan, r: Seq<char>)
    requires
        r.len() > 0,
        forall|i: int| 0 <= i < r.len() ==> is_space(#[trigger] r[i]),
    ensures
        scan_from(st, r) == scan_step(st, ' '),
    decreases r.len(),
{
    if r.len() > 1 {
        let rest = r.drop_last();
        assert forall|i: int| 0 <= i < rest.len() implies is_space(#[trigger] rest[i]) by {
            assert(rest[i] == r[i]);
        }
        lemma_scan_run(st, rest);
        assert(is_space(r[r.len() - 1]));
        let m = scan_step(st, ' ');
        assert(m.1.len() == 0);
        assert(scan_step(m, r.last()) == m);
    } else {
        assert(r.drop_last().len() == 0);
        assert(is_space(r[0]));
        assert(r.last() == r[0]);
        assert(scan_from(st, r.drop_last()) == st);
    }
}

/// Every completed token and the token in progress are made of characters
/// that are neither separators nor `c0`, and completed tokens are non-empty.
pub open spec fn scan_clean(st: TokenScan, c0: char) -> bool {
    &&& forall|k: int| 0 <= k < st.0.len() ==> clean_token(#[trigger] st.0[k], c0)
    &&& forall|j: int| 0 <= j < st.1.len() ==> !is_space(#[trigger] st.1[j]) && st.1[j] != c0
}

/// `t` is non-empty and holds neither separators nor `c0`.
pub open spec fn clean_token(t: Seq<char>, c0: char) -> bool {
    &&& t.len() > 0
    &&& forall|j: int| 0 <= j < t.len() ==> !is_space(#[trigger] t[j]) && t[j] != c0
}

/// Where `s` does not hold `c0`, its tokens are non-empty and hold neither
/// separators nor `c0`.
pub proof fn lemma_tokens_clean(s: Seq<char>, c0: char)
    requires
        forall|i: int| 0 <= i < s.len() ==> #[trigger] s[i] != c0,
    ensures
        forall|k: int| 0 <= k < tokens(s).len() ==> clean_token(#[trigger] tokens(s)[k], c0),
{
    lemma_scan_clean((Seq::empty(), Seq::empty()), s, c0);
    let st = scan_tokens(s);
    if st.1.len() > 0 {
        assert(clean_token(st.1, c0));
        assert forall|k: int| 0 <= k < tokens(s).len() implies clean_token(
            #[trigger] tokens(s)[k],
            c0,
        ) by {
            if k < st.0.len() {
                assert(tokens(s)[k] == st.0[k]);
            }
        }
    }
}

proof fn lemma_scan_clean(st: TokenScan, s: Seq<char>, c0: char)
    requires
        scan_clean(st, c0),
        forall|i: int| 0 <= i < s.len() ==> #[trigger] s[i] != c0,
    ensures
        scan_clean(scan_from(st, s), c0),
    decreases s.len(),
{
    if s.len() > 0 {
        let rest = s.drop_last();
        assert forall|i: int| 0 <= i < rest.len() implies #[trigger] rest[i] != c0 by {
            assert(rest[i] == s[i]);
        }
        lemma_scan_clean(st, rest, c0);
        let m = scan_from(st, rest);
        let c = s[s.len() - 1];
        let n = scan_step(m, c);
        if !is_space(c) {
            assert forall|j: int| 0 <= j < n.1.len() implies !is_space(#[trigger] n.1[j])
                && n.1[j] != c0 by {
                if j < m.1.len() {
                    assert(n.1[j] == m.1[j]);
                }
            }
        } else if m.1.len() > 0 {
            assert(clean_token(m.1, c0));
            assert forall|k: int| 0 <= k < n.0.len() implies clean_token(#[trigger] n.0[k], c0) by {
                if k < m.0.len() {
                    assert(n.0[k] == m.0[k]);
                }
            }
        }
    }
}

/// Joined clean tokens hold no `c0`, and neither start nor end with a
/// separator.
pub proof fn lemma_join_clean(ts: Seq<Seq<char>>, c0: char)
    requires
        c0 != ' ',
        forall|k: int| 0 <= k < ts.len() ==> clean_token(#[trigger] ts[k], c0),
    ensures
        forall|j: int| 0 <= j < join_space(ts).len() ==> #[trigger] join_space(ts)[j] != c0,
        join_space(ts).len() > 0 ==> !is_space(join_space(ts)[0]) && !is_space(
            join_space(ts).last(),
        ),
        ts.len() > 0 ==> join_space(ts).len() > 0,
    decreases ts.len(),
{
    if ts.len() == 1 {
        assert(clean_token(ts[0], c0));
    } else if ts.len() > 1 {
        let rest = ts.drop_last();
        assert forall|k: int| 0 <= k < rest.len() implies clean_token(#[trigger] rest[k], c0) by {
            assert(rest[k] == ts[k]);
        }
        lemma_join_clean(rest, c0);
        let t = ts.last();
        assert(clean_token(ts[ts.len() - 1], c0));
        let p = join_space(rest).push(' ');
        let v = join_space(ts);
        assert(v == p + t);
        assert forall|j: int| 0 <= j < v.len() implies #[trigger] v[j] != c0 by {
            if j < p.len() {
                assert(v[j] == p[j]);
                if j < join_space(rest).len() {
                    assert(p[j] == join_space(rest)[j]);
                }
            } else {
                assert(v[j] == t[j - p.len()]);
            }
        }
        assert(v[0] == join_space(rest)[0]);
        assert(v.last() == t[t.len() - 1]);
    }
}

/// A text of separators alone has no tokens.
pub proof fn lemma_scan_blank(s: Seq<char>)
    requires
        forall|i: int| 0 <= i < s.len() ==> is_space(#[trigger] s[i]),
    ensures
        scan_tokens(s) == (Seq::<Seq<char>>::empty(), Seq::<char>::empty()),
        tokens(s).len() == 0,
    decreases s.len(),
{
    if s.len() > 0 {
        let rest = s.drop_last();
        assert forall|i: int| 0 <= i < rest.len() implies is_space(#[trigger] rest[i]) by {
            assert(rest[i] == s[i]);
        }
        lemma_scan_blank(rest);
        assert(is_space(s[s.len() - 1]));
    }
}

/// Relies on `String::push`: the character is appended.
#[verifier::external_body]
pub(crate) fn push_char(s: &mut String, c: char)
    ensures
        final(s)@ == old(s)@.push(c),
{
    s.push(c);
}

/// The characters of `s`, in order.
pub fn chars_of(s: &str) -> (r: Vec<char>)
    ensures
        r@ == s@,
{
    let mut v: Vec<char> = Vec::new();
    for c in it: s.chars()
        invariant
            v@ == it.seq().take(it.index() as int),
    {
        v.push(c);
    }
    proof {
        broadcast use vstd::string::axiom_spec_iter;
    }
    v
}

/// A string of the characters `cs[lo..hi]`.
pub fn string_of(cs: &Vec<char>, lo: usize, hi: usize) -> (r: String)
    requires
        lo <= hi <= cs.len(),
    ensures
        r@ == cs@.subrange(lo as int, hi as int),
{
    let mut s = String::new();
    let mut i: usize = lo;
    while i < hi
        invariant
            lo <= i <= hi <= cs.len(),
            s@ == cs@.subrange(lo as int, i as int),
        decreases hi - i,
    {
        push_char(&mut s, cs[i]);
        assert(cs@.subrange(lo as int, i + 1) == cs@.subrange(lo as int, i as int).push(cs@[i as int]));
        i = i + 1;
    }
    s
}

/// The position of the first `c` in `cs[lo..hi]`, counted from `lo`, or
/// `hi - lo` where there is none.
pub fn find_in(cs: &Vec<char>, c: char, lo: usize, hi: usize) -> (r: usize)
    requires
        lo <= hi <= cs.len(),
    ensures
        r == find_from(cs@.subrange(lo as int, hi as int), c, 0),
        r <= hi - lo,
{
    let ghost s = cs@.subrange(lo as int, hi as int);
    let mut k: usize = 0;
    while k < hi - lo && cs[lo + k] != c
        invariant
            lo <= hi <= cs.len(),
            k <= hi - lo,
            s == cs@.subrange(lo as int, hi as int),
            find_from(s, c, 0) == find_from(s, c, k as int),
        decreases hi - lo - k,
    {
        assert(s[k as int] == cs@[lo + k]);
        k = k + 1;
    }
    k
}

/// The bounds of `trim(cs[lo..hi])` within `cs`.
pub fn trim_range(cs: &Vec<char>, lo: usize, hi: usize) -> (r: (usize, usize))
    requires
        lo <= hi <= cs.len(),
    ensures
        lo <= r.0 <= r.1 <= hi,
        cs@.subrange(r.0 as int, r.1 as int) == trim(cs@.subrange(lo as int, hi as int)),
{
    let mut e: usize = hi;
    while e > lo && space(cs[e - 1])
        invariant
            lo <= e <= hi <= cs.len(),
            trim_end(cs@.subrange(lo as int, hi as int)) == trim_end(cs@.subrange(lo as int, e as int)),
        decreases e,
    {
        assert(cs@.subrange(lo as int, e as int).drop_last() == cs@.subrange(lo as int, e - 1));
        e = e - 1;
    }
    let mut b: usize = lo;
    while b < e && space(cs[b])
        invariant
            lo <= b <= e <= hi <= cs.len(),
            trim(cs@.subrange(lo as int, hi as int)) == trim_start(cs@.subrange(b as int, e as int)),
        decreases e - b,
    {
        assert(cs@.subrange(b as int, e as int).drop_first() == cs@.subrange(b + 1, e as int));
        b = b + 1;
    }
    (b, e)
}

/// The tokens of `cs[lo..hi]`.
pub fn tokenize(cs: &Vec<char>, lo: usize, hi: usize) -> (r: Vec<Vec<char>>)
    requires
        lo <= hi <= cs.len(),
    ensures
        r.deep_view() == tokens(cs@.subrange(lo as int, hi as int)),
{
    let mut done: Vec<Vec<char>> = Vec::new();
    let mut cur: Vec<char> = Vec::new();
    let mut i: usize = lo;
    while i < hi
        invariant
            lo <= i <= hi <= cs.len(),
            (done.deep_view(), cur@) == scan_tokens(cs@.subrange(lo as int, i as int)),
        decreases hi - i,
    {
        let c = cs[i];
        assert(cs@.subrange(lo as int, i + 1).drop_last() == cs@.subrange(lo as int, i as int));
        if !space(c) {
            cur.push(c);
        } else if cur.len() > 0 {
            let ghost before = done.deep_view();
            let ghost t = cur@;
            assert(cur.deep_view() =~= t);
            done.push(cur);
            cur = Vec::new();
            assert(done.deep_view() =~= before.push(t));
        }
        i = i + 1;
    }
    if cur.len() > 0 {
        let ghost before = done.deep_view();
        let ghost t = cur@;
        assert(cur.deep_view() =~= t);
        done.push(cur);
        assert(done.deep_view() =~= before.push(t));
    }
    done
}

/// Whether `c` separates tokens.
pub fn space(c: char) -> (r: bool)
    ensures
        r == is_space(c),
{
    c == ' ' || c == '\t' || c == '\r' || c == '\n'
}

} // verus!
