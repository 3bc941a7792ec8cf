//! Character-level helpers shared by the scanner, the tokenizer and the
//! composer: whitespace, trimming, substring search, quote-aware search and
//! lexicographic order, each as a spec function with a verified executable
//! counterpart where one is needed.

use vstd::prelude::*;
use vstd::string::StrSliceExecFns;
use vstd::string::StringExecFns;

verus! {

/// Whether a character counts as whitespace, following the Unicode
/// `White_Space` property that `str::trim` uses.
pub open spec fn is_ws(c: char) -> bool {
    let n = c as int;
    ||| n == 0x09
    ||| n == 0x0A
    ||| n == 0x0B
    ||| n == 0x0C
    ||| n == 0x0D
    ||| n == 0x20
    ||| n == 0x85
    ||| n == 0xA0
    ||| n == 0x1680
    ||| (0x2000 <= n && n <= 0x200A)
    ||| n == 0x2028
    ||| n == 0x2029
    ||| n == 0x202F
    ||| n == 0x205F
    ||| n == 0x3000
}

/// Decide whitespace for one character.
pub fn ws_char(c: char) -> (r: bool)
    ensures
        r == is_ws(c),
{
    let n = c as u32;
    n == 0x09 || n == 0x0A || n == 0x0B || n == 0x0C || n == 0x0D || n == 0x20 || n == 0x85
        || n == 0xA0 || n == 0x1680 || (0x2000 <= n && n <= 0x200A) || n == 0x2028 || n == 0x2029
        || n == 0x202F || n == 0x205F || n == 0x3000
}

/// First index in `[i, hi)` holding `target`, or `hi` if there is none.
pub open spec fn scan_to(s: Seq<char>, i: int, hi: int, target: char) -> int
    recommends
        0 <= i <= hi <= s.len(),
    decreases hi - i,
{
    if i < 0 || i >= hi {
        hi
    } else if s[i] == target {
        i
    } else {
        scan_to(s, i + 1, hi, target)
    }
}

pub proof fn lemma_scan_to(s: Seq<char>, i: int, hi: int, target: char)
    requires
        0 <= i <= hi,
    ensures
        i <= scan_to(s, i, hi, target) <= hi,
        scan_to(s, i, hi, target) < hi ==> s[scan_to(s, i, hi, target)] == target,
        forall|k: int| i <= k < scan_to(s, i, hi, target) ==> s[k] != target,
    decreases hi - i,
{
    if i < hi && s[i] != target {
        lemma_scan_to(s, i + 1, hi, target);
    }
}

/// First index in `[i, hi)` holding a non-whitespace character, or `hi`.
pub open spec fn skip_ws_fwd(s: Seq<char>, i: int, hi: int) -> int
    recommends
        0 <= i <= hi <= s.len(),
    decreases hi - i,
{
    if i < 0 || i >= hi {
        hi
    } else if is_ws(s[i]) {
        skip_ws_fwd(s, i + 1, hi)
    } else {
        i
    }
}

pub proof fn lemma_skip_ws_fwd(s: Seq<char>, i: int, hi: int)
    requires
        0 <= i <= hi,
    ensures
        i <= skip_ws_fwd(s, i, hi) <= hi,
        skip_ws_fwd(s, i, hi) < hi ==> !is_ws(s[skip_ws_fwd(s, i, hi)]),
        forall|k: int| i <= k < skip_ws_fwd(s, i, hi) ==> is_ws(s[k]),
    decreases hi - i,
{
    if i < hi && is_ws(s[i]) {
        lemma_skip_ws_fwd(s, i + 1, hi);
    }
}

/// One past the last index in `[lo, j)` holding a non-whitespace character,
/// or `lo` when all of them are whitespace.
pub open spec fn skip_ws_back(s: Seq<char>, lo: int, j: int) -> int
    recommends
        0 <= lo <= j <= s.len(),
    decreases j - lo,
{
    if j <= lo {
        lo
    } else if is_ws(s[j - 1]) {
        skip_ws_back(s, lo, j - 1)
    } else {
        j
    }
}

pub proof fn lemma_skip_ws_back(s: Seq<char>, lo: int, j: int)
    requires
        0 <= lo <= j <= s.len(),
    ensures
        lo <= skip_ws_back(s, lo, j) <= j,
        skip_ws_back(s, lo, j) > lo ==> !is_ws(s[skip_ws_back(s, lo, j) - 1]),
        forall|k: int| skip_ws_back(s, lo, j) <= k < j ==> is_ws(s[k]),
    decreases j - lo,
{
    if j > lo && is_ws(s[j - 1]) {
        lemma_skip_ws_back(s, lo, j - 1);
    }
}

/// A run of text with the whitespace removed from both ends.
pub open spec fn trim_view(v: Seq<char>) -> Seq<char> {
    let a = skip_ws_fwd(v, 0, v.len() as int);
    let b = skip_ws_back(v, a, v.len() as int);
    v.subrange(a, b)
}

/// Remove the whitespace from both ends of a string.
pub fn trim_str(s: &str) -> (r: String)
    ensures
        r@ == trim_view(s@),
{
    let n = s.unicode_len();
    let a = skip_ws_exec(s, 0, n);
    let b = skip_ws_back_exec(s, a, n);
    s.substring_char(a, b).to_owned()
}

/// Whether the pattern `p` occurs in `s` starting at index `i`.
pub open spec fn starts_with_at(s: Seq<char>, i: int, p: Seq<char>) -> bool {
    0 <= i && i + p.len() <= s.len() && s.subrange(i, i + p.len()) == p
}

/// First index at or after `i` where the pattern `p` occurs, or `-1`.
pub open spec fn find_from(s: Seq<char>, i: int, p: Seq<char>) -> int
    recommends
        0 <= i <= s.len(),
    decreases s.len() - i,
{
    if i < 0 || i + p.len() > s.len() || p.len() == 0 {
        -1
    } else if starts_with_at(s, i, p) {
        i
    } else {
        find_from(s, i + 1, p)
    }
}

pub proof fn lemma_find_from(s: Seq<char>, i: int, p: Seq<char>)
    requires
        0 <= i <= s.len(),
        p.len() > 0,
    ensures
        find_from(s, i, p) == -1 ==> forall|k: int| i <= k ==> !starts_with_at(s, k, p),
        find_from(s, i, p) != -1 ==> i <= find_from(s, i, p)
            && find_from(s, i, p) + p.len() <= s.len()
            && starts_with_at(s, find_from(s, i, p), p)
            && forall|k: int| i <= k < find_from(s, i, p) ==> !starts_with_at(s, k, p),
    decreases s.len() - i,
{
    if i + p.len() > s.len() {
        assert forall|k: int| i <= k implies !starts_with_at(s, k, p) by {}
    } else if !starts_with_at(s, i, p) {
        lemma_find_from(s, i + 1, p);
    }
}

/// The quoting state of a left-to-right scan over a tag or declaration.
#[derive(Clone, Copy, Debug, PartialEq, Eq, Structural)]
pub enum Quoting {
    Outside,
    Single,
    Double,
}

/// How one character changes the quoting state.
pub open spec fn quote_step(q: Quoting, c: char) -> Quoting {
    match q {
        Quoting::Outside => if c == '\'' {
            Quoting::Single
        } else if c == '"' {
            Quoting::Double
        } else {
            Quoting::Outside
        },
        Quoting::Single => if c == '\'' {
            Quoting::Outside
        } else {
            Quoting::Single
        },
        Quoting::Double => if c == '"' {
            Quoting::Outside
        } else {
            Quoting::Double
        },
    }
}

/// Advance the quoting state by one character.
pub fn quote_advance(q: Quoting, c: char) -> (r: Quoting)
    ensures
        r == quote_step(q, c),
{
    match q {
        Quoting::Outside => if c == '\'' {
            Quoting::Single
        } else if c == '"' {
            Quoting::Double
        } else {
            Quoting::Outside
        },
        Quoting::Single => if c == '\'' {
            Quoting::Outside
        } else {
            Quoting::Single
        },
        Quoting::Double => if c == '"' {
            Quoting::Outside
        } else {
            Quoting::Double
        },
    }
}

/// First index at or after `i` holding a `>` that is not inside a quoted
/// region, starting the scan in state `q`; `-1` if there is none.
pub open spec fn find_gt_from(s: Seq<char>, i: int, q: Quoting) -> int
    recommends
        0 <= i <= s.len(),
    decreases s.len() - i,
{
    if i < 0 || i >= s.len() {
        -1
    } else if q == Quoting::Outside && s[i] == '>' {
        i
    } else {
        find_gt_from(s, i + 1, quote_step(q, s[i]))
    }
}

pub proof fn lemma_find_gt_from(s: Seq<char>, i: int, q: Quoting)
    requires
        0 <= i <= s.len(),
    ensures
        find_gt_from(s, i, q) != -1 ==> i <= find_gt_from(s, i, q) < s.len()
            && s[find_gt_from(s, i, q)] == '>',
    decreases s.len() - i,
{
    if 0 <= i && i < s.len() && !(q == Quoting::Outside && s[i] == '>') {
        lemma_find_gt_from(s, i + 1, quote_step(q, s[i]));
    }
}

/// The quoting state after scanning the characters in `[i, j)`, starting
/// from state `q`.
pub open spec fn quote_run(s: Seq<char>, i: int, j: int, q: Quoting) -> Quoting
    decreases j - i,
{
    if i < 0 || i >= j {
        q
    } else {
        quote_run(s, i + 1, j, quote_step(q, s[i]))
    }
}

pub proof fn lemma_quote_run_congruent(s: Seq<char>, i: int, j: int, t: Seq<char>, d: int, q: Quoting)
    requires
        0 <= i <= j,
        0 <= i + d,
        forall|m: int| i <= m < j ==> s[m] == t[m + d],
    ensures
        quote_run(s, i, j, q) == quote_run(t, i + d, j + d, q),
    decreases j - i,
{
    if i < j {
        lemma_quote_run_congruent(s, i + 1, j, t, d, quote_step(q, s[i]));
    }
}

pub proof fn lemma_quote_run_no_quotes(s: Seq<char>, i: int, j: int)
    requires
        0 <= i <= j,
        forall|m: int| i <= m < j ==> s[m] != '\'' && s[m] != '"',
    ensures
        quote_run(s, i, j, Quoting::Outside) == Quoting::Outside,
    decreases j - i,
{
    if i < j {
        lemma_quote_run_no_quotes(s, i + 1, j);
    }
}

pub proof fn lemma_quote_run_concat(s: Seq<char>, i: int, j: int, k: int, q: Quoting)
    requires
        0 <= i <= j <= k,
    ensures
        quote_run(s, i, k, q) == quote_run(s, j, k, quote_run(s, i, j, q)),
    decreases j - i,
{
    if i < j {
        lemma_quote_run_concat(s, i + 1, j, k, quote_step(q, s[i]));
    }
}

/// Pin `scan_to` down from an explicit witness.
pub proof fn lemma_scan_to_is(s: Seq<char>, i: int, hi: int, target: char, k: int)
    requires
        0 <= i <= k <= hi,
        k < hi ==> s[k] == target,
        forall|q: int| i <= q < k ==> s[q] != target,
    ensures
        scan_to(s, i, hi, target) == k,
{
    lemma_scan_to(s, i, hi, target);
}

/// Pin `skip_ws_fwd` down from an explicit witness.
pub proof fn lemma_skip_ws_fwd_is(s: Seq<char>, i: int, hi: int, k: int)
    requires
        0 <= i <= k <= hi,
        k < hi ==> !is_ws(s[k]),
        forall|q: int| i <= q < k ==> is_ws(s[q]),
    ensures
        skip_ws_fwd(s, i, hi) == k,
{
    lemma_skip_ws_fwd(s, i, hi);
}

/// A quoted scan stays inside its quotes until the closing character.
pub proof fn lemma_quote_run_stuck(s: Seq<char>, i: int, j: int, q: Quoting)
    requires
        0 <= i <= j,
        q != Quoting::Outside,
        forall|m: int| i <= m < j ==> (q == Quoting::Single ==> s[m] != '\'') && (q
            == Quoting::Double ==> s[m] != '"'),
    ensures
        quote_run(s, i, j, q) == q,
    decreases j - i,
{
    if i < j {
        lemma_quote_run_stuck(s, i + 1, j, q);
    }
}

/// Pin `find_from` down from an explicit witness.
pub proof fn lemma_find_from_is(s: Seq<char>, i: int, p: Seq<char>, k: int)
    requires
        0 <= i <= s.len(),
        p.len() > 0,
        i <= k,
        starts_with_at(s, k, p),
        forall|q: int| i <= q < k ==> !starts_with_at(s, q, p),
    ensures
        find_from(s, i, p) == k,
{
    lemma_find_from(s, i, p);
}

/// Pin `find_gt_from` down from an explicit witness.
pub proof fn lemma_find_gt_is(s: Seq<char>, i: int, q0: Quoting, k: int)
    requires
        0 <= i <= k < s.len(),
        s[k] == '>',
        quote_run(s, i, k, q0) == Quoting::Outside,
        forall|m: int| i <= m < k ==> !(s[m] == '>' && quote_run(s, i, m, q0)
            == Quoting::Outside),
    ensures
        find_gt_from(s, i, q0) == k,
    decreases k - i,
{
    if i == k {
        assert(quote_run(s, i, i, q0) == q0);
    } else {
        assert(quote_run(s, i, i, q0) == q0);
        if q0 == Quoting::Outside && s[i] == '>' {
            assert(false);
        }
        assert(quote_run(s, i + 1, i + 1, quote_step(q0, s[i])) == quote_step(q0, s[i]));
        assert(quote_run(s, i, i + 1, q0) == quote_step(q0, s[i]));
        assert forall|m: int| i + 1 <= m < k implies !(s[m] == '>' && quote_run(
            s,
            i + 1,
            m,
            quote_step(q0, s[i]),
        ) == Quoting::Outside) by {
            lemma_quote_run_concat(s, i, i + 1, m, q0);
        }
        lemma_quote_run_concat(s, i, i + 1, k, q0);
        lemma_find_gt_is(s, i + 1, quote_step(q0, s[i]), k);
    }
}

/// Whether every character in the sequence is whitespace.
pub open spec fn all_ws(w: Seq<char>) -> bool {
    forall|i: int| 0 <= i < w.len() ==> is_ws(#[trigger] w[i])
}

/// A trimmed, non-empty run neither starts nor ends with whitespace.
pub proof fn lemma_trimmed_ends(c: Seq<char>)
    requires
        c.len() > 0,
        trim_view(c) == c,
    ensures
        !is_ws(c[0]),
        !is_ws(c[c.len() - 1]),
{
    let n = c.len() as int;
    let a = skip_ws_fwd(c, 0, n);
    let b = skip_ws_back(c, a, n);
    lemma_skip_ws_fwd(c, 0, n);
    lemma_skip_ws_back(c, a, n);
    assert(c.subrange(a, b).len() == c.len());
    assert(a == 0 && b == n);
}

/// Trimming strips surrounding whitespace and nothing more.
pub proof fn lemma_trim_pad(w1: Seq<char>, c: Seq<char>, w2: Seq<char>)
    requires
        c.len() > 0,
        trim_view(c) == c,
        all_ws(w1),
        all_ws(w2),
    ensures
        trim_view(w1 + c + w2) == c,
{
    let s = w1 + c + w2;
    let n = s.len() as int;
    lemma_trimmed_ends(c);
    lemma_skip_ws_fwd(s, 0, n);
    let a = skip_ws_fwd(s, 0, n);
    assert(s[w1.len() as int] == c[0]);
    assert(!is_ws(s[w1.len() as int]));
    if a < w1.len() {
        assert(is_ws(w1[a]));
        assert(false);
    }
    if a > w1.len() {
        assert(is_ws(s[w1.len() as int]));
        assert(false);
    }
    let b = skip_ws_back(s, a, n);
    lemma_skip_ws_back(s, a, n);
    let e = w1.len() + c.len() as int;
    assert(s[e - 1] == c[c.len() - 1]);
    assert(!is_ws(s[e - 1]));
    if b < e {
        assert(is_ws(s[e - 1]));
        assert(false);
    }
    if b > e {
        assert(is_ws(s[b - 1]));
        assert(w2[b - 1 - e] == s[b - 1]);
        assert(false);
    }
    assert(s.subrange(a, b) =~= c);
}

/// Lexicographic order on character sequences, by code point.
pub open spec fn lex_leq(a: Seq<char>, b: Seq<char>) -> bool
    decreases a.len(),
{
    if a.len() == 0 {
        true
    } else if b.len() == 0 {
        false
    } else if a[0] == b[0] {
        lex_leq(a.drop_first(), b.drop_first())
    } else {
        (a[0] as int) < (b[0] as int)
    }
}

pub proof fn lemma_lex_leq_total(a: Seq<char>, b: Seq<char>)
    ensures
        lex_leq(a, b) || lex_leq(b, a),
        lex_leq(a, b) && lex_leq(b, a) ==> a =~= b,
    decreases a.len(),
{
    if a.len() != 0 && b.len() != 0 && a[0] == b[0] {
        lemma_lex_leq_total(a.drop_first(), b.drop_first());
        if lex_leq(a, b) && lex_leq(b, a) {
            assert(a =~= seq![a[0]] + a.drop_first());
            assert(b =~= seq![b[0]] + b.drop_first());
        }
    }
}

pub proof fn lemma_lex_leq_trans(a: Seq<char>, b: Seq<char>, c: Seq<char>)
    requires
        lex_leq(a, b),
        lex_leq(b, c),
    ensures
        lex_leq(a, c),
    decreases a.len(),
{
    if a.len() != 0 && b.len() != 0 && c.len() != 0 && a[0] == b[0] && b[0] == c[0] {
        lemma_lex_leq_trans(a.drop_first(), b.drop_first(), c.drop_first());
    }
}

/// Decide the lexicographic order on two strings.
pub fn str_leq(a: &str, b: &str) -> (r: bool)
    ensures
        r == lex_leq(a@, b@),
{
    let a_len = a.unicode_len();
    let b_len = b.unicode_len();
    let mut i: usize = 0;
    proof {
        assert(a@.skip(0) =~= a@);
        assert(b@.skip(0) =~= b@);
    }
    loop
        invariant
            i <= a_len,
            i <= b_len,
            a_len == a@.len(),
            b_len == b@.len(),
            lex_leq(a@, b@) == lex_leq(a@.skip(i as int), b@.skip(i as int)),
        decreases a_len - i,
    {
        proof {
            assert(a@.skip(i as int).len() == a@.len() - i);
            assert(b@.skip(i as int).len() == b@.len() - i);
        }
        if i == a_len {
            proof {
                assert(lex_leq(a@.skip(i as int), b@.skip(i as int)));
            }
            return true;
        }
        if i == b_len {
            proof {
                assert(!lex_leq(a@.skip(i as int), b@.skip(i as int)));
            }
            return false;
        }
        let ca = a.get_char(i);
        let cb = b.get_char(i);
        proof {
            assert(a@.skip(i as int)[0] == a@[i as int]);
            assert(b@.skip(i as int)[0] == b@[i as int]);
            assert(a@.skip(i as int).drop_first() =~= a@.skip(i as int + 1));
            assert(b@.skip(i as int).drop_first() =~= b@.skip(i as int + 1));
        }
        if ca != cb {
            return (ca as u32) < (cb as u32);
        }
        proof {
            assert(lex_leq(a@.skip(i as int), b@.skip(i as int)) == lex_leq(
                a@.skip(i as int + 1),
                b@.skip(i as int + 1),
            ));
        }
        i = i + 1;
    }
}

/// Find the first occurrence of a character inside a window.
pub fn scan_to_exec(s: &str, from: usize, hi: usize, target: char) -> (r: usize)
    requires
        from <= hi <= s@.len(),
    ensures
        r == scan_to(s@, from as int, hi as int, target),
        from <= r <= hi,
{
    let mut i: usize = from;
    while i < hi
        invariant
            from <= i <= hi <= s@.len(),
            scan_to(s@, from as int, hi as int, target) == scan_to(s@, i as int, hi as int, target),
        decreases hi - i,
    {
        if s.get_char(i) == target {
            return i;
        }
        i = i + 1;
    }
    i
}

/// Find the first non-whitespace character inside a window.
pub fn skip_ws_exec(s: &str, from: usize, hi: usize) -> (r: usize)
    requires
        from <= hi <= s@.len(),
    ensures
        r == skip_ws_fwd(s@, from as int, hi as int),
        from <= r <= hi,
{
    let mut i: usize = from;
    while i < hi
        invariant
            from <= i <= hi <= s@.len(),
            skip_ws_fwd(s@, from as int, hi as int) == skip_ws_fwd(s@, i as int, hi as int),
        decreases hi - i,
    {
        if !ws_char(s.get_char(i)) {
            return i;
        }
        i = i + 1;
    }
    i
}

/// Walk back over trailing whitespace inside a window.
pub fn skip_ws_back_exec(s: &str, lo: usize, j: usize) -> (r: usize)
    requires
        lo <= j <= s@.len(),
    ensures
        r == skip_ws_back(s@, lo as int, j as int),
        lo <= r <= j,
{
    let mut i: usize = j;
    while i > lo
        invariant
            lo <= i <= j <= s@.len(),
            skip_ws_back(s@, lo as int, j as int) == skip_ws_back(s@, lo as int, i as int),
        decreases i,
    {
        if !ws_char(s.get_char(i - 1)) {
            return i;
        }
        i = i - 1;
    }
    i
}

/// Find the first occurrence of a two-character pattern.
pub fn find_pair(s: &str, from: usize, c0: char, c1: char) -> (r: Option<usize>)
    requires
        from <= s@.len(),
    ensures
        match r {
            Some(j) => from <= j && j + 2 <= s@.len() && find_from(s@, from as int, seq![c0, c1])
                == j as int,
            None => find_from(s@, from as int, seq![c0, c1]) == -1,
        },
{
    let n = s.unicode_len();
    let mut i: usize = from;
    loop
        invariant
            from <= i <= n,
            n == s@.len(),
            find_from(s@, from as int, seq![c0, c1]) == find_from(s@, i as int, seq![c0, c1]),
        decreases n - i,
    {
        if n - i < 2 {
            proof {
                assert(find_from(s@, i as int, seq![c0, c1]) == -1);
            }
            return None;
        }
        if s.get_char(i) == c0 && s.get_char(i + 1) == c1 {
            proof {
                assert(s@.subrange(i as int, i as int + 2) =~= seq![c0, c1]);
                assert(starts_with_at(s@, i as int, seq![c0, c1]));
            }
            return Some(i);
        }
        proof {
            if starts_with_at(s@, i as int, seq![c0, c1]) {
                assert(s@.subrange(i as int, i as int + 2)[0] == c0);
                assert(s@.subrange(i as int, i as int + 2)[1] == c1);
                assert(false);
            }
        }
        i = i + 1;
    }
}

/// Find the first occurrence of a three-character pattern.
pub fn find_triple(s: &str, from: usize, c0: char, c1: char, c2: char) -> (r: Option<usize>)
    requires
        from <= s@.len(),
    ensures
        match r {
            Some(j) => from <= j && j + 3 <= s@.len() && find_from(
                s@,
                from as int,
                seq![c0, c1, c2],
            ) == j as int,
            None => find_from(s@, from as int, seq![c0, c1, c2]) == -1,
        },
{
    let n = s.unicode_len();
    let mut i: usize = from;
    loop
        invariant
            from <= i <= n,
            n == s@.len(),
            find_from(s@, from as int, seq![c0, c1, c2]) == find_from(
                s@,
                i as int,
                seq![c0, c1, c2],
            ),
        decreases n - i,
    {
        if n - i < 3 {
            proof {
                assert(find_from(s@, i as int, seq![c0, c1, c2]) == -1);
            }
            return None;
        }
        if s.get_char(i) == c0 && s.get_char(i + 1) == c1 && s.get_char(i + 2) == c2 {
            proof {
                assert(s@.subrange(i as int, i as int + 3) =~= seq![c0, c1, c2]);
                assert(starts_with_at(s@, i as int, seq![c0, c1, c2]));
            }
            return Some(i);
        }
        proof {
            if starts_with_at(s@, i as int, seq![c0, c1, c2]) {
                assert(s@.subrange(i as int, i as int + 3)[0] == c0);
                assert(s@.subrange(i as int, i as int + 3)[1] == c1);
                assert(s@.subrange(i as int, i as int + 3)[2] == c2);
                assert(false);
            }
        }
        i = i + 1;
    }
}

/// Find the first `>` outside quoted regions, scanning from `from`.
pub fn find_gt_exec(s: &str, from: usize) -> (r: Option<usize>)
    requires
        from <= s@.len(),
    ensures
        match r {
            Some(j) => from <= j && j < s@.len() && find_gt_from(s@, from as int, Quoting::Outside)
                == j as int,
            None => find_gt_from(s@, from as int, Quoting::Outside) == -1,
        },
{
    let n = s.unicode_len();
    let mut i: usize = from;
    let mut q = Quoting::Outside;
    loop
        invariant
            from <= i <= n,
            n == s@.len(),
            find_gt_from(s@, from as int, Quoting::Outside) == find_gt_from(s@, i as int, q),
        decreases n - i,
    {
        if i == n {
            return None;
        }
        let c = s.get_char(i);
        if c == '>' && matches!(q, Quoting::Outside) {
            return Some(i);
        }
        q = quote_advance(q, c);
        i = i + 1;
    }
}

/// Decide whether two strings hold the same characters.
pub fn str_eq(a: &str, b: &str) -> (r: bool)
    ensures
        r == (a@ == b@),
{
    let a_len = a.unicode_len();
    let b_len = b.unicode_len();
    if a_len != b_len {
        return false;
    }
    let mut i: usize = 0;
    while i < a_len
        invariant
            i <= a_len,
            a_len == a@.len(),
            a_len == b@.len(),
            forall|k: int| 0 <= k < i ==> a@[k] == b@[k],
        decreases a_len - i,
    {
        if a.get_char(i) != b.get_char(i) {
            return false;
        }
        i = i + 1;
    }
    proof {
        assert(a@ =~= b@);
    }
    true
}

/// The decimal digit character for a value below ten.
pub open spec fn digit_char(d: nat) -> char {
    if d == 0 { '0' }
    else if d == 1 { '1' }
    else if d == 2 { '2' }
    else if d == 3 { '3' }
    else if d == 4 { '4' }
    else if d == 5 { '5' }
    else if d == 6 { '6' }
    else if d == 7 { '7' }
    else if d == 8 { '8' }
    else { '9' }
}

/// The decimal representation of a number, most significant digit first.
pub open spec fn dec_rep(n: nat) -> Seq<char>
    decreases n,
{
    if n < 10 {
        seq![digit_char(n)]
    } else {
        dec_rep(n / 10).push(digit_char(n % 10))
    }
}

/// Write a number in decimal.
pub fn usize_to_text(n: usize) -> (r: String)
    ensures
        r@ == dec_rep(n as nat),
    decreases n,
{
    let d = n % 10;
    let dc: &str = if d == 0 { "0" }
        else if d == 1 { "1" }
        else if d == 2 { "2" }
        else if d == 3 { "3" }
        else if d == 4 { "4" }
        else if d == 5 { "5" }
        else if d == 6 { "6" }
        else if d == 7 { "7" }
        else { if d == 8 { "8" } else { "9" } };
    proof {
        reveal_strlit("0");
        reveal_strlit("1");
        reveal_strlit("2");
        reveal_strlit("3");
        reveal_strlit("4");
        reveal_strlit("5");
        reveal_strlit("6");
        reveal_strlit("7");
        reveal_strlit("8");
        reveal_strlit("9");
        assert(dc@ =~= seq![digit_char((n % 10) as nat)]);
    }
    if n < 10 {
        dc.to_owned()
    } else {
        let mut s = usize_to_text(n / 10);
        s.append(dc);
        proof {
            assert(s@ =~= dec_rep((n / 10) as nat).push(digit_char((n % 10) as nat)));
        }
        s
    }
}

} // verus!
