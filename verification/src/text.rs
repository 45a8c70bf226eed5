//! Character-level text helpers shared by the parsing and store logic.

use vstd::prelude::*;

use crate::digits::is_digit_char;

verus! {

/// Character-by-character string equality; `r` holds exactly when the two
/// views are the same sequence.
pub fn str_eq(a: &str, b: &str) -> (r: bool)
    ensures
        r == (a@ == b@),
{
    let an = a.unicode_len();
    let bn = b.unicode_len();
    if an != bn {
        return false;
    }
    let mut i: usize = 0;
    while i < an
        invariant
            an == a@.len(),
            an == b@.len(),
            i <= an,
            forall|k: int| 0 <= k < i ==> a@[k] == b@[k],
        decreases an - i,
    {
        if a.get_char(i) != b.get_char(i) {
            return false;
        }
        i = i + 1;
    }
    proof {
        assert(a@ =~= b@);
    }
    true
}

/// The whitespace characters recognised by the text helpers: the ASCII
/// whitespace set.
pub open spec fn is_space_char(c: char) -> bool {
    c == ' ' || c == '\t' || c == '\n' || c == '\u{000C}' || c == '\r'
}

/// Whether `c` is ASCII whitespace.
pub fn is_space(c: char) -> (r: bool)
    ensures
        r == is_space_char(c),
{
    c == ' ' || c == '\t' || c == '\n' || c == '\u{000C}' || c == '\r'
}

/// `s` without leading whitespace.
pub open spec fn trim_start_spec(s: Seq<char>) -> Seq<char>
    decreases s.len(),
{
    if s.len() > 0 && is_space_char(s[0]) {
        trim_start_spec(s.drop_first())
    } else {
        s
    }
}

/// `s` without trailing whitespace.
pub open spec fn trim_end_spec(s: Seq<char>) -> Seq<char>
    decreases s.len(),
{
    if s.len() > 0 && is_space_char(s.last()) {
        trim_end_spec(s.drop_last())
    } else {
        s
    }
}

/// `s` without leading and trailing whitespace.
pub open spec fn trim_spec(s: Seq<char>) -> Seq<char> {
    trim_end_spec(trim_start_spec(s))
}

/// Dropping a fully-whitespace prefix computes `trim_start_spec`.
pub proof fn lemma_trim_start_skip(s: Seq<char>, i: int)
    requires
        0 <= i <= s.len(),
        forall|j: int| 0 <= j < i ==> is_space_char(#[trigger] s[j]),
        i == s.len() || !is_space_char(s[i]),
    ensures
        trim_start_spec(s) == s.skip(i),
    decreases i,
{
    if i == 0 {
        assert(s.skip(0) =~= s);
    } else {
        assert(s.drop_first() =~= s.skip(1));
        lemma_trim_start_skip(s.skip(1), i - 1);
        assert(s.skip(1).skip(i - 1) =~= s.skip(i));
    }
}

/// Keeping everything before a fully-whitespace suffix computes
/// `trim_end_spec`.
pub proof fn lemma_trim_end_take(s: Seq<char>, e: int)
    requires
        0 <= e <= s.len(),
        forall|j: int| e <= j < s.len() ==> is_space_char(#[trigger] s[j]),
        e == 0 || !is_space_char(s[e - 1]),
    ensures
        trim_end_spec(s) == s.take(e),
    decreases s.len() - e,
{
    if e == s.len() {
        if s.len() > 0 && is_space_char(s.last()) {
            assert(!is_space_char(s[e - 1]));
            assert(false);
        }
        assert(s.take(e) =~= s);
    } else {
        assert(is_space_char(s.last()));
        lemma_trim_end_take(s.drop_last(), e);
        assert(s.drop_last().take(e) =~= s.take(e));
    }
}

/// `s` with leading and trailing whitespace removed.
pub fn trim_str<'a>(s: &'a str) -> (r: &'a str)
    ensures
        r@ == trim_spec(s@),
{
    let n = s.unicode_len();
    let mut start: usize = 0;
    while start < n && is_space(s.get_char(start))
        invariant
            n == s@.len(),
            start <= n,
            forall|j: int| 0 <= j < start ==> is_space_char(#[trigger] s@[j]),
        decreases n - start,
    {
        start = start + 1;
    }
    let mut end: usize = n;
    while end > start && is_space(s.get_char(end - 1))
        invariant
            n == s@.len(),
            start <= end <= n,
            forall|j: int| end <= j < n ==> is_space_char(#[trigger] s@[j]),
        decreases end,
    {
        end = end - 1;
    }
    proof {
        lemma_trim_start_skip(s@, start as int);
        let inner = s@.skip(start as int);
        lemma_trim_end_take(inner, end - start);
        assert(inner.take(end - start) =~= s@.subrange(start as int, end as int));
    }
    s.substring_char(start, end)
}

/// The index of the first occurrence of `sep` in `s`, or the length of
/// `s` when it does not occur.
pub open spec fn sep_end(s: Seq<char>, sep: char) -> int
    decreases s.len(),
{
    if s.len() == 0 {
        0
    } else if s[0] == sep {
        0
    } else {
        1 + sep_end(s.drop_first(), sep)
    }
}

/// `sep_end` is the first index holding `sep`, and in range.
pub proof fn lemma_sep_end_at(s: Seq<char>, sep: char, k: int)
    requires
        0 <= k <= s.len(),
        forall|j: int| 0 <= j < k ==> #[trigger] s[j] != sep,
        k == s.len() || s[k] == sep,
    ensures
        sep_end(s, sep) == k,
    decreases k,
{
    if k == 0 {
    } else {
        assert(s.drop_first() =~= s.skip(1));
        lemma_sep_end_at(s.skip(1), sep, k - 1);
    }
}

/// `sep_end` stays within the sequence.
pub proof fn lemma_sep_end_bounds(s: Seq<char>, sep: char)
    ensures
        0 <= sep_end(s, sep) <= s.len(),
    decreases s.len(),
{
    if s.len() > 0 && s[0] != sep {
        lemma_sep_end_bounds(s.drop_first(), sep);
    }
}

/// `s` split on every occurrence of `sep`: the pieces between
/// separators, in order, empty pieces included.
pub open spec fn split_on(s: Seq<char>, sep: char) -> Seq<Seq<char>>
    decreases s.len(),
    via split_on_decreases
{
    let k = sep_end(s, sep);
    if k == s.len() {
        seq![s]
    } else {
        seq![s.take(k)] + split_on(s.skip(k + 1), sep)
    }
}

#[via_fn]
proof fn split_on_decreases(s: Seq<char>, sep: char) {
    lemma_sep_end_bounds(s, sep);
}

/// `s` split on `sep`, each piece as an owned string.
pub fn split_char(s: &str, sep: char) -> (r: Vec<String>)
    ensures
        r@.map_values(|x: String| x@) == split_on(s@, sep),
{
    let n = s.unicode_len();
    let mut out: Vec<String> = Vec::new();
    let mut piece_start: usize = 0;
    let mut i: usize = 0;
    proof {
        assert(s@.skip(0) =~= s@);
        assert(out@.map_values(|x: String| x@) + split_on(s@, sep) =~= split_on(s@, sep));
    }
    while i < n
        invariant
            n == s@.len(),
            piece_start <= i <= n,
            forall|j: int| piece_start <= j < i ==> #[trigger] s@[j] != sep,
            split_on(s@, sep) == out@.map_values(|x: String| x@) + split_on(
                s@.skip(piece_start as int),
                sep,
            ),
        decreases n - i,
    {
        let ghost out0 = out@.map_values(|x: String| x@);
        if s.get_char(i) == sep {
            let piece = s.substring_char(piece_start, i);
            out.push(String::from_str(piece));
            proof {
                let tail = s@.skip(piece_start as int);
                assert forall|j: int| 0 <= j < i - piece_start implies #[trigger] tail[j]
                    != sep by {
                    assert(tail[j] == s@[piece_start + j]);
                }
                assert(tail[i - piece_start] == s@[i as int]);
                lemma_sep_end_at(tail, sep, i - piece_start);
                assert(tail.take(i - piece_start) =~= s@.subrange(
                    piece_start as int,
                    i as int,
                ));
                assert(tail.skip(i - piece_start + 1) =~= s@.skip(i + 1));
                assert(out@.map_values(|x: String| x@) =~= out0.push(
                    s@.subrange(piece_start as int, i as int),
                ));
                assert(out0.push(s@.subrange(piece_start as int, i as int)) + split_on(
                    s@.skip(i + 1),
                    sep,
                ) =~= out0 + split_on(tail, sep));
            }
            piece_start = i + 1;
        }
        i = i + 1;
    }
    let piece = s.substring_char(piece_start, n);
    out.push(String::from_str(piece));
    proof {
        let tail = s@.skip(piece_start as int);
        assert forall|j: int| 0 <= j < tail.len() implies #[trigger] tail[j] != sep by {
            assert(tail[j] == s@[piece_start + j]);
        }
        lemma_sep_end_at(tail, sep, tail.len() as int);
        assert(tail =~= s@.subrange(piece_start as int, n as int));
        assert(out@.map_values(|x: String| x@) =~= split_on(s@, sep));
    }
    out
}

/// The index of the first whitespace character of `s`, or its length.
pub open spec fn ws_end(s: Seq<char>) -> int
    decreases s.len(),
{
    if s.len() == 0 {
        0
    } else if is_space_char(s[0]) {
        0
    } else {
        1 + ws_end(s.drop_first())
    }
}

/// `ws_end` is the first whitespace index, and in range.
pub proof fn lemma_ws_end_at(s: Seq<char>, k: int)
    requires
        0 <= k <= s.len(),
        forall|j: int| 0 <= j < k ==> !is_space_char(#[trigger] s[j]),
        k == s.len() || is_space_char(s[k]),
    ensures
        ws_end(s) == k,
    decreases k,
{
    if k == 0 {
    } else {
        assert(s.drop_first() =~= s.skip(1));
        lemma_ws_end_at(s.skip(1), k - 1);
    }
}

/// `ws_end` stays within the sequence.
pub proof fn lemma_ws_end_bounds(s: Seq<char>)
    ensures
        0 <= ws_end(s) <= s.len(),
    decreases s.len(),
{
    if s.len() > 0 && !is_space_char(s[0]) {
        lemma_ws_end_bounds(s.drop_first());
    }
}

/// The maximal whitespace-free runs of `s`, in order: what splitting on
/// whitespace yields, with empty pieces dropped.
pub open spec fn split_ws(s: Seq<char>) -> Seq<Seq<char>>
    decreases s.len(),
    via split_ws_decreases
{
    if s.len() == 0 {
        Seq::empty()
    } else if is_space_char(s[0]) {
        split_ws(s.drop_first())
    } else {
        let k = ws_end(s);
        seq![s.take(k)] + split_ws(s.skip(k))
    }
}

#[via_fn]
proof fn split_ws_decreases(s: Seq<char>) {
    if s.len() > 0 && !is_space_char(s[0]) {
        lemma_ws_end_bounds(s.drop_first());
    }
}

/// `s` split on runs of whitespace, each token as an owned string.
pub fn split_whitespace_str(s: &str) -> (r: Vec<String>)
    ensures
        r@.map_values(|x: String| x@) == split_ws(s@),
{
    let n = s.unicode_len();
    let mut out: Vec<String> = Vec::new();
    let mut i: usize = 0;
    proof {
        assert(s@.skip(0) =~= s@);
        assert(out@.map_values(|x: String| x@) + split_ws(s@) =~= split_ws(s@));
    }
    while i < n
        invariant
            n == s@.len(),
            i <= n,
            split_ws(s@) == out@.map_values(|x: String| x@) + split_ws(s@.skip(i as int)),
        decreases n - i,
    {
        let ghost out0 = out@.map_values(|x: String| x@);
        if is_space(s.get_char(i)) {
            proof {
                assert(s@.skip(i as int)[0] == s@[i as int]);
                assert(s@.skip(i as int).drop_first() =~= s@.skip(i + 1));
            }
            i = i + 1;
        } else {
            let mut j: usize = i + 1;
            while j < n && !is_space(s.get_char(j))
                invariant
                    n == s@.len(),
                    i < j <= n,
                    forall|k: int| i <= k < j ==> !is_space_char(#[trigger] s@[k]),
                decreases n - j,
            {
                j = j + 1;
            }
            let token = s.substring_char(i, j);
            out.push(String::from_str(token));
            proof {
                let tail = s@.skip(i as int);
                assert forall|k: int| 0 <= k < j - i implies !is_space_char(
                    #[trigger] tail[k],
                ) by {
                    assert(tail[k] == s@[i + k]);
                }
                if j < n {
                    assert(tail[j - i] == s@[j as int]);
                }
                lemma_ws_end_at(tail, j - i);
                assert(tail.take(j - i) =~= s@.subrange(i as int, j as int));
                assert(tail.skip(j - i) =~= s@.skip(j as int));
                assert(out@.map_values(|x: String| x@) =~= out0.push(
                    s@.subrange(i as int, j as int),
                ));
                assert(out0.push(s@.subrange(i as int, j as int)) + split_ws(s@.skip(j as int))
                    =~= out0 + split_ws(tail));
            }
            i = j;
        }
    }
    proof {
        assert(s@.skip(n as int) =~= Seq::<char>::empty());
    }
    out
}

/// Strict lexicographic order on texts, by code point: the order
/// `String` comparison gives.
pub open spec fn lex_lt(a: Seq<char>, b: Seq<char>) -> bool
    decreases a.len(),
{
    if b.len() == 0 {
        false
    } else if a.len() == 0 {
        true
    } else if a[0] != b[0] {
        (a[0] as int) < (b[0] as int)
    } else {
        lex_lt(a.drop_first(), b.drop_first())
    }
}

/// Dropping a common prefix does not change the lexicographic order.
pub proof fn lemma_lex_lt_skip(a: Seq<char>, b: Seq<char>, i: int)
    requires
        0 <= i <= a.len(),
        i <= b.len(),
        forall|j: int| 0 <= j < i ==> a[j] == b[j],
    ensures
        lex_lt(a, b) == lex_lt(a.skip(i), b.skip(i)),
    decreases i,
{
    if i == 0 {
        assert(a.skip(0) =~= a);
        assert(b.skip(0) =~= b);
    } else {
        lemma_lex_lt_skip(a, b, i - 1);
        let a1 = a.skip(i - 1);
        let b1 = b.skip(i - 1);
        assert(a1[0] == a[i - 1]);
        assert(b1[0] == b[i - 1]);
        assert(a1.drop_first() =~= a.skip(i));
        assert(b1.drop_first() =~= b.skip(i));
    }
}

/// Whether `a` sorts strictly before `b`, by code point: the order
/// `String` comparison gives.
pub fn str_lt(a: &str, b: &str) -> (r: bool)
    ensures
        r == lex_lt(a@, b@),
{
    let an = a.unicode_len();
    let bn = b.unicode_len();
    let mut i: usize = 0;
    while i < an && i < bn
        invariant
            an == a@.len(),
            bn == b@.len(),
            i <= an,
            i <= bn,
            forall|j: int| 0 <= j < i ==> a@[j] == b@[j],
        decreases an - i,
    {
        let ca = a.get_char(i);
        let cb = b.get_char(i);
        if ca != cb {
            proof {
                lemma_lex_lt_skip(a@, b@, i as int);
                assert(a@.skip(i as int)[0] == ca);
                assert(b@.skip(i as int)[0] == cb);
            }
            return (ca as u32) < (cb as u32);
        }
        i = i + 1;
    }
    proof {
        if i < bn {
            lemma_lex_lt_skip(a@, b@, i as int);
            assert(a@.skip(i as int) =~= Seq::<char>::empty());
        } else if i < an {
            lemma_lex_lt_skip(a@, b@, i as int);
            assert(b@.skip(i as int) =~= Seq::<char>::empty());
        } else {
            lemma_lex_lt_skip(a@, b@, i as int);
            assert(a@.skip(i as int) =~= Seq::<char>::empty());
            assert(b@.skip(i as int) =~= Seq::<char>::empty());
        }
    }
    an < bn
}

/// Lexicographic order is total: two texts are equal or one sorts
/// strictly before the other.
pub proof fn lemma_lex_trichotomy(a: Seq<char>, b: Seq<char>)
    ensures
        a == b || lex_lt(a, b) || lex_lt(b, a),
    decreases a.len(),
{
    if a.len() == 0 && b.len() == 0 {
        assert(a =~= b);
    } else if a.len() > 0 && b.len() > 0 && a[0] == b[0] {
        lemma_lex_trichotomy(a.drop_first(), b.drop_first());
        if a.drop_first() == b.drop_first() {
            assert(a.len() == b.len());
            assert forall|i: int| 0 <= i < a.len() implies a[i] == b[i] by {
                if i > 0 {
                    assert(a.drop_first()[i - 1] == b.drop_first()[i - 1]);
                }
            }
            assert(a =~= b);
        }
    }
}

/// Lexicographic order is transitive.
pub proof fn lemma_lex_lt_trans(a: Seq<char>, b: Seq<char>, c: Seq<char>)
    requires
        lex_lt(a, b),
        lex_lt(b, c),
    ensures
        lex_lt(a, c),
    decreases a.len(),
{
    if a.len() > 0 && b.len() > 0 && c.len() > 0 {
        if a[0] == b[0] && b[0] == c[0] {
            lemma_lex_lt_trans(a.drop_first(), b.drop_first(), c.drop_first());
        }
    }
}

/// Insert the text `t` into the strictly-sorted `out`, unless an equal
/// text is already there.
fn sorted_insert(out: &mut Vec<String>, t: String)
    requires
        forall|i: int, j: int|
            #![trigger old(out)@[i], old(out)@[j]]
            0 <= i < j < old(out)@.len() ==> lex_lt(old(out)@[i]@, old(out)@[j]@),
    ensures
        forall|i: int, j: int|
            #![trigger final(out)@[i], final(out)@[j]]
            0 <= i < j < final(out)@.len() ==> lex_lt(final(out)@[i]@, final(out)@[j]@),
        forall|x: Seq<char>|
            #![trigger contains_text(final(out)@, x)]
            contains_text(final(out)@, x) <==> (contains_text(old(out)@, x) || x == t@),
{
    let ghost rv = out@;
    let n = out.len();
    let mut p: usize = 0;
    while p < n && str_lt(out[p].as_str(), t.as_str())
        invariant
            n == rv.len(),
            rv == out@,
            p <= n,
            forall|k: int| #![trigger rv[k]] 0 <= k < p ==> lex_lt(rv[k]@, t@),
        decreases n - p,
    {
        p = p + 1;
    }
    if p < n && str_eq(out[p].as_str(), t.as_str()) {
        proof {
            assert(contains_text(out@, t@)) by {
                assert(out@[p as int]@ == t@);
            }
            assert forall|x: Seq<char>| #![trigger contains_text(out@, x)]
                contains_text(out@, x) <==> (contains_text(rv, x) || x == t@) by {
                if x == t@ {
                    assert(out@[p as int]@ == x);
                }
            }
        }
        return;
    }
    proof {
        if p < n {
            lemma_lex_trichotomy(rv[p as int]@, t@);
            assert(lex_lt(t@, rv[p as int]@));
        }
    }
    out.insert(p, t);
    proof {
        let rv2 = out@;
        assert forall|i: int, j: int|
            #![trigger rv2[i], rv2[j]]
            0 <= i < j < rv2.len() implies lex_lt(rv2[i]@, rv2[j]@) by {
            if i < p {
                if j < p {
                    assert(rv2[i]@ == rv[i]@ && rv2[j]@ == rv[j]@);
                    assert(lex_lt(rv[i]@, rv[j]@));
                } else if j == p {
                    assert(rv2[i]@ == rv[i]@ && rv2[j]@ == t@);
                    assert(lex_lt(rv[i]@, t@));
                } else {
                    assert(rv2[i]@ == rv[i]@ && rv2[j]@ == rv[j - 1]@);
                    assert(lex_lt(rv[i]@, rv[j - 1]@));
                }
            } else if i == p {
                assert(rv2[i]@ == t@);
                assert(rv2[j]@ == rv[j - 1]@);
                assert(lex_lt(t@, rv[p as int]@));
                if j - 1 == p {
                } else {
                    assert(lex_lt(rv[p as int]@, rv[j - 1]@));
                    lemma_lex_lt_trans(t@, rv[p as int]@, rv[j - 1]@);
                }
            } else {
                assert(rv2[i]@ == rv[i - 1]@ && rv2[j]@ == rv[j - 1]@);
                assert(lex_lt(rv[i - 1]@, rv[j - 1]@));
            }
        }
        assert forall|x: Seq<char>| #![trigger contains_text(rv2, x)]
            contains_text(rv2, x) <==> (contains_text(rv, x) || x == t@) by {
            if contains_text(rv2, x) {
                let k = choose|k: int| 0 <= k < rv2.len() && #[trigger] rv2[k]@ == x;
                if k < p {
                    assert(rv[k]@ == x);
                } else if k == p {
                } else {
                    assert(rv[k - 1]@ == x);
                }
            }
            if contains_text(rv, x) {
                let k = choose|k: int| 0 <= k < rv.len() && #[trigger] rv[k]@ == x;
                if k < p {
                    assert(rv2[k]@ == x);
                } else {
                    assert(rv2[k + 1]@ == x);
                }
            }
            if x == t@ {
                assert(rv2[p as int]@ == x);
            }
        }
    }
}

/// Whether some text in `v` reads as `x`.
pub open spec fn contains_text(v: Seq<String>, x: Seq<char>) -> bool {
    exists|k: int| 0 <= k < v.len() && #[trigger] v[k]@ == x
}

/// Inserting one text into the collection extends the represented set
/// by exactly that text.
proof fn lemma_membership_after_insert(
    v_old: Seq<String>,
    v_new: Seq<String>,
    taken: Seq<Seq<char>>,
    t: Seq<char>,
)
    requires
        forall|x: Seq<char>|
            #![trigger contains_text(v_old, x)]
            contains_text(v_old, x) <==> taken.contains(x),
        forall|x: Seq<char>|
            #![trigger contains_text(v_new, x)]
            contains_text(v_new, x) <==> (contains_text(v_old, x) || x == t),
    ensures
        forall|x: Seq<char>|
            #![trigger contains_text(v_new, x)]
            contains_text(v_new, x) <==> taken.push(t).contains(x),
{
    assert forall|x: Seq<char>| #![trigger contains_text(v_new, x)]
        contains_text(v_new, x) <==> taken.push(t).contains(x) by {
        if taken.push(t).contains(x) {
            let k = choose|k: int| 0 <= k < taken.push(t).len() && taken.push(t)[k] == x;
            if k < taken.len() {
                assert(taken[k] == x);
                assert(taken.contains(x));
            } else {
                assert(x == t);
            }
        }
        if contains_text(v_new, x) {
            if x == t {
                assert(taken.push(t).last() == x);
                assert(taken.push(t).contains(x));
            } else {
                assert(taken.contains(x));
                let k = choose|k: int| 0 <= k < taken.len() && taken[k] == x;
                assert(taken.push(t)[k] == x);
                assert(taken.push(t).contains(x));
            }
        }
    }
}

/// The characters that break a raw query into tokens: whitespace,
/// semicolons and commas.
pub open spec fn is_term_sep(c: char) -> bool {
    is_space_char(c) || c == ';' || c == ','
}

/// An ASCII letter or digit.
pub open spec fn is_alnum_char(c: char) -> bool {
    let u = c as int;
    (48 <= u <= 57) || (65 <= u <= 90) || (97 <= u <= 122)
}

/// Whether `c` breaks a raw query into tokens.
pub fn is_sep(c: char) -> (r: bool)
    ensures
        r == is_term_sep(c),
{
    is_space(c) || c == ';' || c == ','
}

/// Whether `c` is an ASCII letter or digit.
pub fn is_alnum(c: char) -> (r: bool)
    ensures
        r == is_alnum_char(c),
{
    let u = c as u32;
    (48 <= u && u <= 57) || (65 <= u && u <= 90) || (97 <= u && u <= 122)
}

/// The index of the first separator character of `s`, or its length.
pub open spec fn term_end(s: Seq<char>) -> int
    decreases s.len(),
{
    if s.len() == 0 {
        0
    } else if is_term_sep(s[0]) {
        0
    } else {
        1 + term_end(s.drop_first())
    }
}

/// `term_end` is the first separator index, and in range.
pub proof fn lemma_term_end_at(s: Seq<char>, k: int)
    requires
        0 <= k <= s.len(),
        forall|j: int| 0 <= j < k ==> !is_term_sep(#[trigger] s[j]),
        k == s.len() || is_term_sep(s[k]),
    ensures
        term_end(s) == k,
    decreases k,
{
    if k > 0 {
        assert(s.drop_first() =~= s.skip(1));
        lemma_term_end_at(s.skip(1), k - 1);
    }
}

/// `term_end` stays within the sequence.
pub proof fn lemma_term_end_bounds(s: Seq<char>)
    ensures
        0 <= term_end(s) <= s.len(),
    decreases s.len(),
{
    if s.len() > 0 && !is_term_sep(s[0]) {
        lemma_term_end_bounds(s.drop_first());
    }
}

/// The maximal separator-free runs of a raw query, in order.
pub open spec fn term_tokens(s: Seq<char>) -> Seq<Seq<char>>
    decreases s.len(),
    via term_tokens_decreases
{
    if s.len() == 0 {
        Seq::empty()
    } else if is_term_sep(s[0]) {
        term_tokens(s.drop_first())
    } else {
        let k = term_end(s);
        seq![s.take(k)] + term_tokens(s.skip(k))
    }
}

#[via_fn]
proof fn term_tokens_decreases(s: Seq<char>) {
    if s.len() > 0 && !is_term_sep(s[0]) {
        lemma_term_end_bounds(s.drop_first());
    }
}

/// A token with every non-alphanumeric character removed from both
/// ends.
pub open spec fn strip_start(s: Seq<char>) -> Seq<char>
    decreases s.len(),
{
    if s.len() > 0 && !is_alnum_char(s[0]) {
        strip_start(s.drop_first())
    } else {
        s
    }
}

/// A token with every non-alphanumeric character removed from its end.
pub open spec fn strip_end(s: Seq<char>) -> Seq<char>
    decreases s.len(),
{
    if s.len() > 0 && !is_alnum_char(s.last()) {
        strip_end(s.drop_last())
    } else {
        s
    }
}

/// A token with every non-alphanumeric character removed from both
/// ends.
pub open spec fn strip_non_alnum(s: Seq<char>) -> Seq<char> {
    strip_end(strip_start(s))
}

/// Dropping a fully non-alphanumeric prefix computes `strip_start`.
proof fn lemma_strip_start_skip(s: Seq<char>, i: int)
    requires
        0 <= i <= s.len(),
        forall|j: int| 0 <= j < i ==> !is_alnum_char(#[trigger] s[j]),
        i == s.len() || is_alnum_char(s[i]),
    ensures
        strip_start(s) == s.skip(i),
    decreases i,
{
    if i == 0 {
        assert(s.skip(0) =~= s);
    } else {
        assert(s.drop_first() =~= s.skip(1));
        lemma_strip_start_skip(s.skip(1), i - 1);
        assert(s.skip(1).skip(i - 1) =~= s.skip(i));
    }
}

/// Keeping everything before a fully non-alphanumeric suffix computes
/// `strip_end`.
proof fn lemma_strip_end_take(s: Seq<char>, e: int)
    requires
        0 <= e <= s.len(),
        forall|j: int| e <= j < s.len() ==> !is_alnum_char(#[trigger] s[j]),
        e == 0 || is_alnum_char(s[e - 1]),
    ensures
        strip_end(s) == s.take(e),
    decreases s.len() - e,
{
    if e == s.len() {
        if s.len() > 0 && !is_alnum_char(s.last()) {
            assert(is_alnum_char(s[e - 1]));
            assert(false);
        }
        assert(s.take(e) =~= s);
    } else {
        assert(!is_alnum_char(s.last()));
        lemma_strip_end_take(s.drop_last(), e);
        assert(s.drop_last().take(e) =~= s.take(e));
    }
}

/// `s` with every non-alphanumeric character removed from both ends.
pub fn strip_token<'a>(s: &'a str) -> (r: &'a str)
    ensures
        r@ == strip_non_alnum(s@),
{
    let n = s.unicode_len();
    let mut start: usize = 0;
    while start < n && !is_alnum(s.get_char(start))
        invariant
            n == s@.len(),
            start <= n,
            forall|j: int| 0 <= j < start ==> !is_alnum_char(#[trigger] s@[j]),
        decreases n - start,
    {
        start = start + 1;
    }
    let mut end: usize = n;
    while end > start && !is_alnum(s.get_char(end - 1))
        invariant
            n == s@.len(),
            start <= end <= n,
            forall|j: int| end <= j < n ==> !is_alnum_char(#[trigger] s@[j]),
        decreases end,
    {
        end = end - 1;
    }
    proof {
        lemma_strip_start_skip(s@, start as int);
        let inner = s@.skip(start as int);
        lemma_strip_end_take(inner, end - start);
        assert(inner.take(end - start) =~= s@.subrange(start as int, end as int));
    }
    s.substring_char(start, end)
}

/// Whether a stripped token survives: it must be non-empty, carry no
/// colon (those are field prefixes, not display terms), and a single
/// character must be a digit.
pub open spec fn keep_term(cleaned: Seq<char>) -> bool {
    &&& cleaned.len() > 0
    &&& !(exists|i: int| 0 <= i < cleaned.len() && #[trigger] cleaned[i] == ':')
    &&& !(cleaned.len() == 1 && !is_digit_char(cleaned[0]))
}

/// The stripped tokens that survive cleaning, in order.
pub open spec fn clean_terms(toks: Seq<Seq<char>>) -> Seq<Seq<char>>
    decreases toks.len(),
{
    if toks.len() == 0 {
        Seq::empty()
    } else {
        let cleaned = strip_non_alnum(toks[0]);
        (if keep_term(cleaned) {
            seq![cleaned]
        } else {
            Seq::empty()
        }) + clean_terms(toks.drop_first())
    }
}

/// The highlightable terms a raw query gives rise to: its cleaned
/// tokens, plus the trimmed query itself when it is not empty.
pub open spec fn search_term_pool(q: Seq<char>) -> Seq<Seq<char>> {
    clean_terms(term_tokens(q)) + (if trim_spec(q).len() != 0 {
        seq![trim_spec(q)]
    } else {
        Seq::empty()
    })
}

/// Parse a raw search query into highlightable tokens: the query is
/// split at whitespace, semicolons and commas, each token is stripped
/// of non-alphanumeric edges and cleaned, the trimmed query itself is
/// added, and the result is sorted with duplicates removed.
pub fn parse_search_terms(query: &str) -> (r: Vec<String>)
    ensures
        forall|i: int, j: int|
            #![trigger r@[i], r@[j]]
            0 <= i < j < r@.len() ==> lex_lt(r@[i]@, r@[j]@),
        forall|x: Seq<char>|
            #![trigger contains_text(r@, x)]
            contains_text(r@, x) <==> search_term_pool(query@).contains(x),
{
    let ghost pool = search_term_pool(query@);
    let n = query.unicode_len();
    let mut out: Vec<String> = Vec::new();
    let ghost mut taken: Seq<Seq<char>> = Seq::empty();
    let mut i: usize = 0;
    proof {
        assert(query@.skip(0) =~= query@);
        assert(taken + clean_terms(term_tokens(query@)) =~= clean_terms(term_tokens(query@)));
    }
    while i < n
        invariant
            n == query@.len(),
            i <= n,
            taken + clean_terms(term_tokens(query@.skip(i as int))) == clean_terms(
                term_tokens(query@),
            ),
            forall|i2: int, j2: int|
                #![trigger out@[i2], out@[j2]]
                0 <= i2 < j2 < out@.len() ==> lex_lt(out@[i2]@, out@[j2]@),
            forall|x: Seq<char>|
                #![trigger contains_text(out@, x)]
                contains_text(out@, x) <==> taken.contains(x),
        decreases n - i,
    {
        let ghost taken0 = taken;
        if is_sep(query.get_char(i)) {
            proof {
                assert(query@.skip(i as int)[0] == query@[i as int]);
                assert(query@.skip(i as int).drop_first() =~= query@.skip(i + 1));
            }
            i = i + 1;
        } else {
            let mut j: usize = i + 1;
            while j < n && !is_sep(query.get_char(j))
                invariant
                    n == query@.len(),
                    i < j <= n,
                    forall|k: int| i <= k < j ==> !is_term_sep(#[trigger] query@[k]),
                decreases n - j,
            {
                j = j + 1;
            }
            let token = query.substring_char(i, j);
            proof {
                let tail = query@.skip(i as int);
                assert forall|k: int| 0 <= k < j - i implies !is_term_sep(
                    #[trigger] tail[k],
                ) by {
                    assert(tail[k] == query@[i + k]);
                }
                if j < n {
                    assert(tail[j - i] == query@[j as int]);
                }
                lemma_term_end_at(tail, j - i);
                assert(tail.take(j - i) =~= query@.subrange(i as int, j as int));
                assert(tail.skip(j - i) =~= query@.skip(j as int));
            }
            let cleaned = strip_token(token);
            let keep = term_survives(cleaned);
            let ghost out0 = out@;
            if keep {
                sorted_insert(&mut out, String::from_str(cleaned));
                proof {
                    taken = taken.push(cleaned@);
                    lemma_membership_after_insert(out0, out@, taken0, cleaned@);
                }
            }
            proof {
                let tok = query@.subrange(i as int, j as int);
                let rest = term_tokens(query@.skip(j as int));
                let toks = term_tokens(query@.skip(i as int));
                assert(toks == seq![tok] + rest);
                assert((seq![tok] + rest)[0] == tok);
                assert((seq![tok] + rest).drop_first() =~= rest);
                assert(cleaned@ == strip_non_alnum(tok));
                if keep {
                    assert(clean_terms(toks) == seq![cleaned@] + clean_terms(rest));
                    assert(taken0.push(cleaned@) + clean_terms(rest) =~= taken0 + (seq![cleaned@]
                        + clean_terms(rest)));
                } else {
                    assert(clean_terms(toks) == Seq::<Seq<char>>::empty() + clean_terms(rest));
                    assert(Seq::<Seq<char>>::empty() + clean_terms(rest) =~= clean_terms(rest));
                }
            }
            i = j;
        }
    }
    proof {
        assert(query@.skip(n as int) =~= Seq::<char>::empty());
        assert(taken =~= clean_terms(term_tokens(query@)));
    }
    let trimmed = trim_str(query);
    let ghost out1 = out@;
    if trimmed.unicode_len() != 0 {
        sorted_insert(&mut out, String::from_str(trimmed));
        proof {
            lemma_membership_after_insert(out1, out@, taken, trimmed@);
            taken = taken.push(trimmed@);
        }
    }
    proof {
        assert(taken =~= pool);
    }
    out
}

/// Whether a stripped token survives cleaning.
fn term_survives(cleaned: &str) -> (r: bool)
    ensures
        r == keep_term(cleaned@),
{
    let n = cleaned.unicode_len();
    if n == 0 {
        return false;
    }
    let mut i: usize = 0;
    while i < n
        invariant
            n == cleaned@.len(),
            i <= n,
            forall|j: int| 0 <= j < i ==> #[trigger] cleaned@[j] != ':',
        decreases n - i,
    {
        if cleaned.get_char(i) == ':' {
            return false;
        }
        i = i + 1;
    }
    if n == 1 {
        let c = cleaned.get_char(0);
        return '0' <= c && c <= '9';
    }
    true
}

/// Whether a canonical entry identifier (the letter `A` and six
/// digits) starts at `from`.
pub open spec fn anumber_at(s: Seq<char>, from: int) -> bool {
    &&& 0 <= from
    &&& from + 7 <= s.len()
    &&& s[from] == 'A'
    &&& forall|k: int| from + 1 <= k < from + 7 ==> is_digit_char(#[trigger] s[k])
}

/// The spans of entry identifiers in `s` at or after `from`, leftmost
/// first and non-overlapping: after a match the scan resumes past it.
pub open spec fn anumber_spans(s: Seq<char>, from: int) -> Seq<(int, int)>
    decreases s.len() - from,
{
    if from < 0 || from + 7 > s.len() {
        Seq::empty()
    } else if anumber_at(s, from) {
        seq![(from, from + 7)] + anumber_spans(s, from + 7)
    } else {
        anumber_spans(s, from + 1)
    }
}

/// Find every entry identifier in `text`: the spans of `A` followed by
/// six digits, leftmost first and non-overlapping.
pub fn find_anumbers(text: &str) -> (r: Vec<(usize, usize)>)
    ensures
        r@.map_values(|p: (usize, usize)| (p.0 as int, p.1 as int)) == anumber_spans(text@, 0),
{
    let n = text.unicode_len();
    let mut out: Vec<(usize, usize)> = Vec::new();
    let mut i: usize = 0;
    proof {
        assert(out@.map_values(|p: (usize, usize)| (p.0 as int, p.1 as int)) + anumber_spans(
            text@,
            0,
        ) =~= anumber_spans(text@, 0));
    }
    if n < 7 {
        proof {
            assert(anumber_spans(text@, 0) =~= Seq::<(int, int)>::empty());
        }
        return out;
    }
    while i <= n - 7
        invariant
            n == text@.len(),
            7 <= n,
            i <= n,
            anumber_spans(text@, 0) == out@.map_values(
                |p: (usize, usize)| (p.0 as int, p.1 as int),
            ) + anumber_spans(text@, i as int),
        decreases n - i,
    {
        let ghost out0 = out@.map_values(|p: (usize, usize)| (p.0 as int, p.1 as int));
        let mut hit = text.get_char(i) == 'A';
        let mut k: usize = 1;
        while k < 7 && hit
            invariant
                n == text@.len(),
                i + 7 <= n,
                1 <= k <= 7,
                hit ==> text@[i as int] == 'A',
                hit ==> forall|m: int| i + 1 <= m < i + k ==> is_digit_char(#[trigger] text@[m]),
                !hit ==> !anumber_at(text@, i as int),
            decreases 7 - k + (if hit {
                1int
            } else {
                0int
            }),
        {
            let c = text.get_char(i + k);
            if !('0' <= c && c <= '9') {
                hit = false;
            } else {
                k = k + 1;
            }
        }
        if hit {
            out.push((i, i + 7));
            proof {
                assert(anumber_at(text@, i as int));
                assert(out@.map_values(|p: (usize, usize)| (p.0 as int, p.1 as int)) =~= out0.push(
                    (i as int, i + 7),
                ));
                assert(out0.push((i as int, i + 7)) + anumber_spans(text@, i + 7) =~= out0
                    + anumber_spans(text@, i as int));
            }
            i = i + 7;
        } else {
            proof {
                assert(anumber_spans(text@, i as int) == anumber_spans(text@, i + 1));
            }
            i = i + 1;
        }
    }
    proof {
        assert(anumber_spans(text@, i as int) =~= Seq::<(int, int)>::empty());
    }
    out
}

/// `needle` occurs in `hay` starting at index `i`.
pub open spec fn contains_at(hay: Seq<char>, needle: Seq<char>, i: int) -> bool {
    0 <= i && i + needle.len() <= hay.len() && hay.subrange(i, i + needle.len()) == needle
}

/// `needle` occurs somewhere in `hay`.
pub open spec fn spec_contains(hay: Seq<char>, needle: Seq<char>) -> bool {
    exists|i: int| contains_at(hay, needle, i)
}

/// Substring search: whether `needle` occurs in `hay`.
pub fn contains_sub(hay: &str, needle: &str) -> (r: bool)
    ensures
        r == spec_contains(hay@, needle@),
{
    let hn = hay.unicode_len();
    let nn = needle.unicode_len();
    if nn > hn {
        return false;
    }
    if nn == 0 {
        proof {
            assert(hay@.subrange(0, 0) =~= needle@);
            assert(contains_at(hay@, needle@, 0));
        }
        return true;
    }
    let mut i: usize = 0;
    while i <= hn - nn
        invariant
            hn == hay@.len(),
            nn == needle@.len(),
            1 <= nn <= hn,
            i <= hn - nn + 1,
            forall|j: int| 0 <= j < i ==> !contains_at(hay@, needle@, j),
        decreases hn - nn - i + 1,
    {
        let mut k: usize = 0;
        let mut ok = true;
        while k < nn && ok
            invariant
                hn == hay@.len(),
                nn == needle@.len(),
                i + nn <= hn,
                k <= nn,
                ok ==> forall|m: int| 0 <= m < k ==> hay@[i + m] == needle@[m],
                !ok ==> !contains_at(hay@, needle@, i as int),
            decreases nn - k + (if ok {
                1int
            } else {
                0int
            }),
        {
            if hay.get_char(i + k) != needle.get_char(k) {
                proof {
                    if contains_at(hay@, needle@, i as int) {
                        assert(hay@.subrange(i as int, i + nn)[k as int] == hay@[i + k]);
                    }
                }
                ok = false;
            } else {
                k = k + 1;
            }
        }
        if ok {
            proof {
                assert(hay@.subrange(i as int, i + nn) =~= needle@);
                assert(contains_at(hay@, needle@, i as int));
            }
            return true;
        }
        i = i + 1;
    }
    proof {
        assert forall|j: int| !contains_at(hay@, needle@, j) by {
            if contains_at(hay@, needle@, j) {
                assert(0 <= j < i);
            }
        }
    }
    false
}

} // verus!
