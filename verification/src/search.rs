//! The decision logic around remote search calls: building request
//! queries, classifying the service's answers and estimating result
//! counts. The network calls themselves live with the caller; these
//! functions consume and produce plain values.

use vstd::prelude::*;

use crate::models::spec_a_number;
use crate::models::SearchQuery;
use crate::store::count_i32;
use crate::text::contains_sub;
use crate::text::spec_contains;
use crate::text::str_eq;
use crate::text::trim_spec;
use crate::text::trim_str;
use crate::digits::i64_to_dec_padded;
use crate::digits::parse_i32_str;
use crate::digits::spec_parse_in;

verus! {

/// The name of what `str::to_lowercase` returns for a given text.
pub uninterp spec fn lower_of(s: Seq<char>) -> Seq<char>;

/// Relies on `str::to_lowercase`: the result depends on the input
/// characters alone, and an empty input stays empty.
#[verifier::external_body]
fn lowercase(s: &str) -> (r: String)
    ensures
        r@ == lower_of(s@),
        s@.len() == 0 ==> r@.len() == 0,
{
    s.to_lowercase()
}

/// Categories of entries offered by the rolling display.
#[derive(Clone, Copy, PartialEq, Eq, Structural, Debug)]
pub enum SequenceCategory {
    /// Entries tagged as particularly nice.
    Best,
    /// Entries needing more terms.
    NeedingTerms,
    /// Recent additions.
    Recent,
    /// Entries not yet edited.
    Unedited,
}

impl SequenceCategory {
    /// The category's display label.
    pub fn as_str(&self) -> (r: &'static str)
        ensures
            r@ == match self {
                SequenceCategory::Best => "Best Sequences"@,
                SequenceCategory::NeedingTerms => "Sequences Needing More Terms"@,
                SequenceCategory::Recent => "Recent Additions"@,
                SequenceCategory::Unedited => "Unedited Sequences"@,
            },
    {
        match self {
            SequenceCategory::Best => "Best Sequences",
            SequenceCategory::NeedingTerms => "Sequences Needing More Terms",
            SequenceCategory::Recent => "Recent Additions",
            SequenceCategory::Unedited => "Unedited Sequences",
        }
    }

    /// Every category, in display order.
    pub fn all() -> (r: Vec<SequenceCategory>)
        ensures
            r@ == seq![
                SequenceCategory::Best,
                SequenceCategory::NeedingTerms,
                SequenceCategory::Recent,
                SequenceCategory::Unedited,
            ],
    {
        let mut v: Vec<SequenceCategory> = Vec::new();
        v.push(SequenceCategory::Best);
        v.push(SequenceCategory::NeedingTerms);
        v.push(SequenceCategory::Recent);
        v.push(SequenceCategory::Unedited);
        proof {
            assert(v@ =~= seq![
                SequenceCategory::Best,
                SequenceCategory::NeedingTerms,
                SequenceCategory::Recent,
                SequenceCategory::Unedited,
            ]);
        }
        v
    }

    /// The query that fetches entries of this category.
    pub fn query(&self) -> (r: SearchQuery)
        ensures
            r.query@ == match self {
                SequenceCategory::Best => "keyword:nice"@,
                SequenceCategory::NeedingTerms => "keyword:more"@,
                SequenceCategory::Recent => "keyword:new"@,
                SequenceCategory::Unedited => "keyword:new"@,
            },
            r.format@ == "json"@,
            r.start == 0,
    {
        match self {
            SequenceCategory::Best => SearchQuery::new("keyword:nice"),
            SequenceCategory::NeedingTerms => SearchQuery::new("keyword:more"),
            SequenceCategory::Recent => SearchQuery::new("keyword:new"),
            SequenceCategory::Unedited => SearchQuery::new("keyword:new"),
        }
    }
}

/// The count hint derived from a result page: the sentinel for "many
/// more results exist" when the page came back full, the exact length
/// otherwise.
pub open spec fn spec_estimate_count(n_results: nat, page_size: nat) -> int {
    if n_results == page_size {
        100
    } else {
        count_i32(n_results)
    }
}

/// Estimate the result count for a page of `n_results` entries fetched
/// with `page_size`.
pub fn estimate_count(n_results: usize, page_size: usize) -> (r: i32)
    ensures
        r as int == spec_estimate_count(n_results as nat, page_size as nat),
{
    if n_results == page_size {
        100
    } else if n_results > i32::MAX as usize {
        i32::MAX
    } else {
        n_results as i32
    }
}

/// Whether a response body is the literal `null` answer, modulo
/// surrounding whitespace, which the service uses for "too many or no
/// results".
pub fn body_is_null(body: &str) -> (r: bool)
    ensures
        r == (trim_spec(body@) == "null"@),
{
    str_eq(trim_str(body), "null")
}

/// The user-facing message for a failed search, judged from the
/// lowercased text answer: too many results, no results, or an
/// unreadable answer.
pub open spec fn spec_classify_failure(lower: Seq<char>) -> Seq<char> {
    if spec_contains(lower, "too many to show"@) || spec_contains(
        lower,
        "please refine your search"@,
    ) {
        "Too many results. Please narrow your search."@
    } else if spec_contains(lower, "no results"@) || spec_contains(
        lower,
        "sorry, but the terms do not match"@,
    ) {
        "No results found."@
    } else {
        "Unable to parse OEIS response"@
    }
}

/// The user-facing message for a failed search, judged from the
/// already-lowercased text answer.
pub fn classify_failure_lower(lower: &str) -> (r: String)
    ensures
        r@ == spec_classify_failure(lower@),
{
    if contains_sub(lower, "too many to show") || contains_sub(lower, "please refine your search") {
        String::from_str("Too many results. Please narrow your search.")
    } else if contains_sub(lower, "no results") || contains_sub(
        lower,
        "sorry, but the terms do not match",
    ) {
        String::from_str("No results found.")
    } else {
        String::from_str("Unable to parse OEIS response")
    }
}

/// The user-facing message for a failed search: the service's text
/// answer is lowercased and judged by `classify_failure_lower`.
pub fn extract_error_message(text: &str) -> (r: String)
    ensures
        r@ == spec_classify_failure(lower_of(text@)),
{
    let lower = lowercase(text);
    classify_failure_lower(lower.as_str())
}

/// The identifier text with leading `A` and `a` markers dropped, as
/// read from user input: every leading `A`, then every leading `a`.
pub open spec fn strip_a_prefix(s: Seq<char>) -> Seq<char> {
    let after_upper = drop_leading(s, 'A');
    drop_leading(after_upper, 'a')
}

/// `s` without its leading run of the character `c`.
pub open spec fn drop_leading(s: Seq<char>, c: char) -> Seq<char>
    decreases s.len(),
{
    if s.len() > 0 && s[0] == c {
        drop_leading(s.drop_first(), c)
    } else {
        s
    }
}

/// Dropping a run of `c` of known length computes `drop_leading`.
proof fn lemma_drop_leading_skip(s: Seq<char>, c: char, i: int)
    requires
        0 <= i <= s.len(),
        forall|j: int| 0 <= j < i ==> s[j] == c,
        i == s.len() || s[i] != c,
    ensures
        drop_leading(s, c) == s.skip(i),
    decreases i,
{
    if i == 0 {
        assert(s.skip(0) =~= s);
    } else {
        assert(s.drop_first() =~= s.skip(1));
        lemma_drop_leading_skip(s.skip(1), c, i - 1);
        assert(s.skip(1).skip(i - 1) =~= s.skip(i));
    }
}

/// Read an entry number from user input: leading `A` or `a` markers are
/// dropped and the rest must parse as a 32-bit integer.
pub fn parse_a_number(s: &str) -> (r: Option<i32>)
    ensures
        match spec_parse_in(strip_a_prefix(s@), i32::MIN as int, i32::MAX as int) {
            Some(v) => r matches Some(x) && x as int == v,
            None => r is None,
        },
{
    let n = s.unicode_len();
    let mut i: usize = 0;
    while i < n && s.get_char(i) == 'A'
        invariant
            n == s@.len(),
            i <= n,
            forall|j: int| 0 <= j < i ==> s@[j] == 'A',
        decreases n - i,
    {
        i = i + 1;
    }
    proof {
        lemma_drop_leading_skip(s@, 'A', i as int);
    }
    let ghost after_upper = s@.skip(i as int);
    let mut k: usize = i;
    while k < n && s.get_char(k) == 'a'
        invariant
            n == s@.len(),
            i <= k <= n,
            after_upper == s@.skip(i as int),
            forall|j: int| i <= j < k ==> s@[j] == 'a',
        decreases n - k,
    {
        k = k + 1;
    }
    proof {
        assert forall|j: int| 0 <= j < k - i implies after_upper[j] == 'a' by {
            assert(after_upper[j] == s@[i + j]);
        }
        if k < n {
            assert(after_upper[k - i] == s@[k as int]);
        }
        lemma_drop_leading_skip(after_upper, 'a', k - i);
        assert(after_upper.skip(k - i) =~= s@.skip(k as int));
    }
    let rest = s.substring_char(k, n);
    parse_i32_str(rest)
}

/// The query that fetches the entry with number `number`.
pub fn id_query(number: i32) -> (r: SearchQuery)
    ensures
        r.query@ == "id:"@ + spec_a_number(number as int),
        r.format@ == "json"@,
        r.start == 0,
{
    let mut s = String::from_str("id:A");
    proof {
        reveal_strlit("id:A");
        reveal_strlit("id:");
        reveal_strlit("A");
        assert(s@ =~= "id:"@ + seq!['A']);
    }
    s.append(i64_to_dec_padded(number as i64, 6).as_str());
    proof {
        assert(s@ =~= "id:"@ + spec_a_number(number as int));
    }
    SearchQuery::new(s.as_str())
}

/// The fixed greeting shown at startup.
pub fn fetch_greeting() -> (r: String)
    ensures
        r@
            == "Welcome to the On-Line Encyclopedia of Integer Sequences!\nFounded in 1964 by N. J. A. Sloane.\nCurrently containing over 370,000 sequences.\nhttps://oeis.org"@,
{
    String::from_str(
        "Welcome to the On-Line Encyclopedia of Integer Sequences!\nFounded in 1964 by N. J. A. Sloane.\nCurrently containing over 370,000 sequences.\nhttps://oeis.org",
    )
}

} // verus!
