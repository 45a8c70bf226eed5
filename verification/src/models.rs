//! Plain data model: search queries, sequences and their derived text.

use vstd::prelude::*;
use vstd::seq_lib::*;

use crate::digits::spec_idec;
use crate::digits::spec_parse_in;
use crate::digits::spec_zero_padded;
use crate::digits::i64_to_dec;
use crate::digits::i64_to_dec_padded;
use crate::digits::parse_i32_str;
use crate::digits::parse_i64_str;
use crate::text::split_char;
use crate::text::split_on;
use crate::text::split_ws;
use crate::text::split_whitespace_str;
use crate::text::str_eq;
use crate::text::trim_spec;
use crate::text::trim_str;

verus! {

/// The name of what `urlencoding::encode` returns for a given text.
pub uninterp spec fn url_encoded(s: Seq<char>) -> Seq<char>;

/// Relies on `urlencoding::encode`: percent-encodes every byte of the
/// UTF-8 form except ASCII alphanumerics and `-`, `_`, `.`, `~`; the
/// result depends on the input characters alone, and an empty input
/// stays empty.
#[verifier::external_body]
fn encode_component(s: &str) -> (r: String)
    ensures
        r@ == url_encoded(s@),
        s@.len() == 0 ==> r@.len() == 0,
{
    urlencoding::encode(s).into_owned()
}

/// A query against the remote sequence service, with pagination state.
pub struct SearchQuery {
    /// The raw query text.
    pub query: String,
    /// Response format requested from the service (`json` or `txt`).
    pub format: String,
    /// Pagination offset, counted in results.
    pub start: i32,
}

impl SearchQuery {
    /// A fresh query for `query`, in JSON format, at the first page.
    pub fn new(query: &str) -> (r: SearchQuery)
        ensures
            r.query@ == query@,
            r.format@ == "json"@,
            r.start == 0,
    {
        SearchQuery { query: String::from_str(query), format: String::from_str("json"), start: 0 }
    }

    /// The same query with the response format replaced.
    pub fn with_format(self, format: &str) -> (r: SearchQuery)
        ensures
            r.query == self.query,
            r.format@ == format@,
            r.start == self.start,
    {
        SearchQuery { format: String::from_str(format), ..self }
    }

    /// The same query with the pagination offset replaced.
    pub fn with_start(self, start: i32) -> (r: SearchQuery)
        ensures
            r.query == self.query,
            r.format == self.format,
            r.start == start,
    {
        SearchQuery { start, ..self }
    }

    /// The query for the next result page.
    pub fn next_page(&self, page_size: usize) -> (r: SearchQuery)
        requires
            page_size <= i32::MAX,
            self.start + page_size <= i32::MAX,
        ensures
            r.query@ == self.query@,
            r.format@ == self.format@,
            r.start == self.start + page_size,
    {
        SearchQuery {
            query: self.query.clone(),
            format: self.format.clone(),
            start: self.start + (page_size as i32),
        }
    }

    /// The query for the previous result page; the offset never drops
    /// below zero.
    pub fn prev_page(&self, page_size: usize) -> (r: SearchQuery)
        requires
            page_size <= i32::MAX,
            self.start - page_size >= i32::MIN,
        ensures
            r.query@ == self.query@,
            r.format@ == self.format@,
            r.start == if self.start - page_size >= 0 {
                self.start - page_size
            } else {
                0
            },
    {
        let moved: i32 = self.start - (page_size as i32);
        SearchQuery {
            query: self.query.clone(),
            format: self.format.clone(),
            start: if moved >= 0 {
                moved
            } else {
                0
            },
        }
    }
}

impl SearchQuery {
    /// The full request URL for this query, with the query text
    /// percent-encoded.
    pub fn to_url(&self) -> (r: String)
        ensures
            r@ == "https://oeis.org/search?q="@ + url_encoded(self.query@) + "&fmt="@
                + self.format@ + "&start="@ + spec_idec(self.start as int),
    {
        let mut s = String::from_str("https://oeis.org/search?q=");
        s.append(encode_component(self.query.as_str()).as_str());
        s.append("&fmt=");
        s.append(self.format.as_str());
        s.append("&start=");
        s.append(i64_to_dec(self.start as i64).as_str());
        s
    }
}

impl Clone for SearchQuery {
    /// An exact copy of the query.
    fn clone(&self) -> (r: SearchQuery)
        ensures
            r.query@ == self.query@,
            r.format@ == self.format@,
            r.start == self.start,
    {
        SearchQuery {
            query: self.query.clone(),
            format: self.format.clone(),
            start: self.start,
        }
    }
}

/// The canonical identifier text of entry number `n`: the letter `A`
/// followed by the number zero-padded to six characters.
pub open spec fn spec_a_number(n: int) -> Seq<char> {
    seq!['A'] + spec_zero_padded(n, 6)
}

/// The pieces of a comma-separated data field: each piece trimmed, empty
/// pieces dropped.
pub open spec fn clean_pieces(ps: Seq<Seq<char>>) -> Seq<Seq<char>> {
    ps.map_values(|p: Seq<char>| trim_spec(p)).filter(|p: Seq<char>| p.len() != 0)
}

/// The two leading offset numbers encoded in an offset field: the first
/// two comma-separated pieces parsed as 32-bit integers, falling back to
/// zero and one.
pub open spec fn spec_parse_offset(s: Seq<char>) -> (int, int) {
    let ps = split_on(s, ',');
    let a = match spec_parse_in(trim_spec(ps[0]), i32::MIN as int, i32::MAX as int) {
        Some(v) => v,
        None => 0,
    };
    let b = if ps.len() >= 2 {
        match spec_parse_in(trim_spec(ps[1]), i32::MIN as int, i32::MAX as int) {
            Some(v) => v,
            None => 1,
        }
    } else {
        1
    };
    (a, b)
}

/// The trimmed comma-separated pieces of a keyword field.
pub open spec fn spec_keywords(s: Seq<char>) -> Seq<Seq<char>> {
    split_on(s, ',').map_values(|p: Seq<char>| trim_spec(p))
}

/// One line of an extended-data file: an index and a value separated by
/// whitespace, or nothing for blank lines and `#` comments.
pub open spec fn spec_bfile_parse(line: Seq<char>) -> Option<(int, Seq<char>)> {
    let t = trim_spec(line);
    if t.len() == 0 || t[0] == '#' {
        None
    } else {
        let toks = split_ws(t);
        if toks.len() < 2 {
            None
        } else {
            match spec_parse_in(toks[0], i64::MIN as int, i64::MAX as int) {
                Some(v) => Some((v, toks[1])),
                None => None,
            }
        }
    }
}

/// Copy a list of strings; `String::clone` is exact, so the view is
/// kept.
fn clone_string_vec(v: &Vec<String>) -> (r: Vec<String>)
    ensures
        r@ == v@,
{
    let n = v.len();
    let mut out: Vec<String> = Vec::new();
    let mut i: usize = 0;
    while i < n
        invariant
            n == v@.len(),
            i <= n,
            out@ == v@.take(i as int),
        decreases n - i,
    {
        out.push(v[i].clone());
        proof {
            assert(out@ =~= v@.take(i + 1));
        }
        i = i + 1;
    }
    proof {
        assert(v@.take(n as int) =~= v@);
    }
    out
}

/// One entry of the remote service, with all its metadata fields.
pub struct Sequence {
    /// The entry's stable number (55 stands for A000055).
    pub number: i32,
    /// Alternative identifier codes.
    pub id: String,
    /// Comma-separated entry values.
    pub data: String,
    /// Full descriptive title.
    pub name: String,
    /// Starting indices, comma-separated.
    pub offset: String,
    /// Contextual remarks.
    pub comment: Vec<String>,
    /// Citations and references.
    pub reference: Vec<String>,
    /// External resources.
    pub link: Vec<String>,
    /// Formulas and asymptotic expressions.
    pub formula: Vec<String>,
    /// Illustrative cases.
    pub example: Vec<String>,
    /// Maple implementations.
    pub maple: Vec<String>,
    /// Mathematica implementations.
    pub mathematica: Vec<String>,
    /// Implementations in other languages.
    pub program: Vec<String>,
    /// Cross-references to related entries.
    pub xref: Vec<String>,
    /// Comma-separated classification tags.
    pub keyword: String,
    /// Original submitter attribution.
    pub author: String,
    /// Record creation date.
    pub created: String,
    /// Last revision date.
    pub time: String,
    /// Count of citations.
    pub references: i32,
    /// Edit-history version number.
    pub revision: i32,
}

impl Sequence {
    /// The canonical identifier text, `A` plus the number zero-padded to
    /// six characters.
    pub fn a_number(&self) -> (r: String)
        ensures
            r@ == spec_a_number(self.number as int),
    {
        let mut s = String::from_str("A");
        proof {
            reveal_strlit("A");
            assert(s@ =~= seq!['A']);
        }
        s.append(i64_to_dec_padded(self.number as i64, 6).as_str());
        s
    }

    /// The comma-separated values of the data field, trimmed, with empty
    /// pieces dropped.
    pub fn parse_data(&self) -> (r: Vec<String>)
        ensures
            r@.map_values(|x: String| x@) == clean_pieces(split_on(self.data@, ',')),
    {
        let pieces = split_char(self.data.as_str(), ',');
        let ghost pv = pieces@.map_values(|x: String| x@);
        let n = pieces.len();
        let mut out: Vec<String> = Vec::new();
        let mut i: usize = 0;
        proof {
            reveal(Seq::filter);
            assert(pv.take(0).map_values(|p: Seq<char>| trim_spec(p)) =~= Seq::<
                Seq<char>,
            >::empty());
            assert(out@.map_values(|x: String| x@) =~= clean_pieces(pv.take(0)));
        }
        while i < n
            invariant
                n == pieces@.len(),
                pv == pieces@.map_values(|x: String| x@),
                i <= n,
                out@.map_values(|x: String| x@) == clean_pieces(pv.take(i as int)),
            decreases n - i,
        {
            let ghost out0 = out@.map_values(|x: String| x@);
            let piece = trim_str(pieces[i].as_str());
            let keep = piece.unicode_len() != 0;
            if keep {
                out.push(String::from_str(piece));
            }
            proof {
                reveal(Seq::filter);
                let mapped = |p: Seq<char>| trim_spec(p);
                let m0 = pv.take(i as int).map_values(mapped);
                let m1 = pv.take(i + 1).map_values(mapped);
                assert(m1.drop_last() =~= m0);
                assert(m1.last() == trim_spec(pv[i as int]));
                if keep {
                    assert(out@.map_values(|x: String| x@) =~= out0.push(trim_spec(pv[i as int])));
                    assert(clean_pieces(pv.take(i + 1)) =~= clean_pieces(pv.take(i as int)).push(
                        trim_spec(pv[i as int]),
                    ));
                } else {
                    assert(clean_pieces(pv.take(i + 1)) == clean_pieces(pv.take(i as int)));
                }
            }
            i = i + 1;
        }
        proof {
            assert(pv.take(n as int) =~= pv);
        }
        out
    }

    /// The two leading offset numbers, falling back to zero and one for
    /// missing or unreadable pieces.
    pub fn parse_offset(&self) -> (r: (i32, i32))
        ensures
            r.0 as int == spec_parse_offset(self.offset@).0,
            r.1 as int == spec_parse_offset(self.offset@).1,
    {
        let pieces = split_char(self.offset.as_str(), ',');
        proof {
            assert(pieces@.map_values(|x: String| x@).len() >= 1);
        }
        let start = match parse_i32_str(trim_str(pieces[0].as_str())) {
            Some(v) => v,
            None => 0,
        };
        let first_one = if pieces.len() >= 2 {
            match parse_i32_str(trim_str(pieces[1].as_str())) {
                Some(v) => v,
                None => 1,
            }
        } else {
            1
        };
        (start, first_one)
    }

    /// The classification tags: the comma-separated pieces of the
    /// keyword field, trimmed.
    pub fn keywords(&self) -> (r: Vec<String>)
        ensures
            r@.map_values(|x: String| x@) == spec_keywords(self.keyword@),
    {
        let pieces = split_char(self.keyword.as_str(), ',');
        let ghost pv = pieces@.map_values(|x: String| x@);
        let n = pieces.len();
        let mut out: Vec<String> = Vec::new();
        let mut i: usize = 0;
        while i < n
            invariant
                n == pieces@.len(),
                pv == pieces@.map_values(|x: String| x@),
                i <= n,
                out@.len() == i,
                forall|k: int|
                    #![trigger out@[k]]
                    0 <= k < i ==> out@[k]@ == trim_spec(pv[k]),
            decreases n - i,
        {
            let piece = trim_str(pieces[i].as_str());
            out.push(String::from_str(piece));
            i = i + 1;
        }
        proof {
            assert(out@.map_values(|x: String| x@) =~= pv.map_values(|p: Seq<char>| trim_spec(p)));
        }
        out
    }

    /// Whether the keyword field carries the tag `keyword`.
    pub fn has_keyword(&self, keyword: &str) -> (r: bool)
        ensures
            r == spec_keywords(self.keyword@).contains(keyword@),
    {
        let kws = self.keywords();
        let ghost kv = kws@.map_values(|x: String| x@);
        let n = kws.len();
        let mut i: usize = 0;
        while i < n
            invariant
                n == kv.len(),
                kv == kws@.map_values(|x: String| x@),
                kv == spec_keywords(self.keyword@),
                i <= n,
                forall|k: int| 0 <= k < i ==> #[trigger] kv[k] != keyword@,
            decreases n - i,
        {
            if str_eq(kws[i].as_str(), keyword) {
                proof {
                    assert(kv[i as int] == keyword@);
                }
                return true;
            }
            i = i + 1;
        }
        proof {
            assert(!kv.contains(keyword@));
        }
        false
    }

    /// The web address of this entry.
    pub fn url(&self) -> (r: String)
        ensures
            r@ == "https://oeis.org/"@ + spec_a_number(self.number as int),
    {
        let mut s = String::from_str("https://oeis.org/");
        s.append(self.a_number().as_str());
        s
    }

    /// The web address of this entry's extended-data file.
    pub fn b_file_url(&self) -> (r: String)
        ensures
            r@ == "https://oeis.org/b"@ + spec_zero_padded(self.number as int, 6) + ".txt"@,
    {
        let mut s = String::from_str("https://oeis.org/b");
        s.append(i64_to_dec_padded(self.number as i64, 6).as_str());
        s.append(".txt");
        s
    }
}

impl Clone for Sequence {
    /// An exact copy of the entry.
    fn clone(&self) -> (r: Sequence)
        ensures
            r.number == self.number,
            r.id@ == self.id@,
            r.data@ == self.data@,
            r.name@ == self.name@,
            r.offset@ == self.offset@,
            r.comment@ == self.comment@,
            r.reference@ == self.reference@,
            r.link@ == self.link@,
            r.formula@ == self.formula@,
            r.example@ == self.example@,
            r.maple@ == self.maple@,
            r.mathematica@ == self.mathematica@,
            r.program@ == self.program@,
            r.xref@ == self.xref@,
            r.keyword@ == self.keyword@,
            r.author@ == self.author@,
            r.created@ == self.created@,
            r.time@ == self.time@,
            r.references == self.references,
            r.revision == self.revision,
    {
        Sequence {
            number: self.number,
            id: self.id.clone(),
            data: self.data.clone(),
            name: self.name.clone(),
            offset: self.offset.clone(),
            comment: clone_string_vec(&self.comment),
            reference: clone_string_vec(&self.reference),
            link: clone_string_vec(&self.link),
            formula: clone_string_vec(&self.formula),
            example: clone_string_vec(&self.example),
            maple: clone_string_vec(&self.maple),
            mathematica: clone_string_vec(&self.mathematica),
            program: clone_string_vec(&self.program),
            xref: clone_string_vec(&self.xref),
            keyword: self.keyword.clone(),
            author: self.author.clone(),
            created: self.created.clone(),
            time: self.time.clone(),
            references: self.references,
            revision: self.revision,
        }
    }
}

/// One line of extended entry data: an index and the value at it, the
/// value kept as text to handle arbitrary precision.
pub struct BFileEntry {
    /// The index within the entry.
    pub index: i64,
    /// The value at the index, as text.
    pub value: String,
}

impl BFileEntry {
    /// Parse one line of an extended-data file. Blank lines, `#`
    /// comments, lines without two whitespace-separated fields and lines
    /// whose index is not a 64-bit integer give nothing.
    pub fn parse(line: &str) -> (r: Option<BFileEntry>)
        ensures
            match spec_bfile_parse(line@) {
                Some(iv) => r matches Some(e) && e.index as int == iv.0 && e.value@ == iv.1,
                None => r is None,
            },
    {
        let t = trim_str(line);
        if t.unicode_len() == 0 {
            return None;
        }
        if t.get_char(0) == '#' {
            return None;
        }
        let toks = split_whitespace_str(t);
        if toks.len() < 2 {
            return None;
        }
        let index = match parse_i64_str(toks[0].as_str()) {
            Some(v) => v,
            None => {
                return None;
            },
        };
        let value = toks[1].clone();
        Some(BFileEntry { index, value })
    }
}

/// The entries of a whole extended-data text: each line's parse result,
/// in order, lines that parse to nothing skipped.
pub open spec fn spec_bfile_entries(pieces: Seq<Seq<char>>) -> Seq<(int, Seq<char>)>
    decreases pieces.len(),
{
    if pieces.len() == 0 {
        Seq::empty()
    } else {
        let rest = spec_bfile_entries(pieces.drop_first());
        match spec_bfile_parse(pieces[0]) {
            Some(iv) => seq![iv] + rest,
            None => rest,
        }
    }
}

impl BFileEntry {
    /// Parse a whole extended-data text: the text is split at line
    /// breaks and every line that parses contributes one entry, in
    /// order. Carriage returns at line ends are whitespace and are
    /// trimmed by the line parser.
    pub fn parse_lines(text: &str) -> (r: Vec<BFileEntry>)
        ensures
            r@.map_values(|e: BFileEntry| (e.index as int, e.value@)) == spec_bfile_entries(
                split_on(text@, '\n'),
            ),
    {
        let pieces = split_char(text, '\n');
        let ghost pv = pieces@.map_values(|x: String| x@);
        let n = pieces.len();
        let mut out: Vec<BFileEntry> = Vec::new();
        let mut i: usize = 0;
        proof {
            assert(pv.skip(0) =~= pv);
            assert(out@.map_values(|e: BFileEntry| (e.index as int, e.value@))
                + spec_bfile_entries(pv) =~= spec_bfile_entries(pv));
        }
        while i < n
            invariant
                n == pv.len(),
                pv == pieces@.map_values(|x: String| x@),
                pv == split_on(text@, '\n'),
                i <= n,
                out@.map_values(|e: BFileEntry| (e.index as int, e.value@)) + spec_bfile_entries(
                    pv.skip(i as int),
                ) == spec_bfile_entries(pv),
            decreases n - i,
        {
            let ghost out0 = out@.map_values(|e: BFileEntry| (e.index as int, e.value@));
            proof {
                assert(pv.skip(i as int)[0] == pv[i as int]);
                assert(pv.skip(i as int).drop_first() =~= pv.skip(i + 1));
            }
            match BFileEntry::parse(pieces[i].as_str()) {
                Some(entry) => {
                    out.push(entry);
                    proof {
                        let iv = spec_bfile_parse(pv[i as int]).unwrap();
                        assert(out@.map_values(|e: BFileEntry| (e.index as int, e.value@))
                            =~= out0.push(iv));
                        assert(out0.push(iv) + spec_bfile_entries(pv.skip(i + 1)) =~= out0
                            + spec_bfile_entries(pv.skip(i as int)));
                    }
                },
                None => {
                    proof {
                        assert(spec_bfile_entries(pv.skip(i as int)) == spec_bfile_entries(
                            pv.skip(i + 1),
                        ));
                    }
                },
            }
            i = i + 1;
        }
        proof {
            assert(pv.skip(n as int) =~= Seq::<Seq<char>>::empty());
        }
        out
    }
}

/// A page of results from the remote service, with the pagination hint
/// the client derives for it.
pub struct OEISResponse {
    /// Estimated result count: the page length when the page was short,
    /// a sentinel when more results may exist.
    pub count: i32,
    /// The entries of the page, absent when the service returned none.
    pub results: Option<Vec<Sequence>>,
}

/// The shape of the service's search answer: either a bare array of
/// entries or an object wrapping them.
pub enum OEISSearchResponse {
    /// A bare array of entries.
    Array(Vec<Sequence>),
    /// An object holding the entries under a results field.
    Object(ResponseObject),
}

/// The object form of a search answer.
pub struct ResponseObject {
    /// The entries of the answer.
    pub results: Vec<Sequence>,
}

/// The comma-separated values of a data text, trimmed, with empty
/// pieces dropped: the pipe-friendly value list of the command line.
pub fn parse_sequence_values(data: &str) -> (r: Vec<String>)
    ensures
        r@.map_values(|x: String| x@) == clean_pieces(split_on(data@, ',')),
{
    let pieces = split_char(data, ',');
    let ghost pv = pieces@.map_values(|x: String| x@);
    let n = pieces.len();
    let mut out: Vec<String> = Vec::new();
    let mut i: usize = 0;
    proof {
        reveal(Seq::filter);
        assert(pv.take(0).map_values(|p: Seq<char>| trim_spec(p)) =~= Seq::<Seq<char>>::empty());
        assert(out@.map_values(|x: String| x@) =~= clean_pieces(pv.take(0)));
    }
    while i < n
        invariant
            n == pieces@.len(),
            pv == pieces@.map_values(|x: String| x@),
            i <= n,
            out@.map_values(|x: String| x@) == clean_pieces(pv.take(i as int)),
        decreases n - i,
    {
        let ghost out0 = out@.map_values(|x: String| x@);
        let piece = trim_str(pieces[i].as_str());
        let keep = piece.unicode_len() != 0;
        if keep {
            out.push(String::from_str(piece));
        }
        proof {
            reveal(Seq::filter);
            let mapped = |p: Seq<char>| trim_spec(p);
            let m0 = pv.take(i as int).map_values(mapped);
            let m1 = pv.take(i + 1).map_values(mapped);
            assert(m1.drop_last() =~= m0);
            assert(m1.last() == trim_spec(pv[i as int]));
            if keep {
                assert(out@.map_values(|x: String| x@) =~= out0.push(trim_spec(pv[i as int])));
                assert(clean_pieces(pv.take(i + 1)) =~= clean_pieces(pv.take(i as int)).push(
                    trim_spec(pv[i as int]),
                ));
            } else {
                assert(clean_pieces(pv.take(i + 1)) == clean_pieces(pv.take(i as int)));
            }
        }
        i = i + 1;
    }
    proof {
        assert(pv.take(n as int) =~= pv);
    }
    out
}

impl OEISSearchResponse {
    /// The entries of the answer, whichever shape it came in.
    pub fn into_sequences(self) -> (r: Vec<Sequence>)
        ensures
            r == match self {
                OEISSearchResponse::Array(list) => list,
                OEISSearchResponse::Object(obj) => obj.results,
            },
    {
        match self {
            OEISSearchResponse::Array(list) => list,
            OEISSearchResponse::Object(obj) => obj.results,
        }
    }
}

} // verus!
