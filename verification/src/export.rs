//! Plain-text export of an entry: CSV, readable text, Markdown and the
//! two-column extended-data format. Each export is specified as the
//! exact text it produces. JSON export relies on a serializer and lives
//! with the caller.

use vstd::prelude::*;

use crate::digits::spec_idec;
use crate::digits::spec_udec;
use crate::digits::i64_to_dec;
use crate::digits::u64_to_dec;
use crate::models::spec_a_number;
use crate::models::BFileEntry;
use crate::models::Sequence;
use crate::text::split_char;
use crate::text::split_on;
use crate::text::trim_spec;
use crate::text::trim_str;

verus! {

/// The export formats offered.
#[derive(Debug, Clone, PartialEq, Eq, Structural)]
pub enum ExportFormat {
    /// Full JSON.
    Json,
    /// Index and value pairs.
    Csv,
    /// Readable plain text.
    Txt,
    /// Markdown.
    Markdown,
    /// The two-column extended-data format.
    BFile,
}

impl ExportFormat {
    /// The format's display label.
    pub fn as_str(&self) -> (r: &'static str)
        ensures
            r@ == match self {
                ExportFormat::Json => "JSON"@,
                ExportFormat::Csv => "CSV"@,
                ExportFormat::Txt => "TXT"@,
                ExportFormat::Markdown => "Markdown"@,
                ExportFormat::BFile => "B-file"@,
            },
    {
        match self {
            ExportFormat::Json => "JSON",
            ExportFormat::Csv => "CSV",
            ExportFormat::Txt => "TXT",
            ExportFormat::Markdown => "Markdown",
            ExportFormat::BFile => "B-file",
        }
    }

    /// The file extension used for the format.
    pub fn extension(&self) -> (r: &'static str)
        ensures
            r@ == match self {
                ExportFormat::Json => "json"@,
                ExportFormat::Csv => "csv"@,
                ExportFormat::Txt => "txt"@,
                ExportFormat::Markdown => "md"@,
                ExportFormat::BFile => "txt"@,
            },
    {
        match self {
            ExportFormat::Json => "json",
            ExportFormat::Csv => "csv",
            ExportFormat::Txt => "txt",
            ExportFormat::Markdown => "md",
            ExportFormat::BFile => "txt",
        }
    }
}

/// One CSV row: the identifier, the index and the trimmed value.
pub open spec fn csv_line(an: Seq<char>, i: int, piece: Seq<char>) -> Seq<char> {
    an + ","@ + spec_udec(i as nat) + ","@ + trim_spec(piece)
}

/// The CSV rows for the pieces `ps` starting at index `i`, each
/// preceded by a line break.
pub open spec fn csv_tail(an: Seq<char>, ps: Seq<Seq<char>>, i: int) -> Seq<char>
    decreases ps.len(),
{
    if ps.len() == 0 {
        Seq::empty()
    } else {
        "\n"@ + csv_line(an, i, ps[0]) + csv_tail(an, ps.drop_first(), i + 1)
    }
}

/// The whole CSV export: a header line, then one row per comma-separated
/// piece of the data field.
pub open spec fn spec_export_csv(s: Sequence) -> Seq<char> {
    let an = spec_a_number(s.number as int);
    let ps = split_on(s.data@, ',');
    "A-number,Index,Value\n"@ + csv_line(an, 0, ps[0]) + csv_tail(an, ps.skip(1), 1)
}

/// Export the entry as CSV, one row per value.
pub fn export_to_csv(s: &Sequence) -> (r: String)
    ensures
        r@ == spec_export_csv(*s),
{
    let ghost an = spec_a_number(s.number as int);
    let a_number = s.a_number();
    let pieces = split_char(s.data.as_str(), ',');
    let ghost pv = pieces@.map_values(|x: String| x@);
    let n = pieces.len();
    proof {
        assert(split_on(s.data@, ',').len() >= 1);
        assert(pv.len() >= 1);
    }
    let mut out = String::from_str("A-number,Index,Value\n");
    out.append(a_number.as_str());
    out.append(",");
    out.append("0");
    out.append(",");
    out.append(trim_str(pieces[0].as_str()));
    proof {
        reveal_strlit("0");
        assert(spec_udec(0) =~= "0"@);
        assert(out@ =~= "A-number,Index,Value\n"@ + csv_line(an, 0, pv[0]));
    }
    let mut i: usize = 1;
    while i < n
        invariant
            n == pv.len(),
            pv == pieces@.map_values(|x: String| x@),
            an == spec_a_number(s.number as int),
            a_number@ == an,
            1 <= i <= n,
            out@ + csv_tail(an, pv.skip(i as int), i as int) == spec_export_csv(*s),
            pv == split_on(s.data@, ','),
        decreases n - i,
    {
        let ghost out0 = out@;
        out.append("\n");
        out.append(a_number.as_str());
        out.append(",");
        out.append(u64_to_dec(i as u64).as_str());
        out.append(",");
        out.append(trim_str(pieces[i].as_str()));
        proof {
            assert(pv.skip(i as int)[0] == pv[i as int]);
            assert(pv.skip(i as int).drop_first() =~= pv.skip(i + 1));
            assert(out@ =~= out0 + ("\n"@ + csv_line(an, i as int, pv[i as int])));
            assert(out0 + ("\n"@ + csv_line(an, i as int, pv[i as int])) + csv_tail(
                an,
                pv.skip(i + 1),
                i + 1,
            ) =~= out0 + csv_tail(an, pv.skip(i as int), i as int));
        }
        i = i + 1;
    }
    proof {
        assert(pv.skip(n as int) =~= Seq::<Seq<char>>::empty());
    }
    out
}

/// The items of a list section, each indented by two spaces on its own
/// line.
pub open spec fn indent_lines(items: Seq<Seq<char>>) -> Seq<char>
    decreases items.len(),
{
    if items.len() == 0 {
        Seq::empty()
    } else {
        "  "@ + items[0] + "\n"@ + indent_lines(items.drop_first())
    }
}

/// A titled list section: nothing for an empty list, else the title,
/// the indented items and a blank line.
pub open spec fn text_section(title: Seq<char>, items: Seq<Seq<char>>) -> Seq<char> {
    if items.len() == 0 {
        Seq::empty()
    } else {
        title + indent_lines(items) + "\n"@
    }
}

/// A run of `n` equals signs, for underlining.
pub open spec fn eq_repeat(n: int) -> Seq<char> {
    Seq::new(
        if n < 0 {
            0
        } else {
            n as nat
        },
        |i: int| '=',
    )
}

/// The underline width for the heading: the byte lengths of the name
/// and the identifier plus two, clamped to the machine's range.
pub open spec fn txt_rule_width(s: Sequence) -> int {
    let nb = vstd::utf8::encode_utf8(s.name@).len() as usize;
    let ab = vstd::utf8::encode_utf8(spec_a_number(s.number as int)).len() as usize;
    if nb + ab + 2 > usize::MAX {
        usize::MAX as int
    } else {
        nb + ab + 2
    }
}

/// The whole readable-text export: heading with underline, the offset,
/// keyword and author lines, the data, the list sections, and the
/// source address.
pub open spec fn spec_export_txt(s: Sequence) -> Seq<char> {
    let an = spec_a_number(s.number as int);
    an + ": "@ + s.name@ + "\n"@ + eq_repeat(txt_rule_width(s)) + "\n\n"@ + "Offset: "@ + s.offset@
        + "\n"@ + "Keywords: "@ + s.keyword@ + "\n"@ + (if s.author@.len() == 0 {
        Seq::<char>::empty()
    } else {
        "Author: "@ + s.author@ + "\n"@
    }) + "\n"@ + "Data:\n"@ + s.data@ + "\n\n"@ + text_section(
        "Comments:\n"@,
        s.comment@.map_values(|x: String| x@),
    ) + text_section("Formulas:\n"@, s.formula@.map_values(|x: String| x@)) + text_section(
        "References:\n"@,
        s.reference@.map_values(|x: String| x@),
    ) + text_section("Links:\n"@, s.link@.map_values(|x: String| x@)) + text_section(
        "Cross-references:\n"@,
        s.xref@.map_values(|x: String| x@),
    ) + "\nSource: "@ + "https://oeis.org/"@ + an + "\n"@
}

/// Append a titled list section to `out`.
fn append_text_section(out: &mut String, title: &str, items: &Vec<String>)
    ensures
        final(out)@ == old(out)@ + text_section(title@, items@.map_values(|x: String| x@)),
{
    let ghost iv = items@.map_values(|x: String| x@);
    let ghost base = out@;
    if items.len() == 0 {
        proof {
            assert(out@ =~= base + text_section(title@, iv));
        }
        return;
    }
    out.append(title);
    let n = items.len();
    let mut i: usize = 0;
    proof {
        assert(iv.skip(0) =~= iv);
    }
    while i < n
        invariant
            n == iv.len(),
            iv == items@.map_values(|x: String| x@),
            i <= n,
            out@ + indent_lines(iv.skip(i as int)) == base + title@ + indent_lines(iv),
        decreases n - i,
    {
        let ghost out0 = out@;
        out.append("  ");
        out.append(items[i].as_str());
        out.append("\n");
        proof {
            assert(iv.skip(i as int)[0] == iv[i as int]);
            assert(iv.skip(i as int).drop_first() =~= iv.skip(i + 1));
            assert(out@ =~= out0 + ("  "@ + iv[i as int] + "\n"@));
            assert(out0 + ("  "@ + iv[i as int] + "\n"@) + indent_lines(iv.skip(i + 1)) =~= out0
                + indent_lines(iv.skip(i as int)));
        }
        i = i + 1;
    }
    out.append("\n");
    proof {
        assert(iv.skip(n as int) =~= Seq::<Seq<char>>::empty());
        assert(out@ =~= base + text_section(title@, iv));
    }
}

/// Export the entry as readable plain text.
pub fn export_to_txt(s: &Sequence) -> (r: String)
    ensures
        r@ == spec_export_txt(*s),
{
    let ghost an = spec_a_number(s.number as int);
    let a_number = s.a_number();
    let mut out = String::new();
    out.append(a_number.as_str());
    out.append(": ");
    out.append(s.name.as_str());
    out.append("\n");
    proof {
        assert(out@ =~= an + ": "@ + s.name@ + "\n"@);
    }
    let name_b = s.name.as_str().len();
    let an_b = a_number.as_str().len();
    let width = if an_b > usize::MAX - 2 || name_b > usize::MAX - 2 - an_b {
        usize::MAX
    } else {
        name_b + an_b + 2
    };
    proof {
        assert(width as int == txt_rule_width(*s));
    }
    let ghost head = out@;
    let mut k: usize = 0;
    proof {
        assert(out@ =~= head + eq_repeat(0));
    }
    while k < width
        invariant
            out@ == head + eq_repeat(k as int),
            k <= width,
        decreases width - k,
    {
        out.append("=");
        proof {
            reveal_strlit("=");
            assert(out@ =~= head + eq_repeat(k + 1));
        }
        k = k + 1;
    }
    out.append("\n\n");
    out.append("Offset: ");
    out.append(s.offset.as_str());
    out.append("\n");
    out.append("Keywords: ");
    out.append(s.keyword.as_str());
    out.append("\n");
    let ghost mid0 = head + eq_repeat(width as int) + "\n\n"@ + "Offset: "@ + s.offset@ + "\n"@
        + "Keywords: "@ + s.keyword@ + "\n"@;
    proof {
        assert(out@ =~= mid0);
    }
    if !s.author.as_str().is_empty() {
        out.append("Author: ");
        out.append(s.author.as_str());
        out.append("\n");
    }
    proof {
        assert(out@ =~= mid0 + (if s.author@.len() == 0 {
            Seq::<char>::empty()
        } else {
            "Author: "@ + s.author@ + "\n"@
        }));
    }
    out.append("\n");
    out.append("Data:\n");
    out.append(s.data.as_str());
    out.append("\n\n");
    append_text_section(&mut out, "Comments:\n", &s.comment);
    append_text_section(&mut out, "Formulas:\n", &s.formula);
    append_text_section(&mut out, "References:\n", &s.reference);
    append_text_section(&mut out, "Links:\n", &s.link);
    append_text_section(&mut out, "Cross-references:\n", &s.xref);
    out.append("\nSource: ");
    out.append("https://oeis.org/");
    out.append(a_number.as_str());
    out.append("\n");
    proof {
        assert(out@ =~= spec_export_txt(*s));
    }
    out
}

/// Bulleted lines, one per item.
pub open spec fn md_bullets(items: Seq<Seq<char>>) -> Seq<char>
    decreases items.len(),
{
    if items.len() == 0 {
        Seq::empty()
    } else {
        "- "@ + items[0] + "\n"@ + md_bullets(items.drop_first())
    }
}

/// A bulleted section: nothing for an empty list, else the title, the
/// bulleted items and a blank line.
pub open spec fn md_bullet_section(title: Seq<char>, items: Seq<Seq<char>>) -> Seq<char> {
    if items.len() == 0 {
        Seq::empty()
    } else {
        title + md_bullets(items) + "\n"@
    }
}

/// Paragraphs, one per item, each followed by a blank line.
pub open spec fn md_paras(items: Seq<Seq<char>>) -> Seq<char>
    decreases items.len(),
{
    if items.len() == 0 {
        Seq::empty()
    } else {
        items[0] + "\n\n"@ + md_paras(items.drop_first())
    }
}

/// Fenced code blocks, one per item, each opened by `open` and closed
/// by a fence and a blank line.
pub open spec fn md_fenced(open: Seq<char>, items: Seq<Seq<char>>) -> Seq<char>
    decreases items.len(),
{
    if items.len() == 0 {
        Seq::empty()
    } else {
        open + items[0] + "\n```\n\n"@ + md_fenced(open, items.drop_first())
    }
}

/// The heading, data and metadata part of the Markdown export.
pub open spec fn spec_md_head(s: Sequence) -> Seq<char> {
    let an = spec_a_number(s.number as int);
    "# "@ + an + ": "@ + s.name@ + "\n\n"@ + "## Sequence Data\n\n"@ + "`"@ + s.data@ + "`\n\n"@
        + "## Metadata\n\n"@ + "- **A-number**: "@ + an + "\n"@ + "- **Offset**: "@ + s.offset@
        + "\n"@ + "- **Keywords**: "@ + s.keyword@ + "\n"@ + (if s.author@.len() == 0 {
        Seq::<char>::empty()
    } else {
        "- **Author**: "@ + s.author@ + "\n"@
    }) + (if s.created@.len() == 0 {
        Seq::<char>::empty()
    } else {
        "- **Created**: "@ + s.created@ + "\n"@
    }) + (if s.time@.len() == 0 {
        Seq::<char>::empty()
    } else {
        "- **Last Modified**: "@ + s.time@ + "\n"@
    }) + "\n"@
}

/// The code part of the Markdown export: nothing when no code is
/// attached, else a section with one subsection per language.
pub open spec fn spec_md_code(s: Sequence) -> Seq<char> {
    let maple = s.maple@.map_values(|x: String| x@);
    let mathematica = s.mathematica@.map_values(|x: String| x@);
    let program = s.program@.map_values(|x: String| x@);
    if maple.len() == 0 && mathematica.len() == 0 && program.len() == 0 {
        Seq::<char>::empty()
    } else {
        "## Code\n\n"@ + (if maple.len() == 0 {
            Seq::<char>::empty()
        } else {
            "### Maple\n\n"@ + md_fenced("```maple\n"@, maple)
        }) + (if mathematica.len() == 0 {
            Seq::<char>::empty()
        } else {
            "### Mathematica\n\n"@ + md_fenced("```mathematica\n"@, mathematica)
        }) + (if program.len() == 0 {
            Seq::<char>::empty()
        } else {
            "### Other Programs\n\n"@ + md_fenced("```\n"@, program)
        })
    }
}

/// The whole Markdown export: heading, data, metadata list, the
/// optional comment, formula, example and code sections, the reference
/// sections, and the source footer.
pub open spec fn spec_export_markdown(s: Sequence) -> Seq<char> {
    let an = spec_a_number(s.number as int);
    let comment = s.comment@.map_values(|x: String| x@);
    let formula = s.formula@.map_values(|x: String| x@);
    let example = s.example@.map_values(|x: String| x@);
    let reference = s.reference@.map_values(|x: String| x@);
    let link = s.link@.map_values(|x: String| x@);
    let xref = s.xref@.map_values(|x: String| x@);
    spec_md_head(s) + (if comment.len() == 0 {
        Seq::<char>::empty()
    } else {
        "## Comments\n\n"@ + md_paras(comment)
    }) + md_bullet_section("## Formulas\n\n"@, formula) + (if example.len() == 0 {
        Seq::<char>::empty()
    } else {
        "## Examples\n\n"@ + md_fenced("```\n"@, example)
    }) + spec_md_code(s) + md_bullet_section("## References\n\n"@, reference) + md_bullet_section(
        "## Links\n\n"@,
        link,
    ) + md_bullet_section("## Cross-references\n\n"@, xref) + "---\n\n"@ + "**Source**: ["@ + an
        + "]("@ + "https://oeis.org/"@ + an + ")\n\n"@
        + "*Data from the On-Line Encyclopedia of Integer Sequences (OEIS)*\n"@
}

/// Append a bulleted section to `out`.
fn append_md_bullet_section(out: &mut String, title: &str, items: &Vec<String>)
    ensures
        final(out)@ == old(out)@ + md_bullet_section(title@, items@.map_values(|x: String| x@)),
{
    let ghost iv = items@.map_values(|x: String| x@);
    let ghost base = out@;
    if items.len() == 0 {
        proof {
            assert(out@ =~= base + md_bullet_section(title@, iv));
        }
        return;
    }
    out.append(title);
    let n = items.len();
    let mut i: usize = 0;
    proof {
        assert(iv.skip(0) =~= iv);
    }
    while i < n
        invariant
            n == iv.len(),
            iv == items@.map_values(|x: String| x@),
            i <= n,
            out@ + md_bullets(iv.skip(i as int)) == base + title@ + md_bullets(iv),
        decreases n - i,
    {
        let ghost out0 = out@;
        out.append("- ");
        out.append(items[i].as_str());
        out.append("\n");
        proof {
            assert(iv.skip(i as int)[0] == iv[i as int]);
            assert(iv.skip(i as int).drop_first() =~= iv.skip(i + 1));
            assert(out@ =~= out0 + ("- "@ + iv[i as int] + "\n"@));
            assert(out0 + ("- "@ + iv[i as int] + "\n"@) + md_bullets(iv.skip(i + 1)) =~= out0
                + md_bullets(iv.skip(i as int)));
        }
        i = i + 1;
    }
    out.append("\n");
    proof {
        assert(iv.skip(n as int) =~= Seq::<Seq<char>>::empty());
        assert(out@ =~= base + md_bullet_section(title@, iv));
    }
}

/// Append one paragraph per item to `out`.
fn append_md_paras(out: &mut String, items: &Vec<String>)
    ensures
        final(out)@ == old(out)@ + md_paras(items@.map_values(|x: String| x@)),
{
    let ghost iv = items@.map_values(|x: String| x@);
    let ghost base = out@;
    let n = items.len();
    let mut i: usize = 0;
    proof {
        assert(iv.skip(0) =~= iv);
        assert(out@ =~= base);
    }
    while i < n
        invariant
            n == iv.len(),
            iv == items@.map_values(|x: String| x@),
            i <= n,
            out@ + md_paras(iv.skip(i as int)) == base + md_paras(iv),
        decreases n - i,
    {
        let ghost out0 = out@;
        out.append(items[i].as_str());
        out.append("\n\n");
        proof {
            assert(iv.skip(i as int)[0] == iv[i as int]);
            assert(iv.skip(i as int).drop_first() =~= iv.skip(i + 1));
            assert(out@ =~= out0 + (iv[i as int] + "\n\n"@));
            assert(out0 + (iv[i as int] + "\n\n"@) + md_paras(iv.skip(i + 1)) =~= out0 + md_paras(
                iv.skip(i as int),
            ));
        }
        i = i + 1;
    }
    proof {
        assert(iv.skip(n as int) =~= Seq::<Seq<char>>::empty());
    }
}

/// Append one fenced code block per item to `out`, each opened with
/// `open`.
fn append_md_fenced(out: &mut String, open: &str, items: &Vec<String>)
    ensures
        final(out)@ == old(out)@ + md_fenced(open@, items@.map_values(|x: String| x@)),
{
    let ghost iv = items@.map_values(|x: String| x@);
    let ghost base = out@;
    let n = items.len();
    let mut i: usize = 0;
    proof {
        assert(iv.skip(0) =~= iv);
    }
    while i < n
        invariant
            n == iv.len(),
            iv == items@.map_values(|x: String| x@),
            i <= n,
            out@ + md_fenced(open@, iv.skip(i as int)) == base + md_fenced(open@, iv),
        decreases n - i,
    {
        let ghost out0 = out@;
        out.append(open);
        out.append(items[i].as_str());
        out.append("\n```\n\n");
        proof {
            assert(iv.skip(i as int)[0] == iv[i as int]);
            assert(iv.skip(i as int).drop_first() =~= iv.skip(i + 1));
            assert(out@ =~= out0 + (open@ + iv[i as int] + "\n```\n\n"@));
            assert(out0 + (open@ + iv[i as int] + "\n```\n\n"@) + md_fenced(
                open@,
                iv.skip(i + 1),
            ) =~= out0 + md_fenced(open@, iv.skip(i as int)));
        }
        i = i + 1;
    }
    proof {
        assert(iv.skip(n as int) =~= Seq::<Seq<char>>::empty());
    }
}

/// The heading, data and metadata part of the Markdown export.
fn markdown_head(s: &Sequence) -> (r: String)
    ensures
        r@ == spec_md_head(*s),
{
    let a_number = s.a_number();
    let mut out = String::new();
    out.append("# ");
    proof {
        assert(out@ =~= "# "@);
    }
    out.append(a_number.as_str());
    out.append(": ");
    out.append(s.name.as_str());
    out.append("\n\n");
    out.append("## Sequence Data\n\n");
    out.append("`");
    out.append(s.data.as_str());
    out.append("`\n\n");
    out.append("## Metadata\n\n");
    out.append("- **A-number**: ");
    out.append(a_number.as_str());
    out.append("\n");
    out.append("- **Offset**: ");
    out.append(s.offset.as_str());
    out.append("\n");
    out.append("- **Keywords**: ");
    out.append(s.keyword.as_str());
    out.append("\n");
    let ghost mid0 = out@;
    if !s.author.as_str().is_empty() {
        out.append("- **Author**: ");
        out.append(s.author.as_str());
        out.append("\n");
    }
    proof {
        assert(out@ =~= mid0 + (if s.author@.len() == 0 {
            Seq::<char>::empty()
        } else {
            "- **Author**: "@ + s.author@ + "\n"@
        }));
    }
    let ghost mid1 = out@;
    if !s.created.as_str().is_empty() {
        out.append("- **Created**: ");
        out.append(s.created.as_str());
        out.append("\n");
    }
    proof {
        assert(out@ =~= mid1 + (if s.created@.len() == 0 {
            Seq::<char>::empty()
        } else {
            "- **Created**: "@ + s.created@ + "\n"@
        }));
    }
    let ghost mid2 = out@;
    if !s.time.as_str().is_empty() {
        out.append("- **Last Modified**: ");
        out.append(s.time.as_str());
        out.append("\n");
    }
    proof {
        assert(out@ =~= mid2 + (if s.time@.len() == 0 {
            Seq::<char>::empty()
        } else {
            "- **Last Modified**: "@ + s.time@ + "\n"@
        }));
    }
    out.append("\n");
    proof {
        assert(out@ == spec_md_head(*s));
    }
    out
}

/// Append the code part of the Markdown export to `out`.
fn append_markdown_code(out: &mut String, s: &Sequence)
    ensures
        final(out)@ == old(out)@ + spec_md_code(*s),
{
    let ghost base = out@;
    if s.maple.len() == 0 && s.mathematica.len() == 0 && s.program.len() == 0 {
        proof {
            assert(out@ =~= base + spec_md_code(*s));
        }
        return;
    }
    out.append("## Code\n\n");
    let ghost code0 = out@;
    if s.maple.len() > 0 {
        out.append("### Maple\n\n");
        append_md_fenced(out, "```maple\n", &s.maple);
    }
    proof {
        let maple = s.maple@.map_values(|x: String| x@);
        assert(out@ =~= code0 + (if maple.len() == 0 {
            Seq::<char>::empty()
        } else {
            "### Maple\n\n"@ + md_fenced("```maple\n"@, maple)
        }));
    }
    let ghost code1 = out@;
    if s.mathematica.len() > 0 {
        out.append("### Mathematica\n\n");
        append_md_fenced(out, "```mathematica\n", &s.mathematica);
    }
    proof {
        let mathematica = s.mathematica@.map_values(|x: String| x@);
        assert(out@ =~= code1 + (if mathematica.len() == 0 {
            Seq::<char>::empty()
        } else {
            "### Mathematica\n\n"@ + md_fenced("```mathematica\n"@, mathematica)
        }));
    }
    let ghost code2 = out@;
    if s.program.len() > 0 {
        out.append("### Other Programs\n\n");
        append_md_fenced(out, "```\n", &s.program);
    }
    proof {
        let program = s.program@.map_values(|x: String| x@);
        assert(out@ =~= code2 + (if program.len() == 0 {
            Seq::<char>::empty()
        } else {
            "### Other Programs\n\n"@ + md_fenced("```\n"@, program)
        }));
        assert(out@ =~= base + spec_md_code(*s));
    }
}

/// Export the entry as Markdown.
pub fn export_to_markdown(s: &Sequence) -> (r: String)
    ensures
        r@ == spec_export_markdown(*s),
{
    let a_number = s.a_number();
    let mut out = markdown_head(s);
    let ghost mid3 = out@;
    if s.comment.len() > 0 {
        out.append("## Comments\n\n");
        append_md_paras(&mut out, &s.comment);
    }
    proof {
        let comment = s.comment@.map_values(|x: String| x@);
        assert(out@ =~= mid3 + (if comment.len() == 0 {
            Seq::<char>::empty()
        } else {
            "## Comments\n\n"@ + md_paras(comment)
        }));
    }
    append_md_bullet_section(&mut out, "## Formulas\n\n", &s.formula);
    let ghost mid4 = out@;
    if s.example.len() > 0 {
        out.append("## Examples\n\n");
        append_md_fenced(&mut out, "```\n", &s.example);
    }
    proof {
        let example = s.example@.map_values(|x: String| x@);
        assert(out@ =~= mid4 + (if example.len() == 0 {
            Seq::<char>::empty()
        } else {
            "## Examples\n\n"@ + md_fenced("```\n"@, example)
        }));
    }
    append_markdown_code(&mut out, s);
    append_md_bullet_section(&mut out, "## References\n\n", &s.reference);
    append_md_bullet_section(&mut out, "## Links\n\n", &s.link);
    append_md_bullet_section(&mut out, "## Cross-references\n\n", &s.xref);
    out.append("---\n\n");
    out.append("**Source**: [");
    out.append(a_number.as_str());
    out.append("](");
    out.append("https://oeis.org/");
    out.append(a_number.as_str());
    out.append(")\n\n");
    out.append("*Data from the On-Line Encyclopedia of Integer Sequences (OEIS)*\n");
    proof {
        assert(out@ == spec_export_markdown(*s));
    }
    out
}

/// One line of the extended-data export: an index, a space, the value.
pub open spec fn bfile_line(index: int, value: Seq<char>) -> Seq<char> {
    spec_idec(index) + " "@ + value + "\n"@
}

/// The lines for a list of extended-data entries.
pub open spec fn bfile_entry_lines(entries: Seq<(int, Seq<char>)>) -> Seq<char>
    decreases entries.len(),
{
    if entries.len() == 0 {
        Seq::empty()
    } else {
        bfile_line(entries[0].0, entries[0].1) + bfile_entry_lines(entries.drop_first())
    }
}

/// The fallback lines when no extended data is loaded: the trimmed
/// comma-separated pieces of the data field, numbered from `i`.
pub open spec fn bfile_data_lines(ps: Seq<Seq<char>>, i: int) -> Seq<char>
    decreases ps.len(),
{
    if ps.len() == 0 {
        Seq::empty()
    } else {
        spec_udec(i as nat) + " "@ + trim_spec(ps[0]) + "\n"@ + bfile_data_lines(
            ps.drop_first(),
            i + 1,
        )
    }
}

/// The whole extended-data export: a comment header naming the entry,
/// then either the loaded entries or, with a note, the numbered pieces
/// of the data field.
pub open spec fn spec_export_bfile(s: Sequence, data: Option<Seq<(int, Seq<char>)>>) -> Seq<char> {
    let header = "# "@ + spec_a_number(s.number as int) + " - "@ + s.name@ + "\n"@;
    match data {
        Some(entries) => header + bfile_entry_lines(entries),
        None => header + "# Note: B-file data not loaded, showing sequence data instead\n"@
            + bfile_data_lines(split_on(s.data@, ','), 0),
    }
}

/// Export the entry in the two-column extended-data format, from the
/// loaded entries when given, else from the data field.
pub fn export_to_bfile(s: &Sequence, bfile_data: Option<&Vec<BFileEntry>>) -> (r: String)
    ensures
        r@ == spec_export_bfile(
            *s,
            match bfile_data {
                Some(entries) => Some(
                    entries@.map_values(|e: BFileEntry| (e.index as int, e.value@)),
                ),
                None => None,
            },
        ),
{
    let mut out = String::from_str("# ");
    out.append(s.a_number().as_str());
    out.append(" - ");
    out.append(s.name.as_str());
    out.append("\n");
    let ghost header = "# "@ + spec_a_number(s.number as int) + " - "@ + s.name@ + "\n"@;
    proof {
        assert(out@ =~= header);
    }
    match bfile_data {
        Some(entries) => {
            let ghost ev = entries@.map_values(|e: BFileEntry| (e.index as int, e.value@));
            let n = entries.len();
            let mut i: usize = 0;
            proof {
                assert(ev.skip(0) =~= ev);
            }
            while i < n
                invariant
                    n == ev.len(),
                    ev == entries@.map_values(|e: BFileEntry| (e.index as int, e.value@)),
                    i <= n,
                    out@ + bfile_entry_lines(ev.skip(i as int)) == header + bfile_entry_lines(ev),
                decreases n - i,
            {
                let ghost out0 = out@;
                let entry = &entries[i];
                out.append(i64_to_dec(entry.index).as_str());
                out.append(" ");
                out.append(entry.value.as_str());
                out.append("\n");
                proof {
                    assert(ev.skip(i as int)[0] == ev[i as int]);
                    assert(ev.skip(i as int).drop_first() =~= ev.skip(i + 1));
                    assert(out@ =~= out0 + bfile_line(ev[i as int].0, ev[i as int].1));
                    assert(out0 + bfile_line(ev[i as int].0, ev[i as int].1) + bfile_entry_lines(
                        ev.skip(i + 1),
                    ) =~= out0 + bfile_entry_lines(ev.skip(i as int)));
                }
                i = i + 1;
            }
            proof {
                assert(ev.skip(n as int) =~= Seq::<(int, Seq<char>)>::empty());
            }
            out
        },
        None => {
            out.append("# Note: B-file data not loaded, showing sequence data instead\n");
            let ghost head2 = out@;
            let pieces = split_char(s.data.as_str(), ',');
            let ghost pv = pieces@.map_values(|x: String| x@);
            let n = pieces.len();
            let mut i: usize = 0;
            proof {
                assert(pv.skip(0) =~= pv);
            }
            while i < n
                invariant
                    n == pv.len(),
                    pv == pieces@.map_values(|x: String| x@),
                    pv == split_on(s.data@, ','),
                    i <= n,
                    out@ + bfile_data_lines(pv.skip(i as int), i as int) == head2
                        + bfile_data_lines(pv, 0),
                decreases n - i,
            {
                let ghost out0 = out@;
                out.append(u64_to_dec(i as u64).as_str());
                out.append(" ");
                out.append(trim_str(pieces[i].as_str()));
                out.append("\n");
                proof {
                    assert(pv.skip(i as int)[0] == pv[i as int]);
                    assert(pv.skip(i as int).drop_first() =~= pv.skip(i + 1));
                    assert(out@ =~= out0 + (spec_udec(i as nat) + " "@ + trim_spec(pv[i as int])
                        + "\n"@));
                    assert(out0 + (spec_udec(i as nat) + " "@ + trim_spec(pv[i as int]) + "\n"@)
                        + bfile_data_lines(pv.skip(i + 1), i + 1) =~= out0 + bfile_data_lines(
                        pv.skip(i as int),
                        i as int,
                    ));
                }
                i = i + 1;
            }
            proof {
                assert(pv.skip(n as int) =~= Seq::<Seq<char>>::empty());
                assert(out@ =~= spec_export_bfile(
                    *s,
                    None,
                ));
            }
            out
        },
    }
}


/// Generate the export text for an entry in `format`. The JSON format
/// relies on a serializer and is produced by the caller instead.
pub fn export_sequence(s: &Sequence, format: &ExportFormat, bfile_data: Option<&Vec<BFileEntry>>)
    -> (r: String)
    requires
        !(format is Json),
    ensures
        r@ == match format {
            ExportFormat::Json => Seq::<char>::empty(),
            ExportFormat::Csv => spec_export_csv(*s),
            ExportFormat::Txt => spec_export_txt(*s),
            ExportFormat::Markdown => spec_export_markdown(*s),
            ExportFormat::BFile => spec_export_bfile(
                *s,
                match bfile_data {
                    Some(entries) => Some(
                        entries@.map_values(|e: BFileEntry| (e.index as int, e.value@)),
                    ),
                    None => None,
                },
            ),
        },
{
    match format {
        ExportFormat::Json => String::new(),
        ExportFormat::Csv => export_to_csv(s),
        ExportFormat::Txt => export_to_txt(s),
        ExportFormat::Markdown => export_to_markdown(s),
        ExportFormat::BFile => export_to_bfile(s, bfile_data),
    }
}

} // verus!
