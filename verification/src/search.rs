//! Searching the downloaded files for the configured terms: locating each
//! hit (page, row, paragraph or whole text), cutting its snippet, and
//! summing up a run over a download folder.

use vstd::prelude::*;

use vstd::utf8::{decode_utf8, valid_utf8};

use crate::archive::{is_end, xml_events, xml_next, xml_pending, xml_reader, zip_entry_names, zip_entry_text, zip_names, zip_text, XmlEvent};
use crate::codec::utf8_text;
use crate::docbin::{doc_blocks, doc_blocks_spec};
use crate::time::{epoch_secs, format_timestamp, timestamp_text};
use crate::text::{join, join_exec,
    chars_of, decimal, find, find_exec, lowercase, push_all, push_decimal, push_str,
    slice_chars, string_of, strip_ws, strip_ws_exec, to_lowercase, trim, trim_exec,
};

verus! {

/// One occurrence of a term: the file, the term, where in the file, and
/// the text around it.
pub struct Hit {
    pub file: String,
    pub term: String,
    pub loc: String,
    pub snippet: String,
}

impl View for Hit {
    type V = (Seq<char>, Seq<char>, Seq<char>, Seq<char>);

    open spec fn view(&self) -> Self::V {
        (self.file@, self.term@, self.loc@, self.snippet@)
    }
}

pub open spec fn hits_view(v: Seq<Hit>) -> Seq<(Seq<char>, Seq<char>, Seq<char>, Seq<char>)> {
    v.map_values(|h: Hit| h@)
}

/// What was read from one file before the search.
pub enum Extracted {
    /// The text of each page of a PDF (extracted or recognised).
    Pages(Vec<String>),
    /// The non-blank rows of a workbook: sheet name, row number, row text.
    Rows(Vec<(String, usize, String)>),
    /// The non-blank paragraphs of a Word document.
    Paragraphs(Vec<String>),
    /// The text of a legacy binary document, without position information.
    FullText(String),
    /// Any other file, decoded as text.
    Plain(String),
    /// Nothing could be read.
    Failed,
}

/// One file of a download folder, as the search sees it.
pub struct ScannedFile {
    /// The path shown in reports.
    pub path: String,
    /// The bare file name recorded with each hit.
    pub name: String,
    pub content: Extracted,
}

/// The smaller of two integers.
pub open spec fn min(a: int, b: int) -> int {
    if a <= b {
        a
    } else {
        b
    }
}

/// The snippet around the first occurrence of `term` in `text`: both are
/// stripped of whitespace and lower-cased for the comparison; the snippet
/// is cut from the stripped text, from 15 characters before the match to 20
/// after it, shortened to 60 characters (then marked with `…`), and quoted
/// as `“…snippet…”`.
pub open spec fn snippet_spec(text: Seq<char>, term: Seq<char>) -> Option<Seq<char>> {
    snippet_window_spec(strip_ws(text), lowercase(strip_ws(text)), lowercase(strip_ws(term)))
}

/// The snippet cut from `ntext` around the first occurrence of `low_term`
/// in `low_text` (the lower-cased `ntext`).
pub open spec fn snippet_window_spec(ntext: Seq<char>, low_text: Seq<char>, low_term: Seq<char>) -> Option<Seq<char>> {
    match find(low_text, low_term) {
        None => None,
        Some(idx) => {
            let start = if idx >= 15 {
                idx - 15
            } else {
                0
            };
            let end = min(idx + low_term.len() + 20, low_text.len() as int);
            let s = ntext.subrange(
                min(start, ntext.len() as int),
                min(end, ntext.len() as int),
            );
            let s2 = if s.len() > 60 {
                s.take(60).push('…')
            } else {
                s
            };
            Some(seq!['“', '…'] + s2 + seq!['…', '”'])
        },
    }
}

fn lower_chars(v: &[char]) -> (r: Vec<char>)
    ensures
        r@ == lowercase(v@),
{
    let s = string_of(v);
    let l = to_lowercase(s.as_str());
    chars_of(l.as_str())
}

pub fn snippet(text: &str, term: &str) -> (r: Option<String>)
    ensures
        r matches Some(s) ==> snippet_spec(text@, term@) == Some(s@),
        r is None ==> snippet_spec(text@, term@) is None,
{
    let ntext = strip_ws_exec(chars_of(text).as_slice());
    let nterm = strip_ws_exec(chars_of(term).as_slice());
    let low_text = lower_chars(ntext.as_slice());
    let low_term = lower_chars(nterm.as_slice());
    snippet_window(
        string_of(ntext.as_slice()).as_str(),
        string_of(low_text.as_slice()).as_str(),
        string_of(low_term.as_slice()).as_str(),
    )
}

/// The snippet of `ntext` (text without whitespace) around the first match
/// of `low_term` in `low_text` (its lower-cased form).
pub fn snippet_window(ntext: &str, low_text: &str, low_term: &str) -> (r: Option<String>)
    ensures
        r matches Some(s) ==> snippet_window_spec(ntext@, low_text@, low_term@) == Some(s@),
        r is None ==> snippet_window_spec(ntext@, low_text@, low_term@) is None,
{
    let ntext = chars_of(ntext);
    let low_text = chars_of(low_text);
    let low_term = chars_of(low_term);
    let idx = match find_exec(low_text.as_slice(), low_term.as_slice()) {
        Some(i) => i,
        None => return None,
    };
    proof {
        crate::text::lemma_find_contains(low_text@, low_term@);
    }
    let total = low_text.len();
    let tl = low_term.len();
    let start = if idx >= 15 {
        idx - 15
    } else {
        0
    };
    let end = if total - (idx + tl) >= 20 {
        idx + tl + 20
    } else {
        total
    };
    let nl = ntext.len();
    let a = if start <= nl {
        start
    } else {
        nl
    };
    let b = if end <= nl {
        end
    } else {
        nl
    };
    let s = slice_chars(ntext.as_slice(), a, b);
    let mut out: Vec<char> = Vec::new();
    out.push('“');
    out.push('…');
    if s.len() > 60 {
        let t = slice_chars(s.as_slice(), 0, 60);
        push_all(&mut out, t.as_slice());
        out.push('…');
        assert(out@ == seq!['“', '…'] + s@.take(60).push('…'));
    } else {
        push_all(&mut out, s.as_slice());
    }
    out.push('…');
    out.push('”');
    Some(string_of(out.as_slice()))
}

/// The number of non-whitespace characters on all pages.
pub open spec fn dense_len(pages: Seq<Seq<char>>) -> nat
    decreases pages.len(),
{
    if pages.len() == 0 {
        0
    } else {
        dense_len(pages.drop_last()) + strip_ws(pages.last()).len()
    }
}

/// A PDF whose pages hold fewer than 50 non-whitespace characters in all
/// is treated as scanned or image-only.
pub open spec fn text_sparse(pages: Seq<Seq<char>>) -> bool {
    dense_len(pages) < 50
}

pub fn pdf_text_sparse(pages: &[String]) -> (r: bool)
    ensures
        r == text_sparse(pages.deep_view()),
{
    let mut total: usize = 0;
    let mut i: usize = 0;
    while i < pages.len()
        invariant
            i <= pages@.len(),
            total == dense_len(pages.deep_view().subrange(0, i as int)),
            total < 50,
        decreases pages.len() - i,
    {
        let ghost pre = pages.deep_view().subrange(0, i + 1);
        assert(pre.drop_last() == pages.deep_view().subrange(0, i as int));
        let n = strip_ws_exec(chars_of(pages[i].as_str()).as_slice()).len();
        if n >= 50 - total {
            proof {
                lemma_dense_grows(pages.deep_view(), i + 1);
            }
            return false;
        }
        total = total + n;
        i = i + 1;
    }
    assert(pages.deep_view().subrange(0, pages@.len() as int) == pages.deep_view());
    true
}

proof fn lemma_dense_grows(pages: Seq<Seq<char>>, k: int)
    requires
        0 <= k <= pages.len(),
    ensures
        dense_len(pages.subrange(0, k)) <= dense_len(pages),
    decreases pages.len() - k,
{
    if k < pages.len() {
        lemma_dense_grows(pages, k + 1);
        assert(pages.subrange(0, k + 1).drop_last() == pages.subrange(0, k));
    } else {
        assert(pages.subrange(0, k) == pages);
    }
}

/// The hit (if any) of `term` in `text`, at location `loc`.
pub open spec fn located(file: Seq<char>, term: Seq<char>, loc: Seq<char>, text: Seq<char>) -> Seq<
    (Seq<char>, Seq<char>, Seq<char>, Seq<char>),
> {
    match snippet_spec(text, term) {
        Some(s) => seq![(file, term, loc, s)],
        None => Seq::empty(),
    }
}

/// "第{n}{unit}": the n-th page, paragraph or row.
pub open spec fn ordinal(n: nat, unit: Seq<char>) -> Seq<char> {
    "第"@ + decimal(n) + unit
}

/// The hits of `term` in numbered texts (pages or paragraphs), in order.
pub open spec fn numbered_hits(
    file: Seq<char>,
    term: Seq<char>,
    texts: Seq<Seq<char>>,
    unit: Seq<char>,
) -> Seq<(Seq<char>, Seq<char>, Seq<char>, Seq<char>)>
    decreases texts.len(),
{
    if texts.len() == 0 {
        Seq::empty()
    } else {
        numbered_hits(file, term, texts.drop_last(), unit) + located(
            file,
            term,
            ordinal(texts.len(), unit),
            texts.last(),
        )
    }
}

/// "第{row}行 (工作表: {sheet})".
pub open spec fn row_loc(sheet: Seq<char>, row: nat) -> Seq<char> {
    ordinal(row, "行 (工作表: "@) + sheet + ")"@
}

/// The hits of `term` in the rows of a workbook, in order.
pub open spec fn row_hits(
    file: Seq<char>,
    term: Seq<char>,
    rows: Seq<(Seq<char>, usize, Seq<char>)>,
) -> Seq<(Seq<char>, Seq<char>, Seq<char>, Seq<char>)>
    decreases rows.len(),
{
    if rows.len() == 0 {
        Seq::empty()
    } else {
        let r = rows.last();
        row_hits(file, term, rows.drop_last()) + located(
            file,
            term,
            row_loc(r.0, r.1 as nat),
            r.2,
        )
    }
}

/// The hits of one term in one file's content.
pub open spec fn term_hits(file: Seq<char>, term: Seq<char>, content: Extracted) -> Seq<
    (Seq<char>, Seq<char>, Seq<char>, Seq<char>),
> {
    match content {
        Extracted::Pages(p) => numbered_hits(file, term, p.deep_view(), "页"@),
        Extracted::Rows(r) => row_hits(file, term, r.deep_view()),
        Extracted::Paragraphs(p) => numbered_hits(file, term, p.deep_view(), "段"@),
        Extracted::FullText(t) => located(file, term, "全文"@, t@),
        Extracted::Plain(t) => located(file, term, "文本"@, t@),
        Extracted::Failed => Seq::empty(),
    }
}

/// The hits of all terms in one file: term by term, each in file order.
pub open spec fn file_hits(file: Seq<char>, terms: Seq<Seq<char>>, content: Extracted) -> Seq<
    (Seq<char>, Seq<char>, Seq<char>, Seq<char>),
>
    decreases terms.len(),
{
    if terms.len() == 0 {
        Seq::empty()
    } else {
        file_hits(file, terms.drop_last(), content) + term_hits(file, terms.last(), content)
    }
}

fn push_located(hits: &mut Vec<Hit>, file: &str, term: &str, loc: Vec<char>, text: &str)
    ensures
        hits_view(final(hits)@) == hits_view(old(hits)@) + located(file@, term@, loc@, text@),
{
    match snippet(text, term) {
        Some(s) => {
            let h = Hit { file: file.to_owned(), term: term.to_owned(), loc: string_of(loc.as_slice()), snippet: s };
            let ghost old_v = hits_view(hits@);
            hits.push(h);
            assert(hits_view(hits@) =~= old_v.push(h@));
        },
        None => {},
    }
}

fn ordinal_exec(n: usize, unit: &str) -> (r: Vec<char>)
    ensures
        r@ == ordinal(n as nat, unit@),
{
    let mut out: Vec<char> = Vec::new();
    push_str(&mut out, "第");
    push_decimal(&mut out, n as u64);
    push_str(&mut out, unit);
    out
}

fn push_numbered(hits: &mut Vec<Hit>, file: &str, term: &str, texts: &Vec<String>, unit: &str)
    ensures
        hits_view(final(hits)@) == hits_view(old(hits)@) + numbered_hits(
            file@,
            term@,
            texts.deep_view(),
            unit@,
        ),
{
    let mut i: usize = 0;
    while i < texts.len()
        invariant
            i <= texts@.len(),
            hits_view(hits@) == hits_view(old(hits)@) + numbered_hits(
                file@,
                term@,
                texts.deep_view().subrange(0, i as int),
                unit@,
            ),
        decreases texts.len() - i,
    {
        let ghost pre = texts.deep_view().subrange(0, i + 1);
        assert(pre.drop_last() == texts.deep_view().subrange(0, i as int));
        let loc = ordinal_exec(i + 1, unit);
        push_located(hits, file, term, loc, texts[i].as_str());
        i = i + 1;
    }
    assert(texts.deep_view().subrange(0, texts@.len() as int) == texts.deep_view());
}

fn push_rows(hits: &mut Vec<Hit>, file: &str, term: &str, rows: &Vec<(String, usize, String)>)
    ensures
        hits_view(final(hits)@) == hits_view(old(hits)@) + row_hits(
            file@,
            term@,
            rows.deep_view(),
        ),
{
    let mut i: usize = 0;
    while i < rows.len()
        invariant
            i <= rows@.len(),
            hits_view(hits@) == hits_view(old(hits)@) + row_hits(
                file@,
                term@,
                rows.deep_view().subrange(0, i as int),
            ),
        decreases rows.len() - i,
    {
        let ghost pre = rows.deep_view().subrange(0, i + 1);
        assert(pre.drop_last() == rows.deep_view().subrange(0, i as int));
        let mut loc = ordinal_exec(rows[i].1, "行 (工作表: ");
        push_str(&mut loc, rows[i].0.as_str());
        push_str(&mut loc, ")");
        push_located(hits, file, term, loc, rows[i].2.as_str());
        i = i + 1;
    }
    assert(rows.deep_view().subrange(0, rows@.len() as int) == rows.deep_view());
}

fn push_term_hits(hits: &mut Vec<Hit>, file: &str, term: &str, content: &Extracted)
    ensures
        hits_view(final(hits)@) == hits_view(old(hits)@) + term_hits(file@, term@, *content),
{
    match content {
        Extracted::Pages(p) => push_numbered(hits, file, term, p, "页"),
        Extracted::Rows(r) => push_rows(hits, file, term, r),
        Extracted::Paragraphs(p) => push_numbered(hits, file, term, p, "段"),
        Extracted::FullText(t) => push_located(hits, file, term, chars_of("全文"), t.as_str()),
        Extracted::Plain(t) => push_located(hits, file, term, chars_of("文本"), t.as_str()),
        Extracted::Failed => {
            assert(hits_view(hits@) =~= hits_view(old(hits)@) + Seq::empty());
        },
    }
}

/// Whether any content was read from the file.
pub open spec fn readable(content: Extracted) -> bool {
    !(content is Failed)
}

/// The hits of all `terms` in one file, and whether the file could be read.
pub fn scan_file(file: &str, terms: &Vec<String>, content: &Extracted) -> (r: (bool, Vec<Hit>))
    ensures
        r.0 == readable(*content),
        hits_view(r.1@) == file_hits(file@, terms.deep_view(), *content),
{
    let mut hits: Vec<Hit> = Vec::new();
    let mut i: usize = 0;
    while i < terms.len()
        invariant
            i <= terms@.len(),
            hits_view(hits@) == file_hits(file@, terms.deep_view().subrange(0, i as int), *content),
        decreases terms.len() - i,
    {
        let ghost pre = terms.deep_view().subrange(0, i + 1);
        assert(pre.drop_last() == terms.deep_view().subrange(0, i as int));
        push_term_hits(&mut hits, file, terms[i].as_str(), content);
        i = i + 1;
    }
    assert(terms.deep_view().subrange(0, terms@.len() as int) == terms.deep_view());
    let ok = match content {
        Extracted::Failed => false,
        _ => true,
    };
    (ok, hits)
}

/// The outcome of a search over a folder: every hit, the paths of the
/// files that could not be read, and how many files were read.
pub struct SearchReport {
    pub hits: Vec<Hit>,
    pub unparsed: Vec<String>,
    pub scanned_ok: usize,
}

/// The hits of a run over `files`: file by file, in the given order.
pub open spec fn run_hits(terms: Seq<Seq<char>>, files: Seq<ScannedFile>) -> Seq<
    (Seq<char>, Seq<char>, Seq<char>, Seq<char>),
>
    decreases files.len(),
{
    if files.len() == 0 {
        Seq::empty()
    } else {
        run_hits(terms, files.drop_last()) + file_hits(
            files.last().name@,
            terms,
            files.last().content,
        )
    }
}

/// The paths of the files that could not be read, in order.
pub open spec fn run_unparsed(files: Seq<ScannedFile>) -> Seq<Seq<char>>
    decreases files.len(),
{
    if files.len() == 0 {
        Seq::empty()
    } else if readable(files.last().content) {
        run_unparsed(files.drop_last())
    } else {
        run_unparsed(files.drop_last()).push(files.last().path@)
    }
}

/// Searches every file for every term.
pub fn run(terms: &Vec<String>, files: &Vec<ScannedFile>) -> (r: SearchReport)
    ensures
        hits_view(r.hits@) == run_hits(terms.deep_view(), files@),
        r.unparsed.deep_view() == run_unparsed(files@),
        r.scanned_ok + r.unparsed@.len() == files@.len(),
{
    let mut hits: Vec<Hit> = Vec::new();
    let mut unparsed: Vec<String> = Vec::new();
    let mut ok: usize = 0;
    let mut i: usize = 0;
    while i < files.len()
        invariant
            i <= files@.len(),
            hits_view(hits@) == run_hits(terms.deep_view(), files@.subrange(0, i as int)),
            unparsed.deep_view() == run_unparsed(files@.subrange(0, i as int)),
            ok + unparsed@.len() == i,
        decreases files.len() - i,
    {
        let ghost pre = files@.subrange(0, i + 1);
        assert(pre.drop_last() == files@.subrange(0, i as int));
        let f = &files[i];
        let (readable_file, mut file_hits_v) = scan_file(f.name.as_str(), terms, &f.content);
        let ghost old_h = hits_view(hits@);
        let ghost add = hits_view(file_hits_v@);
        hits.append(&mut file_hits_v);
        assert(hits_view(hits@) =~= old_h + add);
        if readable_file {
            ok = ok + 1;
        } else {
            let ghost old_u = unparsed.deep_view();
            unparsed.push(f.path.clone());
            assert(unparsed.deep_view() =~= old_u.push(f.path@));
        }
        i = i + 1;
    }
    assert(files@.subrange(0, files@.len() as int) == files@);
    SearchReport { hits, unparsed, scanned_ok: ok }
}

/// The number of hits for `term`.
pub open spec fn term_count(hits: Seq<(Seq<char>, Seq<char>, Seq<char>, Seq<char>)>, term: Seq<char>) -> nat
    decreases hits.len(),
{
    if hits.len() == 0 {
        0
    } else {
        term_count(hits.drop_last(), term) + if hits.last().1 == term {
            1nat
        } else {
            0nat
        }
    }
}

pub fn count_term(hits: &Vec<Hit>, term: &str) -> (r: usize)
    ensures
        r == term_count(hits_view(hits@), term@),
{
    let t = chars_of(term);
    let mut n: usize = 0;
    let mut i: usize = 0;
    while i < hits.len()
        invariant
            i <= hits@.len(),
            t@ == term@,
            n == term_count(hits_view(hits@.subrange(0, i as int)), term@),
            n <= i,
        decreases hits.len() - i,
    {
        assert(hits_view(hits@.subrange(0, i + 1)).drop_last() =~= hits_view(
            hits@.subrange(0, i as int),
        ));
        let c = chars_of(hits[i].term.as_str());
        if c.len() == t.len() && crate::text::starts_with_exec(c.as_slice(), t.as_slice()) {
            assert(c@.subrange(0, t@.len() as int) == c@);
            n = n + 1;
        } else {
            proof {
                if c@ == t@ {
                    assert(c@.subrange(0, t@.len() as int) == c@);
                }
            }
        }
        i = i + 1;
    }
    assert(hits@.subrange(0, hits@.len() as int) == hits@);
    n
}


/// The kinds of downloaded file the search tells apart.
#[derive(PartialEq, Eq, Structural, Debug, Clone, Copy)]
pub enum FileKind {
    Pdf,
    /// A workbook (`.xlsx`, `.xls`, `.et`).
    Table,
    /// A Word document (`.docx`).
    Docx,
    /// A legacy binary document read block by block.
    DocBin,
    /// Anything else, read as text.
    Other,
    /// A compound file of unknown kind: a workbook when the spreadsheet
    /// reader can open it, else a legacy document.
    OleProbe,
}

pub open spec fn pdf_magic() -> Seq<u8> {
    seq![0x25u8, 0x50u8, 0x44u8, 0x46u8]
}

pub open spec fn zip_magic() -> Seq<u8> {
    seq![0x50u8, 0x4Bu8, 0x03u8, 0x04u8]
}

pub open spec fn ole_magic() -> Seq<u8> {
    seq![0xD0u8, 0xCFu8, 0x11u8, 0xE0u8, 0xA1u8, 0xB1u8, 0x1Au8, 0xE1u8]
}

pub open spec fn has_prefix(b: Seq<u8>, p: Seq<u8>) -> bool {
    p.len() <= b.len() && b.subrange(0, p.len() as int) == p
}

/// The kind of a ZIP archive from its entry names: a Word document when it
/// has `word/document.xml`, else a workbook when it has `xl/workbook.xml`.
pub open spec fn zip_kind_spec(names: Option<Seq<Seq<char>>>) -> FileKind {
    match names {
        Some(names) => if names.contains("word/document.xml"@) {
            FileKind::Docx
        } else if names.contains("xl/workbook.xml"@) {
            FileKind::Table
        } else {
            FileKind::Other
        },
        None => FileKind::Other,
    }
}

/// The kind of a file from its first bytes, its entries when it is a ZIP
/// archive, and its lower-cased extension when it is a compound file.
pub open spec fn kind_spec(bytes: Seq<u8>, ext: Seq<char>) -> FileKind {
    if has_prefix(bytes, pdf_magic()) {
        FileKind::Pdf
    } else if has_prefix(bytes, zip_magic()) {
        zip_kind_spec(zip_names(bytes))
    } else if has_prefix(bytes, ole_magic()) {
        let e = lowercase(ext);
        if e == "xls"@ || e == "et"@ {
            FileKind::Table
        } else {
            FileKind::OleProbe
        }
    } else {
        FileKind::Other
    }
}

fn has_prefix_exec(b: &[u8], p: &[u8]) -> (r: bool)
    ensures
        r == has_prefix(b@, p@),
{
    if p.len() > b.len() {
        return false;
    }
    let mut i: usize = 0;
    while i < p.len()
        invariant
            p@.len() <= b@.len(),
            i <= p@.len(),
            forall|k: int| 0 <= k < i ==> b@[k] == p@[k],
        decreases p.len() - i,
    {
        if b[i] != p[i] {
            assert(b@.subrange(0, p@.len() as int)[i as int] != p@[i as int]);
            return false;
        }
        i = i + 1;
    }
    assert(b@.subrange(0, p@.len() as int) =~= p@);
    true
}

fn same_text(a: &[char], b: &str) -> (r: bool)
    ensures
        r == (a@ == b@),
{
    let y = chars_of(b);
    if a.len() != y.len() {
        return false;
    }
    let r = crate::text::starts_with_exec(a, y.as_slice());
    proof {
        if r || a@ == y@ {
            assert(a@.subrange(0, y@.len() as int) == a@);
        }
    }
    r
}

fn names_contain(names: &Vec<String>, t: &str) -> (r: bool)
    ensures
        r == names.deep_view().contains(t@),
{
    let mut i: usize = 0;
    while i < names.len()
        invariant
            i <= names@.len(),
            forall|k: int| 0 <= k < i ==> names.deep_view()[k] != t@,
        decreases names.len() - i,
    {
        if same_text(chars_of(names[i].as_str()).as_slice(), t) {
            assert(names.deep_view()[i as int] == t@);
            return true;
        }
        i = i + 1;
    }
    false
}

/// The kind of a ZIP archive with the given entry names.
pub fn zip_kind(names: &Option<Vec<String>>) -> (k: FileKind)
    ensures
        k == zip_kind_spec(names.deep_view()),
{
    match names {
        Some(names) => if names_contain(names, "word/document.xml") {
            FileKind::Docx
        } else if names_contain(names, "xl/workbook.xml") {
            FileKind::Table
        } else {
            FileKind::Other
        },
        None => FileKind::Other,
    }
}

/// The kind of a downloaded file with contents `bytes` and file extension
/// `ext`.
pub fn kind_of(bytes: &[u8], ext: &str) -> (k: FileKind)
    ensures
        k == kind_spec(bytes@, ext@),
{
    let pdf: [u8; 4] = [0x25, 0x50, 0x44, 0x46];
    let zipm: [u8; 4] = [0x50, 0x4B, 0x03, 0x04];
    let ole: [u8; 8] = [0xD0, 0xCF, 0x11, 0xE0, 0xA1, 0xB1, 0x1A, 0xE1];
    assert(pdf@ == pdf_magic());
    assert(zipm@ == zip_magic());
    assert(ole@ == ole_magic());
    if has_prefix_exec(bytes, pdf.as_slice()) {
        return FileKind::Pdf;
    }
    if has_prefix_exec(bytes, zipm.as_slice()) {
        return zip_kind(&zip_entry_names(bytes));
    }
    if has_prefix_exec(bytes, ole.as_slice()) {
        let e = chars_of(to_lowercase(ext).as_str());
        if same_text(e.as_slice(), "xls") || same_text(e.as_slice(), "et") {
            return FileKind::Table;
        }
        return FileKind::OleProbe;
    }
    FileKind::Other
}

/// The paragraph reader's state: finished paragraphs, whether a paragraph
/// is open, its text so far, and the outcome (0 reading, 1 done, 2 failed
/// with the message).
pub type ParaState = (Seq<Seq<char>>, bool, Seq<char>, int, Seq<char>);

pub open spec fn is_p(name: Seq<u8>) -> bool {
    name == seq![0x70u8]
}

/// The text of a CDATA section: its UTF-8 text, or nothing.
pub open spec fn cdata_text(b: Seq<u8>) -> Seq<char> {
    if valid_utf8(b) {
        decode_utf8(b)
    } else {
        Seq::empty()
    }
}

/// One event applied to the paragraph reader.
pub open spec fn para_step(st: ParaState, ev: XmlEvent) -> ParaState {
    let (paras, in_p, buf, status, msg) = st;
    if status != 0 {
        st
    } else {
        match ev {
            XmlEvent::Start(n) => if is_p(n@) {
                (paras, true, Seq::empty(), 0, msg)
            } else {
                st
            },
            XmlEvent::Text(t) => if in_p {
                match t {
                    Ok(s) => (paras, in_p, buf + s@, 0, msg),
                    Err(e) => (paras, in_p, buf, 2, e@),
                }
            } else {
                st
            },
            XmlEvent::CData(b) => if in_p {
                (paras, in_p, buf + cdata_text(b@), 0, msg)
            } else {
                st
            },
            XmlEvent::End(n) => if is_p(n@) {
                (if trim(buf).len() > 0 {
                    paras.push(trim(buf))
                } else {
                    paras
                }, false, buf, 0, msg)
            } else {
                st
            },
            XmlEvent::Eof => (paras, in_p, buf, 1, msg),
            XmlEvent::Error(e) => (paras, in_p, buf, 2, e@),
            XmlEvent::Other => st,
        }
    }
}

pub open spec fn para_fold(evs: Seq<XmlEvent>) -> ParaState
    decreases evs.len(),
{
    if evs.len() == 0 {
        (Seq::empty(), false, Seq::empty(), 0, Seq::empty())
    } else {
        para_step(para_fold(evs.drop_last()), evs.last())
    }
}

/// The non-blank `<p>` paragraphs of a Word document's XML events, trimmed,
/// up to the end of the document; the first error ends the reading.
pub open spec fn paragraphs_spec(evs: Seq<XmlEvent>) -> Result<Seq<Seq<char>>, Seq<char>> {
    let st = para_fold(evs);
    if st.3 == 2 {
        Err(st.4)
    } else {
        Ok(st.0)
    }
}

pub open spec fn result_view(r: Result<Vec<String>, String>) -> Result<Seq<Seq<char>>, Seq<char>> {
    match r {
        Ok(v) => Ok(v.deep_view()),
        Err(e) => Err(e@),
    }
}

fn is_p_exec(n: &Vec<u8>) -> (r: bool)
    ensures
        r == is_p(n@),
{
    let r = n.len() == 1 && n[0] == 0x70;
    proof {
        if r {
            assert(n@ =~= seq![0x70u8]);
        }
    }
    r
}

/// The paragraphs of a sequence of XML events.
pub fn paragraphs(evs: &Vec<XmlEvent>) -> (r: Result<Vec<String>, String>)
    ensures
        result_view(r) == paragraphs_spec(evs@),
{
    let mut paras: Vec<String> = Vec::new();
    let mut in_p = false;
    let mut buf: Vec<char> = Vec::new();
    let ghost msg: Seq<char> = Seq::empty();
    let mut i: usize = 0;
    while i < evs.len()
        invariant
            i <= evs@.len(),
            para_fold(evs@.subrange(0, i as int)) == (paras.deep_view(), in_p, buf@, 0int, msg),
        decreases evs.len() - i,
    {
        let ghost pre = evs@.subrange(0, i + 1);
        assert(pre.drop_last() == evs@.subrange(0, i as int));
        match &evs[i] {
            XmlEvent::Start(n) => {
                if is_p_exec(n) {
                    in_p = true;
                    buf = Vec::new();
                }
            },
            XmlEvent::Text(t) => {
                if in_p {
                    match t {
                        Ok(s) => {
                            crate::text::push_str(&mut buf, s.as_str());
                        },
                        Err(e) => {
                            proof {
                                lemma_para_stops(evs@, i + 1);
                            }
                            return Err(e.clone());
                        },
                    }
                }
            },
            XmlEvent::CData(b) => {
                if in_p {
                    match utf8_text(b.as_slice()) {
                        Some(s) => crate::text::push_str(&mut buf, s.as_str()),
                        None => {},
                    }
                }
            },
            XmlEvent::End(n) => {
                if is_p_exec(n) {
                    let t = trim_exec(buf.as_slice());
                    if t.len() > 0 {
                        let ghost old_dv = paras.deep_view();
                        paras.push(string_of(t.as_slice()));
                        assert(paras.deep_view() =~= old_dv.push(t@));
                    }
                    in_p = false;
                }
            },
            XmlEvent::Eof => {
                proof {
                    lemma_para_stops(evs@, i + 1);
                }
                return Ok(paras);
            },
            XmlEvent::Error(e) => {
                proof {
                    lemma_para_stops(evs@, i + 1);
                }
                return Err(e.clone());
            },
            XmlEvent::Other => {},
        }
        i = i + 1;
    }
    assert(evs@.subrange(0, evs@.len() as int) == evs@);
    Ok(paras)
}

/// Events after the end of the document or an error change nothing.
proof fn lemma_para_stops(evs: Seq<XmlEvent>, k: int)
    requires
        0 <= k <= evs.len(),
        para_fold(evs.subrange(0, k)).3 != 0,
    ensures
        para_fold(evs) == para_fold(evs.subrange(0, k)),
    decreases evs.len() - k,
{
    if k < evs.len() {
        assert(evs.subrange(0, k + 1).drop_last() == evs.subrange(0, k));
        lemma_para_stops(evs, k + 1);
    } else {
        assert(evs.subrange(0, k) == evs);
    }
}

/// The paragraphs of a `.docx` file: the XML of `word/document.xml` read
/// event by event with `quick_xml`; an archive error is returned as it is.
pub fn docx_paragraphs(bytes: &[u8]) -> (r: Result<Vec<String>, String>)
    ensures
        match zip_text(bytes@, "word/document.xml"@) {
            Err(e) => r matches Err(m) && m@ == e,
            Ok(xml) => result_view(r) == paragraphs_spec(xml_events(xml)),
        },
{
    let xml = match zip_entry_text(bytes, "word/document.xml") {
        Ok(x) => x,
        Err(e) => return Err(e),
    };
    let mut reader = xml_reader(xml.as_str());
    let ghost all = xml_pending(reader);
    let mut evs: Vec<XmlEvent> = Vec::new();
    let mut done = false;
    while !done
        invariant
            all == xml_events(xml@),
            all.len() > 0,
            is_end(all.last()),
            forall|i: int| 0 <= i < all.len() - 1 ==> !is_end(#[trigger] all[i]),
            evs@ + xml_pending(reader) == all,
            !done ==> xml_pending(reader).len() > 0,
            done ==> xml_pending(reader).len() == 0,
        decreases xml_pending(reader).len(),
    {
        let ghost before = xml_pending(reader);
        let ghost old_evs = evs@;
        let ev = xml_next(&mut reader);
        let end = match ev {
            XmlEvent::Eof => true,
            XmlEvent::Error(_) => true,
            _ => false,
        };
        assert(end == is_end(ev));
        evs.push(ev);
        assert(evs@ + xml_pending(reader) =~= old_evs + before);
        assert(all[old_evs.len() as int] == before[0]);
        if end {
            assert(old_evs.len() == all.len() - 1);
        }
        done = end;
    }
    assert(evs@ =~= all);
    paragraphs(&evs)
}

/// The text of a legacy document: its blocks joined by newlines.
pub open spec fn doc_text_spec(data: Seq<u8>) -> Option<Seq<char>> {
    match doc_blocks_spec(data) {
        Some(b) => Some(join(b, seq!['\n'])),
        None => None,
    }
}

pub fn doc_text(data: &[u8]) -> (r: Option<String>)
    ensures
        r.deep_view() == doc_text_spec(data@),
{
    match doc_blocks(data) {
        Some(b) => Some(join_lines(&b)),
        None => None,
    }
}

/// The strings of `v` joined by newlines.
pub fn join_lines(v: &Vec<String>) -> (r: String)
    ensures
        r@ == join(v.deep_view(), seq!['\n']),
{
    let mut parts: Vec<Vec<char>> = Vec::new();
    let mut i: usize = 0;
    while i < v.len()
        invariant
            i <= v@.len(),
            parts.deep_view() == v.deep_view().subrange(0, i as int),
        decreases v.len() - i,
    {
        let ghost old_dv = parts.deep_view();
        let c = chars_of(v[i].as_str());
        assert(c.deep_view() =~= c@);
        parts.push(c);
        assert(parts.deep_view() =~= old_dv.push(v.deep_view()[i as int]));
        assert(v.deep_view().subrange(0, i + 1) =~= v.deep_view().subrange(0, i as int).push(v.deep_view()[i as int]));
        i = i + 1;
    }
    assert(v.deep_view().subrange(0, v@.len() as int) == v.deep_view());
    let mut nl: Vec<char> = Vec::new();
    nl.push('\n');
    string_of(join_exec(&parts, nl.as_slice()).as_slice())
}

/// The non-blank rows of a sheet: each row's cells joined by spaces,
/// numbered from 1, kept when not blank after trimming.
pub open spec fn sheet_rows_spec(sheet: Seq<char>, rows: Seq<Seq<Seq<char>>>) -> Seq<
    (Seq<char>, usize, Seq<char>),
>
    decreases rows.len(),
{
    if rows.len() == 0 {
        Seq::empty()
    } else {
        let init = sheet_rows_spec(sheet, rows.drop_last());
        let text = join(rows.last(), seq![' ']);
        if trim(text).len() > 0 {
            init.push((sheet, rows.len() as usize, text))
        } else {
            init
        }
    }
}

/// The searchable rows of sheet `sheet`, from the text of its cells.
pub fn sheet_rows(sheet: &str, rows: &Vec<Vec<String>>) -> (r: Vec<(String, usize, String)>)
    ensures
        r.deep_view() == sheet_rows_spec(sheet@, rows.deep_view()),
{
    let mut out: Vec<(String, usize, String)> = Vec::new();
    let mut i: usize = 0;
    while i < rows.len()
        invariant
            i <= rows@.len(),
            out.deep_view() == sheet_rows_spec(sheet@, rows.deep_view().subrange(0, i as int)),
        decreases rows.len() - i,
    {
        let ghost pre = rows.deep_view().subrange(0, i + 1);
        assert(pre.drop_last() == rows.deep_view().subrange(0, i as int));
        let row = &rows[i];
        let mut cells: Vec<Vec<char>> = Vec::new();
        let mut j: usize = 0;
        while j < row.len()
            invariant
                j <= row@.len(),
                cells.deep_view() == row.deep_view().subrange(0, j as int),
            decreases row.len() - j,
        {
            let ghost old_dv = cells.deep_view();
            let c = chars_of(row[j].as_str());
            assert(c.deep_view() =~= c@);
            cells.push(c);
            assert(cells.deep_view() =~= old_dv.push(row.deep_view()[j as int]));
            assert(row.deep_view().subrange(0, j + 1) =~= row.deep_view().subrange(0, j as int).push(row.deep_view()[j as int]));
            j = j + 1;
        }
        assert(row.deep_view().subrange(0, row@.len() as int) == row.deep_view());
        let mut sp: Vec<char> = Vec::new();
        sp.push(' ');
        let text = join_exec(&cells, sp.as_slice());
        if trim_exec(text.as_slice()).len() > 0 {
            let ghost old_dv = out.deep_view();
            let t = string_of(text.as_slice());
            out.push((sheet.to_owned(), i + 1, t));
            assert(out.deep_view() =~= old_dv.push((sheet@, (i + 1) as usize, text@)));
        }
        i = i + 1;
    }
    assert(rows.deep_view().subrange(0, rows@.len() as int) == rows.deep_view());
    out
}

/// Whether a PDF goes to OCR: when its text could not be extracted, when
/// the type check calls it scanned or image-based (`Some(true)`), or
/// otherwise (a text or mixed PDF, `Some(false)`, or no verdict, `None`)
/// when its text is sparse.
pub open spec fn needs_ocr_spec(scanned: Option<bool>, pages: Result<Seq<Seq<char>>, Seq<char>>) -> bool {
    match pages {
        Err(_) => true,
        Ok(p) => scanned == Some(true) || text_sparse(p),
    }
}

pub fn needs_ocr(scanned: Option<bool>, pages: &Result<Vec<String>, String>) -> (r: bool)
    ensures
        r == needs_ocr_spec(scanned, result_view(*pages)),
{
    match pages {
        Err(_) => true,
        Ok(p) => match scanned {
            Some(true) => true,
            _ => pdf_text_sparse(p.as_slice()),
        },
    }
}

/// What the search reads of a Word document: the pages of its PDF
/// rendering where one could be made, so that hits are located by page;
/// else what was read from the document itself (its paragraphs, or its
/// whole text).
pub fn word_content(rendered: Option<Vec<String>>, read: Extracted) -> (r: Extracted)
    ensures
        match rendered {
            Some(p) => r matches Extracted::Pages(q) && q.deep_view() == p.deep_view(),
            None => r == read,
        },
{
    match rendered {
        Some(p) => Extracted::Pages(p),
        None => read,
    }
}

/// What the search reads of a workbook: its rows; when the spreadsheet
/// reader could not open a compound file (a legacy workbook written by WPS,
/// say), its text read as a legacy document; nothing when both fail.
pub fn table_content(rows: Option<Vec<(String, usize, String)>>, data: &[u8]) -> (r: Extracted)
    ensures
        match rows {
            Some(v) => r matches Extracted::Rows(w) && w.deep_view() == v.deep_view(),
            None => if has_prefix(data@, ole_magic()) {
                match doc_text_spec(data@) {
                    Some(t) => r matches Extracted::FullText(x) && x@ == t,
                    None => r is Failed,
                }
            } else {
                r is Failed
            },
        },
{
    match rows {
        Some(v) => Extracted::Rows(v),
        None => {
            let ole: [u8; 8] = [0xD0, 0xCF, 0x11, 0xE0, 0xA1, 0xB1, 0x1A, 0xE1];
            assert(ole@ == ole_magic());
            if !has_prefix_exec(data, ole.as_slice()) {
                return Extracted::Failed;
            }
            match doc_text(data) {
                Some(t) => Extracted::FullText(t),
                None => Extracted::Failed,
            }
        },
    }
}

/// What the search reads of a PDF: its pages as extracted, or, when they
/// came from OCR, which gives no page breaks, the whole recognised text;
/// nothing when neither gave text.
pub fn pdf_content(pages: Result<Vec<String>, String>, by_ocr: bool) -> (r: Extracted)
    ensures
        match pages {
            Err(_) => r is Failed,
            Ok(p) => if by_ocr {
                r matches Extracted::FullText(t) && t@ == join(p.deep_view(), seq!['\n'])
            } else {
                r matches Extracted::Pages(q) && q.deep_view() == p.deep_view()
            },
        },
{
    match pages {
        Err(_) => Extracted::Failed,
        Ok(p) => if by_ocr {
            Extracted::FullText(join_lines(&p))
        } else {
            Extracted::Pages(p)
        },
    }
}

pub open spec fn ocr_empty_message() -> Seq<char> {
    "OCR 未识别出文本（可能缺少对应语言包，或页面纯为图片/空白）"@
}

/// The pages of a PDF after OCR: when OCR followed a successful extraction,
/// a sparse OCR result counts as a failure; after a failed extraction the
/// OCR result stands as it is.
pub open spec fn ocr_outcome_spec(
    extracted: bool,
    ocr: Result<Seq<Seq<char>>, Seq<char>>,
) -> Result<Seq<Seq<char>>, Seq<char>> {
    match ocr {
        Ok(p) => if extracted && text_sparse(p) {
            Err(ocr_empty_message())
        } else {
            Ok(p)
        },
        Err(e) => Err(e),
    }
}

pub fn ocr_outcome(extracted: bool, ocr: Result<Vec<String>, String>) -> (r: Result<Vec<String>, String>)
    ensures
        result_view(r) == ocr_outcome_spec(extracted, result_view(ocr)),
{
    match ocr {
        Ok(p) => if extracted && pdf_text_sparse(p.as_slice()) {
            Err("OCR 未识别出文本（可能缺少对应语言包，或页面纯为图片/空白）".to_owned())
        } else {
            Ok(p)
        },
        Err(e) => Err(e),
    }
}

/// The moment `secs` seconds after 1970-01-01 00:00 UTC as
/// `YYYY-MM-DD HH:MM:SS`; the stamp of a run's results.
pub fn utc_timestamp(secs: u64) -> (r: String)
    requires
        secs <= i64::MAX,
    ensures
        r@ == timestamp_text(secs as int),
{
    format_timestamp(secs as i64)
}

/// The UTC seconds a clock reading stands for: a clock before 1970 or
/// beyond the `i64` range counts as 1970-01-01 00:00:00.
pub open spec fn utc_reading(epoch: Option<u64>) -> int {
    match epoch {
        Some(s) => if s <= i64::MAX {
            s as int
        } else {
            0
        },
        None => 0,
    }
}

/// The stamp of a run's results: the UTC time of some reading of the
/// system clock.
pub fn chrono_now() -> (r: String)
    ensures
        exists|epoch: Option<u64>| r@ == timestamp_text(#[trigger] utc_reading(epoch)),
{
    let epoch = epoch_secs();
    let r = match epoch {
        Some(s) => if s <= 9223372036854775807 {
            utc_timestamp(s)
        } else {
            utc_timestamp(0)
        },
        None => utc_timestamp(0),
    };
    assert(r@ == timestamp_text(utc_reading(epoch)));
    r
}

} // verus!
