//! Properties of the library that hold for all inputs, stated over the
//! specifications of its functions and proved.

use vstd::prelude::*;

use crate::config::{clean_item, list_items, list_items_from, list_sep, quote_char, split_list, unquote_end, unquote_start, read_sites_spec, region_from, region_of_spec, regions, sites_from, N_REGIONS};
use crate::crawl::{strategy_spec, Strategy, jiangxi_fold, dated_links_spec, forbidden, is_article_link, plan_spec, sanitize_spec, stored_name, trs_links_spec};
use crate::archive::{ole_has_stream, ole_stream};
use crate::codec::gb18030_decode;
use vstd::utf8::{decode_utf8, valid_utf8};
use crate::archive::zip_names;
use crate::docbin::{
    cfb_blocks_spec, cjk, overlap, clean_indices_spec, collect_spec, dedup, doc_blocks_spec, flush, has_cjk,
    keep_fold, merge_by_start, ole_step, scan_state, score, text_blocks_spec, texty,
    utf16_units, BlockView, MIN_BLOCK,
};
use crate::html::{
    cap, date_from_str_spec, issue_text,
    bare_date_pattern, date_parts, pubdate_pattern, scan_date_spec, absolutize_spec, before_query, classify_spec, data_markers, exts, ext_of_spec, resolve, Kind,
    attachments_spec, has_ext, strip_tags_spec,
};
use crate::http::{decode_text_spec, fetch_next, FetchEvent, Phase, http_fallback_spec, jitter_span, jitter_spec, next_rand_spec, uas};
use crate::ocr::clean_markdown_spec;
use crate::log::tag_of;
use crate::pattern::regex_captures;
use crate::search::{has_prefix, kind_spec, FileKind, run_hits, run_unparsed, ScannedFile, ocr_outcome_spec, text_sparse, file_hits, numbered_hits, row_hits, snippet_spec, term_hits, located, Extracted};
use crate::text::{
    contains, decimal, digit_char, digits_value, ends_with, find, is_ascii_digit, is_ws, join, last_index_of,
    lemma_find_contains, lemma_find_from_some, occurs_at, split,
    lowercase, padded, padded_signed, parse_body, parse_nat, replace, starts_with, strip_ws, trim, trim_end, trim_start,
};
use crate::time::{days_from_civil, days_in_month, lemma_civil_unique, lemma_leaps_step, valid_date};

verus! {

/// Every digit of `decimal(n)` is an ASCII digit, and they read back as `n`.
pub proof fn law_decimal_reads_back(n: nat)
    ensures
        forall|i: int| 0 <= i < decimal(n).len() ==> is_ascii_digit(#[trigger] decimal(n)[i]),
        digits_value(decimal(n)) == n,
        decimal(n).len() >= 1,
    decreases n,
{
    if n < 10 {
        lemma_digit_char(n as int);
        assert(decimal(n) == seq![digit_char(n as int)]);
        assert(decimal(n).drop_last() =~= Seq::<char>::empty());
        assert(decimal(n).last() == digit_char(n as int));
        assert(digits_value(decimal(n).drop_last()) == 0);
        assert(digits_value(decimal(n)) == digits_value(decimal(n).drop_last()) * 10 + ((
        decimal(n).last() as u32) - ('0' as u32)) as nat);
    } else {
        law_decimal_reads_back(n / 10);
        lemma_digit_char((n % 10) as int);
        let d = decimal(n / 10);
        assert(decimal(n) == d.push(digit_char((n % 10) as int)));
        assert(decimal(n).drop_last() == d);
        assert(decimal(n).last() == digit_char((n % 10) as int));
        assert(digits_value(decimal(n)) == digits_value(d) * 10 + ((decimal(n).last() as u32) - (
        '0' as u32)) as nat);
        assert(digits_value(d) == n / 10);
        assert((n / 10) * 10 + n % 10 == n);
        assert forall|i: int| 0 <= i < decimal(n).len() implies is_ascii_digit(
            #[trigger] decimal(n)[i],
        ) by {
            if i < d.len() {
                assert(decimal(n)[i] == d[i]);
            }
        }
    }
}

proof fn lemma_digit_char(d: int)
    requires
        0 <= d < 10,
    ensures
        digit_char(d) as u32 == 48 + d,
        '0' as u32 == 48,
        is_ascii_digit(digit_char(d)),
{
    assert('0' as u32 == 48);
    assert('1' as u32 == 49);
    assert('2' as u32 == 50);
    assert('3' as u32 == 51);
    assert('4' as u32 == 52);
    assert('5' as u32 == 53);
    assert('6' as u32 == 54);
    assert('7' as u32 == 55);
    assert('8' as u32 == 56);
    assert('9' as u32 == 57);
}

/// A number written in decimal parses back to itself (when it is within
/// the bound of the target type).
pub proof fn law_decimal_parse_round_trip(n: nat, bound: nat)
    requires
        n <= bound,
    ensures
        parse_nat(decimal(n), bound) == Some(n),
{
    law_decimal_reads_back(n);
    assert(decimal(n)[0] != '+') by {
        assert(is_ascii_digit(decimal(n)[0]));
    }
    assert(parse_body(decimal(n)) == decimal(n));
}

/// Distinct numbers have distinct decimal forms.
pub proof fn law_decimal_injective(n: nat, m: nat)
    requires
        decimal(n) == decimal(m),
    ensures
        n == m,
{
    law_decimal_reads_back(n);
    law_decimal_reads_back(m);
}

/// Copies of one attachment get distinct file names: the name of copy `n`
/// differs from that of copy `m` whenever `n != m` (copies count from 1).
pub proof fn law_stored_names_distinct(region: Seq<char>, issue: Seq<char>, ext: Seq<char>, n: nat, m: nat)
    requires
        n >= 1,
        m >= 1,
        n != m,
    ensures
        stored_name(region, issue, ext, n) != stored_name(region, issue, ext, m),
{
    let prefix = region + seq!['-'] + issue;
    law_decimal_reads_back(n);
    law_decimal_reads_back(m);
    let a = stored_name(region, issue, ext, n);
    let b = stored_name(region, issue, ext, m);
    if n >= 2 && m >= 2 {
        if a == b {
            let k: int = prefix.len() + 1int;
            if decimal(n).len() == decimal(m).len() {
                assert(a.subrange(k, k + decimal(n).len() as int) == decimal(n));
                assert(b.subrange(k, k + decimal(m).len() as int) == decimal(m));
                law_decimal_injective(n, m);
            } else {
                assert(a.len() != b.len());
            }
        }
    } else if n == 1 {
        assert(a.len() < b.len());
    } else {
        assert(b.len() < a.len());
    }
}

/// Whatever the label, the stored label is not empty and holds no path
/// separator, reserved character or control character.
pub proof fn law_sanitize_safe(s: Seq<char>)
    ensures
        sanitize_spec(s).len() > 0,
        forall|i: int| 0 <= i < sanitize_spec(s).len() ==> !forbidden(#[trigger] sanitize_spec(s)[i]),
{
    let f = s.filter(|c: char| !forbidden(c));
    assert forall|i: int| 0 <= i < f.len() implies !forbidden(#[trigger] f[i]) by {
        s.lemma_filter_pred(|c: char| !forbidden(c), i);
    }
    lemma_trim_keeps(f);
    reveal_strlit("文件");
}

/// Trimming only removes characters: whatever holds of every character of
/// `s` holds of every character of `trim(s)` (here: not forbidden).
proof fn lemma_trim_keeps(s: Seq<char>)
    requires
        forall|i: int| 0 <= i < s.len() ==> !forbidden(#[trigger] s[i]),
    ensures
        forall|i: int| 0 <= i < trim(s).len() ==> !forbidden(#[trigger] trim(s)[i]),
{
    lemma_trim_start_keeps(s);
    lemma_trim_end_keeps(trim_start(s));
}

proof fn lemma_trim_start_keeps(s: Seq<char>)
    requires
        forall|i: int| 0 <= i < s.len() ==> !forbidden(#[trigger] s[i]),
    ensures
        forall|i: int| 0 <= i < trim_start(s).len() ==> !forbidden(#[trigger] trim_start(s)[i]),
    decreases s.len(),
{
    if s.len() > 0 && crate::text::is_ws(s[0]) {
        assert forall|i: int| 0 <= i < s.drop_first().len() implies !forbidden(
            #[trigger] s.drop_first()[i],
        ) by {
            assert(s.drop_first()[i] == s[i + 1]);
        }
        lemma_trim_start_keeps(s.drop_first());
        assert(trim_start(s) == trim_start(s.drop_first()));
    }
}

proof fn lemma_trim_end_keeps(s: Seq<char>)
    requires
        forall|i: int| 0 <= i < s.len() ==> !forbidden(#[trigger] s[i]),
    ensures
        forall|i: int| 0 <= i < trim_end(s).len() ==> !forbidden(#[trigger] trim_end(s)[i]),
    decreases s.len(),
{
    if s.len() > 0 && crate::text::is_ws(s.last()) {
        assert forall|i: int| 0 <= i < s.drop_last().len() implies !forbidden(
            #[trigger] s.drop_last()[i],
        ) by {
            assert(s.drop_last()[i] == s[i]);
        }
        lemma_trim_end_keeps(s.drop_last());
        assert(trim_end(s) == trim_end(s.drop_last()));
    }
}

/// A label that mentions unqualified products ("不合格") is never kept,
/// even though it also contains "合格".
pub proof fn law_unqualified_never_kept(name: Seq<char>)
    requires
        contains(name, "不合格"@),
    ensures
        classify_spec(name) == Kind::Unqualified,
{
}

/// A label is kept as a qualified list exactly when it says "合格" and not
/// "不合格".
pub proof fn law_qualified_kept(name: Seq<char>)
    ensures
        classify_spec(name) == Kind::Keep <==> (contains(name, "合格"@) && !contains(name, "不合格"@)),
{
}

/// The extension of a link is empty or one of the known extensions.
pub proof fn law_ext_known(url: Seq<char>)
    ensures
        ext_of_spec(url).len() == 0 || exts().contains(ext_of_spec(url)),
{
}

/// Falling back to plain http twice is the same as falling back once, and
/// an address that is not https is left alone.
pub proof fn law_fallback_idempotent(url: Seq<char>)
    ensures
        http_fallback_spec(http_fallback_spec(url)) == http_fallback_spec(url),
        !starts_with(url, "https://"@) ==> http_fallback_spec(url) == url,
{
    reveal_strlit("https://");
    reveal_strlit("http://");
    if starts_with(url, "https://"@) {
        let r = "http://"@ + url.skip(8);
        assert(r[4] == ':');
        assert(!starts_with(r, "https://"@)) by {
            if starts_with(r, "https://"@) {
                assert(r.subrange(0, 8)[4] == "https://"@[4]);
            }
        }
    }
}

/// Searching ignores whitespace in the text: texts that differ only in
/// whitespace give the same snippet for every term.
pub proof fn law_snippet_ignores_whitespace(t1: Seq<char>, t2: Seq<char>, term: Seq<char>)
    requires
        strip_ws(t1) == strip_ws(t2),
    ensures
        snippet_spec(t1, term) == snippet_spec(t2, term),
{
}

/// A term is found exactly when, stripped of whitespace and lower-cased,
/// it occurs in the text stripped and lower-cased the same way.
pub proof fn law_snippet_found_iff_occurs(text: Seq<char>, term: Seq<char>)
    ensures
        snippet_spec(text, term) is Some <==> contains(
            lowercase(strip_ws(text)),
            lowercase(strip_ws(term)),
        ),
{
    lemma_find_contains(lowercase(strip_ws(text)), lowercase(strip_ws(term)));
}

/// Every hit in a file names one of the searched terms.
pub proof fn law_hits_name_terms(file: Seq<char>, terms: Seq<Seq<char>>, content: Extracted)
    ensures
        forall|i: int|
            0 <= i < file_hits(file, terms, content).len() ==> terms.contains(
                #[trigger] file_hits(file, terms, content)[i].1,
            ),
    decreases terms.len(),
{
    if terms.len() > 0 {
        law_hits_name_terms(file, terms.drop_last(), content);
        lemma_term_hits_term(file, terms.last(), content);
        let a = file_hits(file, terms.drop_last(), content);
        let b = term_hits(file, terms.last(), content);
        assert forall|i: int| 0 <= i < file_hits(file, terms, content).len() implies terms.contains(
            #[trigger] file_hits(file, terms, content)[i].1,
        ) by {
            if i < a.len() {
                assert(file_hits(file, terms, content)[i] == a[i]);
                let k = choose|k: int| 0 <= k < terms.drop_last().len() && terms.drop_last()[k] == a[i].1;
                assert(terms[k] == a[i].1);
            } else {
                assert(file_hits(file, terms, content)[i] == b[i - a.len()]);
                assert(terms[terms.len() - 1] == terms.last());
            }
        }
    }
}

proof fn lemma_located_term(file: Seq<char>, term: Seq<char>, loc: Seq<char>, text: Seq<char>)
    ensures
        forall|i: int| 0 <= i < located(file, term, loc, text).len() ==> (#[trigger] located(file, term, loc, text)[i]).1 == term,
{
}

proof fn lemma_numbered_term(file: Seq<char>, term: Seq<char>, texts: Seq<Seq<char>>, unit: Seq<char>)
    ensures
        forall|i: int| 0 <= i < numbered_hits(file, term, texts, unit).len() ==> (#[trigger] numbered_hits(file, term, texts, unit)[i]).1 == term,
    decreases texts.len(),
{
    if texts.len() > 0 {
        lemma_numbered_term(file, term, texts.drop_last(), unit);
        let a = numbered_hits(file, term, texts.drop_last(), unit);
        let b = located(file, term, crate::search::ordinal(texts.len(), unit), texts.last());
        lemma_located_term(file, term, crate::search::ordinal(texts.len(), unit), texts.last());
        assert forall|i: int| 0 <= i < numbered_hits(file, term, texts, unit).len() implies (#[trigger] numbered_hits(file, term, texts, unit)[i]).1 == term by {
            if i < a.len() {
                assert(numbered_hits(file, term, texts, unit)[i] == a[i]);
            } else {
                assert(numbered_hits(file, term, texts, unit)[i] == b[i - a.len()]);
            }
        }
    }
}

proof fn lemma_rows_term(file: Seq<char>, term: Seq<char>, rows: Seq<(Seq<char>, usize, Seq<char>)>)
    ensures
        forall|i: int| 0 <= i < row_hits(file, term, rows).len() ==> (#[trigger] row_hits(file, term, rows)[i]).1 == term,
    decreases rows.len(),
{
    if rows.len() > 0 {
        lemma_rows_term(file, term, rows.drop_last());
        let r = rows.last();
        let a = row_hits(file, term, rows.drop_last());
        let b = located(file, term, crate::search::row_loc(r.0, r.1 as nat), r.2);
        lemma_located_term(file, term, crate::search::row_loc(r.0, r.1 as nat), r.2);
        assert forall|i: int| 0 <= i < row_hits(file, term, rows).len() implies (#[trigger] row_hits(file, term, rows)[i]).1 == term by {
            if i < a.len() {
                assert(row_hits(file, term, rows)[i] == a[i]);
            } else {
                assert(row_hits(file, term, rows)[i] == b[i - a.len()]);
            }
        }
    }
}

proof fn lemma_term_hits_term(file: Seq<char>, term: Seq<char>, content: Extracted)
    ensures
        forall|i: int| 0 <= i < term_hits(file, term, content).len() ==> (#[trigger] term_hits(file, term, content)[i]).1 == term,
{
    match content {
        Extracted::Pages(p) => lemma_numbered_term(file, term, p.deep_view(), "页"@),
        Extracted::Rows(r) => lemma_rows_term(file, term, r.deep_view()),
        Extracted::Paragraphs(p) => lemma_numbered_term(file, term, p.deep_view(), "段"@),
        Extracted::FullText(t) => lemma_located_term(file, term, "全文"@, t@),
        Extracted::Plain(t) => lemma_located_term(file, term, "文本"@, t@),
        Extracted::Failed => {},
    }
}

proof fn lemma_dedup_contains(s: Seq<Seq<char>>, x: Seq<char>)
    ensures
        dedup(s).contains(x) <==> s.contains(x),
    decreases s.len(),
{
    if s.len() > 0 {
        lemma_dedup_contains(s.drop_last(), x);
        if s.drop_last().contains(x) {
            let k = choose|k: int| 0 <= k < s.drop_last().len() && s.drop_last()[k] == x;
            assert(s[k] == x);
        }
        if s.contains(x) && x != s.last() {
            let k = choose|k: int| 0 <= k < s.len() && s[k] == x;
            assert(s.drop_last()[k] == x);
        }
        let d = dedup(s.drop_last());
        if !d.contains(s.last()) && d.push(s.last()).contains(x) && x != s.last() {
            let k = choose|k: int| 0 <= k < d.push(s.last()).len() && d.push(s.last())[k] == x;
            assert(d[k] == x);
        }
        if !d.contains(s.last()) && x == s.last() {
            assert(d.push(s.last())[d.len() as int] == x);
        }
        if !d.contains(s.last()) && d.contains(x) {
            let k = choose|k: int| 0 <= k < d.len() && d[k] == x;
            assert(d.push(s.last())[k] == x);
        }
    }
}

/// The blocks of a legacy document never repeat a text.
pub proof fn law_blocks_distinct(s: Seq<Seq<char>>)
    ensures
        dedup(s).no_duplicates(),
    decreases s.len(),
{
    if s.len() > 0 {
        law_blocks_distinct(s.drop_last());
        let d = dedup(s.drop_last());
        if !d.contains(s.last()) {
            let e = d.push(s.last());
            assert forall|i: int, j: int| 0 <= i < e.len() && 0 <= j < e.len() && i != j implies e[i] != e[j] by {
                if i < d.len() && j < d.len() {
                    assert(e[i] == d[i] && e[j] == d[j]);
                } else if i == d.len() {
                    assert(e[j] == d[j]);
                } else {
                    assert(e[i] == d[i]);
                }
            }
        }
    }
}

/// The numbered-block indices are valid indices, in strictly increasing
/// order.
pub proof fn law_clean_indices_increasing(blocks: Seq<Seq<char>>)
    requires
        blocks.len() <= usize::MAX,
    ensures
        forall|i: int| 0 <= i < clean_indices_spec(blocks).len() ==> (#[trigger] clean_indices_spec(blocks)[i]) < blocks.len(),
        forall|i: int, j: int|
            0 <= i < j < clean_indices_spec(blocks).len() ==> clean_indices_spec(blocks)[i] < clean_indices_spec(blocks)[j],
    decreases blocks.len(),
{
    if blocks.len() > 0 {
        law_clean_indices_increasing(blocks.drop_last());
        let init = clean_indices_spec(blocks.drop_last());
        let r = clean_indices_spec(blocks);
        if crate::docbin::clean_block(blocks.last()) {
            assert(r == init.push((blocks.len() - 1) as usize));
            assert forall|i: int| 0 <= i < r.len() implies (#[trigger] r[i]) < blocks.len() by {
                if i < init.len() {
                    assert(r[i] == init[i]);
                }
            }
            assert forall|i: int, j: int| 0 <= i < j < r.len() implies r[i] < r[j] by {
                assert(r[i] == init[i]);
                if j < init.len() {
                    assert(r[j] == init[j]);
                }
            }
        } else {
            assert(r == init);
        }
    }
}

/// A listing page belongs to a region exactly when the host of some region
/// occurs in its address, and then to the first such region of the table.
pub proof fn law_region_first_match(url: Seq<char>)
    ensures
        region_of_spec(url) is Some <==> exists|k: int| 0 <= k < N_REGIONS && contains(url, #[trigger] regions()[k].0),
        region_of_spec(url) matches Some(n) ==> exists|k: int|
            0 <= k < N_REGIONS && contains(url, #[trigger] regions()[k].0) && n == regions()[k].1
                && forall|j: int| 0 <= j < k ==> !contains(url, #[trigger] regions()[j].0),
{
    lemma_region_from(url, 0);
}

proof fn lemma_region_from(url: Seq<char>, k: int)
    requires
        0 <= k <= N_REGIONS,
    ensures
        region_from(url, k) is Some <==> exists|j: int| k <= j < N_REGIONS && contains(url, #[trigger] regions()[j].0),
        region_from(url, k) matches Some(n) ==> exists|j: int|
            k <= j < N_REGIONS && contains(url, #[trigger] regions()[j].0) && n == regions()[j].1
                && forall|i: int| k <= i < j ==> !contains(url, #[trigger] regions()[i].0),
    decreases N_REGIONS - k,
{
    if k < N_REGIONS {
        lemma_region_from(url, k + 1);
        if contains(url, regions()[k].0) {
            assert(region_from(url, k) == Some(regions()[k].1));
        }
    }
}

/// Every site read from `website.md` is an address starting with `http`.
pub proof fn law_sites_are_http(text: Seq<char>)
    ensures
        forall|i: int| 0 <= i < read_sites_spec(text).len() ==> starts_with(#[trigger] read_sites_spec(text)[i], "http"@),
{
    lemma_sites_http(crate::text::split(text, '\n'));
}

proof fn lemma_sites_http(lines: Seq<Seq<char>>)
    ensures
        forall|i: int| 0 <= i < sites_from(lines).len() ==> starts_with(#[trigger] sites_from(lines)[i], "http"@),
    decreases lines.len(),
{
    if lines.len() > 0 {
        lemma_sites_http(lines.drop_last());
        let init = sites_from(lines.drop_last());
        let r = sites_from(lines);
        let l = trim(lines.last());
        if starts_with(l, "http"@) {
            assert(r == init.push(l));
            assert forall|i: int| 0 <= i < r.len() implies starts_with(#[trigger] r[i], "http"@) by {
                if i < init.len() {
                    assert(r[i] == init[i]);
                }
            }
        } else {
            assert(r == init);
        }
    }
}

/// The user agents repeat with period 5.
pub proof fn law_user_agent_cycle(n: u64)
    requires
        n + 5 <= u64::MAX,
    ensures
        uas()[(n % 5) as int] == uas()[((n + 5) % 5) as int],
{
}

/// Once seeded, the jitter source no longer depends on the clock.
pub proof fn law_rand_seeded(state: u64, c1: Option<u64>, c2: Option<u64>)
    requires
        state != 0,
    ensures
        next_rand_spec(state, c1) == next_rand_spec(state, c2),
{
}

/// A jitter delay lies in its window.
pub proof fn law_jitter_in_window(min_ms: u64, max_ms: u64, r: u64)
    requires
        min_ms <= max_ms,
        jitter_span(min_ms, max_ms) < u64::MAX,
    ensures
        min_ms <= jitter_spec(min_ms, max_ms, r) <= max_ms,
{
}

proof fn lemma_replace_bars(s: Seq<char>)
    ensures
        !replace(s, seq!['|'], seq![' ']).contains('|'),
    decreases s.len(),
{
    if s.len() > 0 {
        let r = replace(s, seq!['|'], seq![' ']);
        if starts_with(s, seq!['|']) {
            lemma_replace_bars(s.skip(1));
            let t = replace(s.skip(1), seq!['|'], seq![' ']);
            assert(r == seq![' '] + t);
            assert forall|i: int| 0 <= i < r.len() implies r[i] != '|' by {
                if i > 0 {
                    assert(r[i] == t[i - 1]);
                    assert(!t.contains('|'));
                    if t[i - 1] == '|' {
                        assert(t.contains('|'));
                    }
                }
            }
        } else {
            lemma_replace_bars(s.drop_first());
            let t = replace(s.drop_first(), seq!['|'], seq![' ']);
            assert(s[0] != '|') by {
                if s[0] == '|' {
                    assert(s.subrange(0, 1) =~= seq!['|']);
                }
            }
            assert(r == seq![s[0]] + t);
            assert forall|i: int| 0 <= i < r.len() implies r[i] != '|' by {
                if i > 0 {
                    assert(r[i] == t[i - 1]);
                    if t[i - 1] == '|' {
                        assert(t.contains('|'));
                    }
                }
            }
        }
    }
}

/// Cleaned OCR output holds no table bars.
pub proof fn law_clean_markdown_no_bars(s: Seq<char>)
    ensures
        !clean_markdown_spec(s).contains('|'),
{
    lemma_replace_bars(crate::html::strip_tags_spec(s));
}

/// Distinct valid dates have distinct day numbers, so the date that
/// `civil_from_days` gives for a day is the only one.
pub proof fn law_day_numbers_unique(y1: int, m1: int, d1: int, y2: int, m2: int, d2: int)
    requires
        valid_date(y1, m1, d1),
        valid_date(y2, m2, d2),
        days_from_civil(y1, m1, d1) == days_from_civil(y2, m2, d2),
    ensures
        y1 == y2 && m1 == m2 && d1 == d2,
{
    crate::time::lemma_civil_unique(y1, m1, d1, y2, m2, d2);
}

/// A block of recovered text as a legacy document gives it: not empty,
/// trimmed, made of text characters, and holding an ideograph.
pub open spec fn good_block(s: Seq<char>) -> bool {
    &&& s.len() > 0
    &&& trim(s) == s
    &&& forall|i: int| 0 <= i < s.len() ==> texty(#[trigger] s[i])
    &&& has_cjk(s)
}

proof fn lemma_trim_start_at(s: Seq<char>, w: int)
    requires
        0 <= w < s.len(),
        !is_ws(s[w]),
    ensures
        exists|a: int| 0 <= a <= w && trim_start(s) == #[trigger] s.subrange(a, s.len() as int),
        trim_start(s).len() > 0,
        !is_ws(trim_start(s)[0]),
    decreases s.len(),
{
    if is_ws(s[0]) {
        lemma_trim_start_at(s.drop_first(), w - 1);
        let a = choose|a: int| 0 <= a <= w - 1 && trim_start(s.drop_first()) == #[trigger] s.drop_first().subrange(a, s.len() - 1);
        assert(s.drop_first().subrange(a, s.len() - 1) == s.subrange(a + 1, s.len() as int));
    } else {
        assert(s.subrange(0, s.len() as int) == s);
    }
}

proof fn lemma_trim_end_at(s: Seq<char>, w: int)
    requires
        0 <= w < s.len(),
        !is_ws(s[w]),
    ensures
        exists|b: int| w < b <= s.len() && trim_end(s) == #[trigger] s.subrange(0, b),
        trim_end(s).len() > 0,
        !is_ws(trim_end(s).last()),
    decreases s.len(),
{
    if is_ws(s.last()) {
        lemma_trim_end_at(s.drop_last(), w);
        let b = choose|b: int| w < b <= s.len() - 1 && trim_end(s.drop_last()) == #[trigger] s.drop_last().subrange(0, b);
        assert(s.drop_last().subrange(0, b) == s.subrange(0, b));
    } else {
        assert(s.subrange(0, s.len() as int) == s);
    }
}

/// A run of text characters that holds an ideograph is a good block once
/// trimmed.
proof fn lemma_trim_run(s: Seq<char>)
    requires
        forall|i: int| 0 <= i < s.len() ==> texty(#[trigger] s[i]),
        has_cjk(s),
    ensures
        good_block(trim(s)),
{
    let w = choose|w: int| 0 <= w < s.len() && cjk(s[w]);
    lemma_trim_start_at(s, w);
    let a = choose|a: int| 0 <= a <= w && trim_start(s) == #[trigger] s.subrange(a, s.len() as int);
    let u = trim_start(s);
    assert(u[w - a] == s[w]);
    lemma_trim_end_at(u, w - a);
    let b = choose|b: int| w - a < b <= u.len() && trim_end(u) == #[trigger] u.subrange(0, b);
    let t = trim(s);
    assert(t == s.subrange(a, a + b));
    assert(t[w - a] == s[w]);
    assert(!is_ws(u[0]));
    assert(t[0] == u[0]);
    assert(!is_ws(t[0]));
    assert(!is_ws(t.last()));
    assert(trim_start(t) == t);
    assert(trim_end(t) == t);
    assert forall|i: int| 0 <= i < t.len() implies texty(#[trigger] t[i]) by {
        assert(t[i] == s[a + i]);
    }
}

pub open spec fn good_blocks(v: Seq<BlockView>) -> bool {
    forall|i: int| 0 <= i < v.len() ==> good_block(#[trigger] v[i].2)
}

pub open spec fn good_texts(v: Seq<Seq<char>>) -> bool {
    forall|i: int| 0 <= i < v.len() ==> good_block(#[trigger] v[i])
}

proof fn lemma_scan_good(s: Seq<char>, base: int, stride: int)
    ensures
        good_blocks(scan_state(s, base, stride).0),
        forall|i: int|
            0 <= i < scan_state(s, base, stride).1.len() ==> texty(#[trigger] scan_state(s, base, stride).1[i]),
    decreases s.len(),
{
    if s.len() > 0 {
        lemma_scan_good(s.drop_last(), base, stride);
        let st = scan_state(s.drop_last(), base, stride);
        if !texty(s.last()) {
            lemma_flush_good(st.0, st.1, st.2, base, stride);
        } else {
            let c = st.1.push(s.last());
            assert forall|i: int| 0 <= i < c.len() implies texty(#[trigger] c[i]) by {
                if i < st.1.len() {
                    assert(c[i] == st.1[i]);
                }
            }
        }
    }
}

proof fn lemma_flush_good(blocks: Seq<BlockView>, cur: Seq<char>, start: int, base: int, stride: int)
    requires
        good_blocks(blocks),
        forall|i: int| 0 <= i < cur.len() ==> texty(#[trigger] cur[i]),
    ensures
        good_blocks(flush(blocks, cur, start, base, stride)),
{
    if cur.len() >= MIN_BLOCK && has_cjk(cur) {
        lemma_trim_run(cur);
        let f = flush(blocks, cur, start, base, stride);
        assert forall|i: int| 0 <= i < f.len() implies good_block(#[trigger] f[i].2) by {
            if i < blocks.len() {
                assert(f[i] == blocks[i]);
            }
        }
    }
}

proof fn lemma_collect_good(s: Seq<char>, base: int, stride: int)
    ensures
        good_blocks(collect_spec(s, base, stride)),
{
    lemma_scan_good(s, base, stride);
    let st = scan_state(s, base, stride);
    lemma_flush_good(st.0, st.1, st.2, base, stride);
}

proof fn lemma_merge_good(a: Seq<BlockView>, b: Seq<BlockView>)
    requires
        good_blocks(a),
        good_blocks(b),
    ensures
        good_blocks(merge_by_start(a, b)),
    decreases a.len() + b.len(),
{
    if a.len() > 0 && b.len() > 0 {
        if a[0].0 <= b[0].0 {
            let a1 = a.drop_first();
            assert(good_blocks(a1)) by {
                assert forall|i: int| 0 <= i < a1.len() implies good_block(#[trigger] a1[i].2) by {
                    assert(a1[i] == a[i + 1]);
                }
            }
            lemma_merge_good(a1, b);
            let m = seq![a[0]] + merge_by_start(a1, b);
            assert forall|i: int| 0 <= i < m.len() implies good_block(#[trigger] m[i].2) by {
                if i > 0 {
                    assert(m[i] == merge_by_start(a1, b)[i - 1]);
                }
            }
        } else {
            let b1 = b.drop_first();
            assert(good_blocks(b1)) by {
                assert forall|i: int| 0 <= i < b1.len() implies good_block(#[trigger] b1[i].2) by {
                    assert(b1[i] == b[i + 1]);
                }
            }
            lemma_merge_good(a, b1);
            let m = seq![b[0]] + merge_by_start(a, b1);
            assert forall|i: int| 0 <= i < m.len() implies good_block(#[trigger] m[i].2) by {
                if i > 0 {
                    assert(m[i] == merge_by_start(a, b1)[i - 1]);
                }
            }
        }
    }
}

proof fn lemma_keep_good(v: Seq<BlockView>)
    requires
        good_blocks(v),
    ensures
        good_blocks(keep_fold(v)),
    decreases v.len(),
{
    if v.len() > 0 {
        let p = v.drop_last();
        assert(good_blocks(p)) by {
            assert forall|i: int| 0 <= i < p.len() implies good_block(#[trigger] p[i].2) by {
                assert(p[i] == v[i]);
            }
        }
        lemma_keep_good(p);
        let k = keep_fold(p);
        let x = v.last();
        assert(good_block(x.2));
        let r = keep_fold(v);
        assert forall|i: int| 0 <= i < r.len() implies good_block(#[trigger] r[i].2) by {
            if i < k.len() && r[i] != x {
                assert(r[i] == k[i]);
            }
        }
    }
}

proof fn lemma_dedup_good(s: Seq<Seq<char>>)
    requires
        good_texts(s),
    ensures
        good_texts(dedup(s)),
    decreases s.len(),
{
    if s.len() > 0 {
        let p = s.drop_last();
        assert(good_texts(p)) by {
            assert forall|i: int| 0 <= i < p.len() implies good_block(#[trigger] p[i]) by {
                assert(p[i] == s[i]);
            }
        }
        lemma_dedup_good(p);
        assert(good_block(s.last()));
        let d = dedup(p);
        let r = dedup(s);
        assert forall|i: int| 0 <= i < r.len() implies good_block(#[trigger] r[i]) by {
            if i < d.len() {
                assert(r[i] == d[i]);
            }
        }
    }
}

/// Every text block of a byte stream is a good block: not empty, trimmed,
/// made of text characters and holding an ideograph; and no text occurs
/// twice.
pub proof fn law_text_blocks_good(bytes: Seq<u8>)
    ensures
        good_texts(text_blocks_spec(bytes)),
        text_blocks_spec(bytes).no_duplicates(),
{
    let gb = collect_spec(gb18030_decode(bytes), 0, 1);
    let u0 = collect_spec(utf16_units(bytes, 0), 0, 2);
    let u1 = collect_spec(utf16_units(bytes, 1), 1, 2);
    lemma_collect_good(gb18030_decode(bytes), 0, 1);
    lemma_collect_good(utf16_units(bytes, 0), 0, 2);
    lemma_collect_good(utf16_units(bytes, 1), 1, 2);
    lemma_merge_good(u0, u1);
    let chosen = if score(u0) + score(u1) > score(gb) {
        merge_by_start(u0, u1)
    } else {
        gb
    };
    lemma_keep_good(chosen);
    let texts = keep_fold(chosen).map_values(|b: BlockView| b.2);
    assert(good_texts(texts)) by {
        assert forall|i: int| 0 <= i < texts.len() implies good_block(#[trigger] texts[i]) by {
            assert(texts[i] == keep_fold(chosen)[i].2);
        }
    }
    lemma_dedup_good(texts);
    law_blocks_distinct(texts);
}

proof fn lemma_ole_step_good(data: Seq<u8>, acc: Option<Seq<Seq<char>>>, name: Seq<char>)
    requires
        acc matches Some(v) ==> good_texts(v),
    ensures
        ole_step(data, acc, name) matches Some(v) ==> good_texts(v),
{
    if let Some(out) = acc {
        if let Some(true) = ole_has_stream(data, name) {
            if let Some(b) = ole_stream(data, name) {
                law_text_blocks_good(b);
                let t = text_blocks_spec(b);
                let r = out + t;
                assert forall|i: int| 0 <= i < r.len() implies good_block(#[trigger] r[i]) by {
                    if i < out.len() {
                        assert(r[i] == out[i]);
                    } else {
                        assert(r[i] == t[i - out.len()]);
                    }
                }
            }
        }
    }
}

/// The blocks of a legacy document, when there are any, are not empty as
/// a list, and each is a good block; those of its compound-file streams
/// are preferred.
pub proof fn law_doc_blocks_good(data: Seq<u8>)
    ensures
        doc_blocks_spec(data) matches Some(v) ==> v.len() > 0 && good_texts(v),
        cfb_blocks_spec(data) matches Some(b) ==> doc_blocks_spec(data) == Some(b),
{
    let a = ole_step(data, Some(Seq::empty()), "WordDocument"@);
    let b = ole_step(data, a, "Workbook"@);
    lemma_ole_step_good(data, Some(Seq::empty()), "WordDocument"@);
    lemma_ole_step_good(data, a, "Workbook"@);
    lemma_ole_step_good(data, b, "Book"@);
    law_text_blocks_good(data);
}

/// The calendar day after `y-m-d`.
pub open spec fn next_day(y: int, m: int, d: int) -> (int, int, int) {
    if d < days_in_month(y, m) {
        (y, m, d + 1)
    } else if m < 12 {
        (y, m + 1, 1)
    } else {
        (y + 1, 1, 1)
    }
}

/// Consecutive day numbers are consecutive calendar days: the date of day
/// `z + 1` is the day after the date of day `z`.
pub proof fn law_next_day(y: int, m: int, d: int, y2: int, m2: int, d2: int)
    requires
        valid_date(y, m, d),
        valid_date(y2, m2, d2),
        days_from_civil(y2, m2, d2) == days_from_civil(y, m, d) + 1,
    ensures
        (y2, m2, d2) == next_day(y, m, d),
{
    let (ny, nm, nd) = next_day(y, m, d);
    if d < days_in_month(y, m) {
    } else if m < 12 {
    } else {
        lemma_leaps_step(y);
    }
    assert(valid_date(ny, nm, nd));
    assert(days_from_civil(ny, nm, nd) == days_from_civil(y, m, d) + 1);
    lemma_civil_unique(ny, nm, nd, y2, m2, d2);
}

/// An index is among the numbered-block indices exactly when it is a valid
/// index whose block is clean: at least three characters, at least two
/// ideographs, and whitespace at most two fifths of it.
pub proof fn law_clean_indices_members(blocks: Seq<Seq<char>>)
    requires
        blocks.len() <= usize::MAX,
    ensures
        forall|i: int|
            0 <= i < blocks.len() ==> (clean_indices_spec(blocks).contains(i as usize) <==> crate::docbin::clean_block(
                #[trigger] blocks[i],
            )),
        forall|k: usize| #[trigger] clean_indices_spec(blocks).contains(k) ==> (k as int) < blocks.len(),
    decreases blocks.len(),
{
    law_clean_indices_increasing(blocks);
    let r = clean_indices_spec(blocks);
    assert forall|k: usize| #[trigger] r.contains(k) implies (k as int) < blocks.len() by {
        let j = choose|j: int| 0 <= j < r.len() && r[j] == k;
        assert(r[j] < blocks.len());
    }
    if blocks.len() > 0 {
        let p = blocks.drop_last();
        law_clean_indices_members(p);
        let init = clean_indices_spec(p);
        let last = (blocks.len() - 1) as usize;
        assert(!init.contains(last)) by {
            if init.contains(last) {
                assert((last as int) < p.len());
            }
        }
        assert forall|i: int| 0 <= i < blocks.len() implies (r.contains(i as usize) <==> crate::docbin::clean_block(
            #[trigger] blocks[i],
        )) by {
            if i < p.len() {
                assert(blocks[i] == p[i]);
                if crate::docbin::clean_block(blocks.last()) {
                    assert(r == init.push(last));
                    if r.contains(i as usize) {
                        let j = choose|j: int| 0 <= j < r.len() && r[j] == i as usize;
                        if j < init.len() {
                            assert(init[j] == r[j]);
                        }
                    }
                    if init.contains(i as usize) {
                        let j = choose|j: int| 0 <= j < init.len() && init[j] == i as usize;
                        assert(r[j] == init[j]);
                    }
                } else {
                    assert(r == init);
                }
            } else {
                if crate::docbin::clean_block(blocks.last()) {
                    assert(r == init.push(last));
                    assert(r[r.len() - 1] == last);
                } else {
                    assert(r == init);
                }
            }
        }
    }
}

/// The place in the agent pool of request `n + k`.
pub open spec fn agent_slot(n: int, k: int) -> int {
    (n + k) % 5
}

/// Five consecutive requests use five different places of the pool of
/// five agents, so each agent once.
pub proof fn law_user_agents_rotate(n: u64)
    ensures
        uas().len() == 5,
        forall|k: int| 0 <= k < 5 ==> 0 <= #[trigger] agent_slot(n as int, k) < 5,
        forall|k1: int, k2: int|
            0 <= k1 < 5 && 0 <= k2 < 5 && k1 != k2 ==> #[trigger] agent_slot(n as int, k1) != #[trigger] agent_slot(
                n as int,
                k2,
            ),
{
    let r = n % 5;
    assert forall|k1: int, k2: int| 0 <= k1 < 5 && 0 <= k2 < 5 && k1 != k2 implies #[trigger] agent_slot(
        n as int,
        k1,
    ) != #[trigger] agent_slot(n as int, k2) by {
        assert(agent_slot(n as int, k1) == (r + k1) % 5);
        assert(agent_slot(n as int, k2) == (r + k2) % 5);
    }
}

proof fn lemma_before_query_twice(s: Seq<char>)
    ensures
        before_query(before_query(s)) == before_query(s),
    decreases s.len(),
{
    if !(s.len() == 0 || s[0] == '?' || s[0] == '#') {
        lemma_before_query_twice(s.drop_first());
        let t = seq![s[0]] + before_query(s.drop_first());
        assert(t.drop_first() == before_query(s.drop_first()));
    }
}

/// The extension of a link is that of the link cut before its query or
/// fragment.
pub proof fn law_ext_of_ignores_query(url: Seq<char>)
    ensures
        ext_of_spec(before_query(url)) == ext_of_spec(url),
{
    lemma_before_query_twice(url);
}

/// How the OCR text of a PDF is taken: after a failed extraction the OCR
/// result stands as it is; an OCR error stands as it is; OCR text that is
/// too sparse after a successful extraction is an error; other OCR text is
/// taken.
pub proof fn law_ocr_outcome(extracted: bool, ocr: Result<Seq<Seq<char>>, Seq<char>>)
    ensures
        !extracted ==> ocr_outcome_spec(extracted, ocr) == ocr,
        ocr is Err ==> ocr_outcome_spec(extracted, ocr) == ocr,
        ocr matches Ok(p) ==> (ocr_outcome_spec(extracted, ocr) is Err <==> extracted && text_sparse(p)),
        ocr matches Ok(p) && !(extracted && text_sparse(p)) ==> ocr_outcome_spec(extracted, ocr) == ocr,
{
}

/// A file that could not be read has no hits.
pub proof fn law_unreadable_file_no_hits(file: Seq<char>, terms: Seq<Seq<char>>)
    ensures
        file_hits(file, terms, Extracted::Failed).len() == 0,
    decreases terms.len(),
{
    if terms.len() > 0 {
        law_unreadable_file_no_hits(file, terms.drop_last());
    }
}

proof fn lemma_find_first(s: Seq<char>, t: Seq<char>, i: int)
    requires
        0 <= i,
        occurs_at(s, t, i),
        forall|j: int| 0 <= j < i ==> !occurs_at(s, t, j),
    ensures
        find(s, t) == Some(i),
{
    lemma_find_from_some(s, t, 0);
}

/// The directory segments of a base path: the non-empty segments before
/// its last `/` (none when it has no `/`).
pub open spec fn dir_segments(p: Seq<char>) -> Seq<Seq<char>> {
    let dir = match last_index_of(p, '/') {
        Some(k) => p.take(k),
        None => Seq::<char>::empty(),
    };
    split(dir, '/').filter(|q: Seq<char>| q.len() > 0)
}

/// A relative link on the page `{sc}://{host}/{p}` resolves against the
/// directory of `p`: the result is `{sc}://{host}/` followed by the
/// directory segments, with the link's segments appended in order (`.` and
/// empty ones skipped, `..` dropping the last segment), joined by `/`.
pub proof fn law_absolutize_relative(sc: Seq<char>, host: Seq<char>, p: Seq<char>, href: Seq<char>)
    requires
        !contains(sc, "://"@),
        !contains(host, "/"@),
        ({
            let h = replace(trim(href), "&amp;"@, "&"@);
            &&& h.len() > 0
            &&& !starts_with(h, "#"@)
            &&& !starts_with(h, "/"@)
            &&& !starts_with(h, "javascript:"@)
            &&& !starts_with(h, "http://"@)
            &&& !starts_with(h, "https://"@)
        }),
    ensures
        absolutize_spec(sc + "://"@ + host + "/"@ + p, href) == sc + "://"@ + host + "/"@ + join(
            resolve(dir_segments(p), split(replace(trim(href), "&amp;"@, "&"@), '/')),
            "/"@,
        ),
{
    reveal_strlit("://");
    reveal_strlit("/");
    reveal_strlit("//");
    let sep = "://"@;
    let slash = "/"@;
    let base = sc + sep + host + slash + p;
    let n = sc.len() as int;
    assert(base.subrange(n, n + 3) == sep);
    assert forall|j: int| 0 <= j < n implies !occurs_at(base, sep, j) by {
        if occurs_at(base, sep, j) {
            if j + 3 <= n {
                assert(sc.subrange(j, j + 3) == base.subrange(j, j + 3));
                assert(occurs_at(sc, sep, j));
            } else if j == n - 1 {
                assert(base[j + 1] == base.subrange(j, j + 3)[1]);
                assert(base[j + 1] == ':');
            } else {
                assert(base[j + 2] == base.subrange(j, j + 3)[2]);
                assert(base[j + 2] == ':');
            }
        }
    }
    lemma_find_first(base, sep, n);
    assert(base.take(n) == sc);
    let after = base.skip(n + 3);
    assert(after == host + slash + p);
    let m = host.len() as int;
    assert(after.subrange(m, m + 1) == slash);
    assert forall|j: int| 0 <= j < m implies !occurs_at(after, slash, j) by {
        if occurs_at(after, slash, j) {
            assert(host.subrange(j, j + 1) == after.subrange(j, j + 1));
            assert(occurs_at(host, slash, j));
        }
    }
    lemma_find_first(after, slash, m);
    assert(after.take(m) == host);
    assert(after.skip(m + 1) == p);
    let h = replace(trim(href), "&amp;"@, "&"@);
    if starts_with(h, "//"@) {
        assert(h.subrange(0, 1) == "//"@.subrange(0, 1));
        assert("//"@.subrange(0, 1) == slash);
    }
    assert(!starts_with(h, "//"@));
}

/// Every page (or paragraph) on which a term is found gives a hit that
/// names the file and the term, is located as "第{k+1}{unit}" for the
/// k-th text, and carries the snippet of that text; and there is exactly
/// one hit for each text on which the term is found.
pub proof fn law_numbered_hits_complete(
    file: Seq<char>,
    term: Seq<char>,
    texts: Seq<Seq<char>>,
    unit: Seq<char>,
)
    ensures
        forall|k: int|
            0 <= k < texts.len() && (#[trigger] snippet_spec(texts[k], term)) is Some
                ==> numbered_hits(file, term, texts, unit).contains(
                (file, term, "第"@ + decimal((k + 1) as nat) + unit, snippet_spec(texts[k], term)->Some_0),
            ),
        numbered_hits(file, term, texts, unit).len() == texts.filter(
            |x: Seq<char>| snippet_spec(x, term) is Some,
        ).len(),
    decreases texts.len(),
{
    reveal_with_fuel(Seq::filter, 1);
    if texts.len() > 0 {
        let p = texts.drop_last();
        law_numbered_hits_complete(file, term, p, unit);
        let init = numbered_hits(file, term, p, unit);
        let all = numbered_hits(file, term, texts, unit);
        let last = located(file, term, "第"@ + decimal(texts.len() as nat) + unit, texts.last());
        assert(all == init + last);
        assert forall|k: int|
            0 <= k < texts.len() && (#[trigger] snippet_spec(texts[k], term)) is Some implies all.contains(
            (file, term, "第"@ + decimal((k + 1) as nat) + unit, snippet_spec(texts[k], term)->Some_0),
        ) by {
            let h = (file, term, "第"@ + decimal((k + 1) as nat) + unit, snippet_spec(texts[k], term)->Some_0);
            if k < p.len() {
                assert(p[k] == texts[k]);
                assert(snippet_spec(p[k], term) is Some);
                let j = choose|j: int| 0 <= j < init.len() && init[j] == h;
                assert(all[j] == h);
            } else {
                assert(last == seq![h]);
                assert(all[init.len() as int] == h);
            }
        }
    }
}

/// On a PDF the hits of a term are located by page: for each page `k` on
/// which the term is found, one hit "第{k+1}页" with that page's snippet,
/// and no other hit.
pub proof fn law_pdf_hits_by_page(file: Seq<char>, term: Seq<char>, pages: Vec<String>)
    ensures
        forall|k: int|
            0 <= k < pages@.len() && (#[trigger] snippet_spec(pages@[k]@, term)) is Some
                ==> term_hits(file, term, Extracted::Pages(pages)).contains(
                (file, term, "第"@ + decimal((k + 1) as nat) + "页"@, snippet_spec(pages@[k]@, term)->Some_0),
            ),
        term_hits(file, term, Extracted::Pages(pages)).len() == pages.deep_view().filter(
            |x: Seq<char>| snippet_spec(x, term) is Some,
        ).len(),
{
    let t = pages.deep_view();
    law_numbered_hits_complete(file, term, t, "页"@);
    assert forall|k: int|
        0 <= k < pages@.len() && (#[trigger] snippet_spec(pages@[k]@, term)) is Some
            implies term_hits(file, term, Extracted::Pages(pages)).contains(
            (file, term, "第"@ + decimal((k + 1) as nat) + "页"@, snippet_spec(pages@[k]@, term)->Some_0),
        ) by {
        assert(t[k] == pages@[k]@);
        assert(snippet_spec(t[k], term) is Some);
    }
}

/// On a Word document the hits of a term are located by paragraph: for
/// each paragraph `k` on which the term is found, one hit "第{k+1}段" with
/// that paragraph's snippet, and no other hit.
pub proof fn law_word_hits_by_paragraph(file: Seq<char>, term: Seq<char>, paras: Vec<String>)
    ensures
        forall|k: int|
            0 <= k < paras@.len() && (#[trigger] snippet_spec(paras@[k]@, term)) is Some
                ==> term_hits(file, term, Extracted::Paragraphs(paras)).contains(
                (file, term, "第"@ + decimal((k + 1) as nat) + "段"@, snippet_spec(paras@[k]@, term)->Some_0),
            ),
        term_hits(file, term, Extracted::Paragraphs(paras)).len() == paras.deep_view().filter(
            |x: Seq<char>| snippet_spec(x, term) is Some,
        ).len(),
{
    let t = paras.deep_view();
    law_numbered_hits_complete(file, term, t, "段"@);
    assert forall|k: int|
        0 <= k < paras@.len() && (#[trigger] snippet_spec(paras@[k]@, term)) is Some
            implies term_hits(file, term, Extracted::Paragraphs(paras)).contains(
            (file, term, "第"@ + decimal((k + 1) as nat) + "段"@, snippet_spec(paras@[k]@, term)->Some_0),
        ) by {
        assert(t[k] == paras@[k]@);
        assert(snippet_spec(t[k], term) is Some);
    }
}

proof fn lemma_unqualified_mentions_qualified(name: Seq<char>)
    requires
        contains(name, "不合格"@),
    ensures
        contains(name, "合格"@),
{
    reveal_strlit("不合格");
    reveal_strlit("合格");
    let i = choose|i: int| occurs_at(name, "不合格"@, i);
    assert(name.subrange(i + 1, i + 3) == "不合格"@.subrange(1, 3));
    assert("不合格"@.subrange(1, 3) == "合格"@);
    assert(occurs_at(name, "合格"@, i + 1));
}

/// A label that says nothing of "合格" is a combined result table, and so
/// downloaded, exactly when one of the data markers (附件, 明细, 汇总,
/// 信息表, 结果, 通告, 公告, 抽检, 监测, 检测, 台账, 报告, 数据, 表) occurs
/// anywhere in it; otherwise it is an auxiliary file and skipped.
pub proof fn law_classify_by_markers(name: Seq<char>, marker: Seq<char>, at: int)
    requires
        !contains(name, "合格"@),
    ensures
        classify_spec(name) == Kind::Mixed || classify_spec(name) == Kind::Ignore,
        classify_spec(name) == Kind::Mixed <==> exists|k: int|
            0 <= k < 14 && contains(name, #[trigger] data_markers()[k]),
        data_markers().contains(marker) && occurs_at(name, marker, at) ==> classify_spec(name) == Kind::Mixed,
{
    if contains(name, "不合格"@) {
        lemma_unqualified_mentions_qualified(name);
    }
    if data_markers().contains(marker) && occurs_at(name, marker, at) {
        let k = choose|k: int| 0 <= k < data_markers().len() && data_markers()[k] == marker;
        assert(contains(name, data_markers()[k]));
    }
}

/// A labelled publication date wins: when the page holds a publication
/// label (PubDate, 发布时间, 发布日期, publishdate, createdate) followed by a
/// readable date, that date is the page's date, whatever bare dates come
/// earlier in the page; only a page without one falls back to its first
/// bare date, and a page with neither has no date.
pub proof fn law_labelled_date_wins(html: Seq<char>)
    ensures
        date_parts(regex_captures(pubdate_pattern(), html), 2) matches Some(d) ==> scan_date_spec(html) == d,
        date_parts(regex_captures(pubdate_pattern(), html), 2) is None ==> (
        date_parts(regex_captures(bare_date_pattern(), html), 1) matches Some(d) ==> scan_date_spec(html) == d),
        date_parts(regex_captures(pubdate_pattern(), html), 2) is None && date_parts(
            regex_captures(bare_date_pattern(), html),
            1,
        ) is None ==> scan_date_spec(html) == (0i32, 0u32, 0u32),
{
}

/// A link whose resolved address ends in "." followed by one of the nine
/// attachment extensions (doc, docx, xls, xlsx, pdf, wps, ppt, pptx, zip)
/// is kept as an attachment, with its label stripped of tags; and every
/// attachment kept is such a link or lies under `/files/` or
/// `/attachment/`.
pub proof fn law_attachment_links_kept(base: Seq<char>, pairs: Seq<(Seq<char>, Seq<char>)>)
    ensures
        forall|k: int, e: int|
            0 <= k < pairs.len() && 0 <= e < 9 && absolutize_spec(base, pairs[k].0).len() > 0 && ends_with(
                #[trigger] absolutize_spec(base, pairs[k].0),
                seq!['.'] + #[trigger] exts()[e],
            ) ==> attachments_spec(base, pairs).contains(
                (absolutize_spec(base, pairs[k].0), strip_tags_spec(pairs[k].1)),
            ),
        forall|i: int|
            0 <= i < attachments_spec(base, pairs).len() ==> {
                let h = (#[trigger] attachments_spec(base, pairs)[i]).0;
                h.len() > 0 && ((exists|e: int| 0 <= e < 9 && ends_with(h, seq!['.'] + exts()[e]))
                    || contains(h, "/files/"@) || contains(h, "/attachment/"@))
            },
    decreases pairs.len(),
{
    if pairs.len() > 0 {
        let p = pairs.drop_last();
        law_attachment_links_kept(base, p);
        let init = attachments_spec(base, p);
        let all = attachments_spec(base, pairs);
        let last_h = absolutize_spec(base, pairs.last().0);
        assert forall|k: int, e: int|
            0 <= k < pairs.len() && 0 <= e < 9 && absolutize_spec(base, pairs[k].0).len() > 0 && ends_with(
                #[trigger] absolutize_spec(base, pairs[k].0),
                seq!['.'] + #[trigger] exts()[e],
            ) implies all.contains((absolutize_spec(base, pairs[k].0), strip_tags_spec(pairs[k].1))) by {
            if k < p.len() {
                assert(p[k] == pairs[k]);
                assert(absolutize_spec(base, p[k].0) == absolutize_spec(base, pairs[k].0));
                assert(ends_with(absolutize_spec(base, p[k].0), seq!['.'] + exts()[e]));
                let x = (absolutize_spec(base, pairs[k].0), strip_tags_spec(pairs[k].1));
                let j = choose|j: int| 0 <= j < init.len() && init[j] == x;
                assert(has_ext(last_h) ==> all == init.push((last_h, strip_tags_spec(pairs.last().1))));
                if all != init {
                    assert(all[j] == x);
                }
            } else {
                assert(has_ext(last_h));
                assert(all == init.push((last_h, strip_tags_spec(pairs.last().1))));
                assert(all[init.len() as int] == (last_h, strip_tags_spec(pairs.last().1)));
            }
        }
        assert forall|i: int| 0 <= i < all.len() implies {
            let h = (#[trigger] all[i]).0;
            h.len() > 0 && ((exists|e: int| 0 <= e < 9 && ends_with(h, seq!['.'] + exts()[e]))
                || contains(h, "/files/"@) || contains(h, "/attachment/"@))
        } by {
            if i < init.len() {
                if all != init {
                    assert(all[i] == init[i]);
                }
            }
        }
    }
}

/// The reading of a legacy stream that wins: when the blocks of the two
/// UTF-16 readings (at even and odd offsets) score more than the blocks of
/// the GB18030 reading, the text blocks are those of the UTF-16 readings,
/// merged by position; only otherwise are they those of the GB18030
/// reading.
pub proof fn law_text_blocks_reading(bytes: Seq<u8>)
    ensures
        ({
            let gb = collect_spec(gb18030_decode(bytes), 0, 1);
            let u0 = collect_spec(utf16_units(bytes, 0), 0, 2);
            let u1 = collect_spec(utf16_units(bytes, 1), 1, 2);
            &&& score(u0) + score(u1) > score(gb) ==> text_blocks_spec(bytes) == dedup(
                keep_fold(merge_by_start(u0, u1)).map_values(|b: BlockView| b.2),
            )
            &&& score(u0) + score(u1) <= score(gb) ==> text_blocks_spec(bytes) == dedup(
                keep_fold(gb).map_values(|b: BlockView| b.2),
            )
        }),
{
}

proof fn lemma_concat_contains<A>(a: Seq<A>, b: Seq<A>, x: A)
    ensures
        (a + b).contains(x) <==> (a.contains(x) || b.contains(x)),
{
    if a.contains(x) {
        let j = choose|j: int| 0 <= j < a.len() && a[j] == x;
        assert((a + b)[j] == x);
    }
    if b.contains(x) {
        let j = choose|j: int| 0 <= j < b.len() && b[j] == x;
        assert((a + b)[a.len() + j] == x);
    }
    if (a + b).contains(x) {
        let j = choose|j: int| 0 <= j < (a + b).len() && (a + b)[j] == x;
        if j < a.len() {
            assert(a[j] == x);
        } else {
            assert(b[j - a.len()] == x);
        }
    }
}

/// In a workbook, every row on which a term is found gives a hit located as
/// "第{row}行 (工作表: {sheet})" with that row's snippet; and there is exactly
/// one hit for each such row.
pub proof fn law_row_hits_complete(file: Seq<char>, term: Seq<char>, rows: Seq<(Seq<char>, usize, Seq<char>)>)
    ensures
        forall|k: int|
            0 <= k < rows.len() && (#[trigger] snippet_spec(rows[k].2, term)) is Some ==> row_hits(
                file,
                term,
                rows,
            ).contains(
                (
                    file,
                    term,
                    "第"@ + decimal(rows[k].1 as nat) + "行 (工作表: "@ + rows[k].0 + ")"@,
                    snippet_spec(rows[k].2, term)->Some_0,
                ),
            ),
        row_hits(file, term, rows).len() == rows.filter(
            |r: (Seq<char>, usize, Seq<char>)| snippet_spec(r.2, term) is Some,
        ).len(),
    decreases rows.len(),
{
    reveal_with_fuel(Seq::filter, 1);
    if rows.len() > 0 {
        let p = rows.drop_last();
        law_row_hits_complete(file, term, p);
        let init = row_hits(file, term, p);
        let all = row_hits(file, term, rows);
        let r = rows.last();
        let last = located(file, term, "第"@ + decimal(r.1 as nat) + "行 (工作表: "@ + r.0 + ")"@, r.2);
        assert("第"@ + decimal(r.1 as nat) + "行 (工作表: "@ + r.0 + ")"@ == crate::search::row_loc(r.0, r.1 as nat));
        assert(all == init + last);
        assert forall|k: int|
            0 <= k < rows.len() && (#[trigger] snippet_spec(rows[k].2, term)) is Some implies all.contains(
            (
                file,
                term,
                "第"@ + decimal(rows[k].1 as nat) + "行 (工作表: "@ + rows[k].0 + ")"@,
                snippet_spec(rows[k].2, term)->Some_0,
            ),
        ) by {
            let h = (
                file,
                term,
                "第"@ + decimal(rows[k].1 as nat) + "行 (工作表: "@ + rows[k].0 + ")"@,
                snippet_spec(rows[k].2, term)->Some_0,
            );
            if k < p.len() {
                assert(p[k] == rows[k]);
                assert(snippet_spec(p[k].2, term) is Some);
                lemma_concat_contains(init, last, h);
            } else {
                assert(last == seq![h]);
                assert(last[0] == h);
                lemma_concat_contains(init, last, h);
            }
        }
    }
}

/// A legacy document or a plain text file gives at most one hit per term:
/// located as "全文" (or "文本") with the snippet of the whole text exactly
/// when the term is found in it.
pub proof fn law_whole_text_hits(file: Seq<char>, term: Seq<char>, text: String)
    ensures
        term_hits(file, term, Extracted::FullText(text)) == (match snippet_spec(text@, term) {
            Some(s) => seq![(file, term, "全文"@, s)],
            None => Seq::empty(),
        }),
        term_hits(file, term, Extracted::Plain(text)) == (match snippet_spec(text@, term) {
            Some(s) => seq![(file, term, "文本"@, s)],
            None => Seq::empty(),
        }),
        term_hits(file, term, Extracted::Failed).len() == 0,
{
}

/// The hits of a file are, term by term, the hits of each searched term:
/// every hit of a searched term is a hit of the file, and every hit of the
/// file is a hit of one of the searched terms.
pub proof fn law_file_hits_by_term(file: Seq<char>, terms: Seq<Seq<char>>, content: Extracted, h: (Seq<char>, Seq<char>, Seq<char>, Seq<char>))
    ensures
        file_hits(file, terms, content).contains(h) <==> exists|i: int|
            0 <= i < terms.len() && #[trigger] term_hits(file, terms[i], content).contains(h),
    decreases terms.len(),
{
    if terms.len() > 0 {
        let p = terms.drop_last();
        law_file_hits_by_term(file, p, content, h);
        lemma_concat_contains(file_hits(file, p, content), term_hits(file, terms.last(), content), h);
        if exists|i: int| 0 <= i < terms.len() && #[trigger] term_hits(file, terms[i], content).contains(h) {
            let i = choose|i: int| 0 <= i < terms.len() && #[trigger] term_hits(file, terms[i], content).contains(h);
            if i < p.len() {
                assert(p[i] == terms[i]);
            }
        }
        if file_hits(file, p, content).contains(h) {
            let i = choose|i: int| 0 <= i < p.len() && #[trigger] term_hits(file, p[i], content).contains(h);
            assert(p[i] == terms[i]);
        }
        if term_hits(file, terms.last(), content).contains(h) {
            assert(term_hits(file, terms[terms.len() - 1], content).contains(h));
        }
    }
}

/// The hits of a search are those of its files: every hit of a file is a
/// hit of the search, and every hit of the search is a hit of one file.
pub proof fn law_run_hits_by_file(terms: Seq<Seq<char>>, files: Seq<ScannedFile>, h: (Seq<char>, Seq<char>, Seq<char>, Seq<char>))
    ensures
        run_hits(terms, files).contains(h) <==> exists|j: int|
            0 <= j < files.len() && #[trigger] file_hits(files[j].name@, terms, files[j].content).contains(h),
    decreases files.len(),
{
    if files.len() > 0 {
        let p = files.drop_last();
        law_run_hits_by_file(terms, p, h);
        let l = files.last();
        lemma_concat_contains(run_hits(terms, p), file_hits(l.name@, terms, l.content), h);
        if exists|j: int| 0 <= j < files.len() && #[trigger] file_hits(files[j].name@, terms, files[j].content).contains(h) {
            let j = choose|j: int| 0 <= j < files.len() && #[trigger] file_hits(files[j].name@, terms, files[j].content).contains(h);
            if j < p.len() {
                assert(p[j] == files[j]);
            }
        }
        if run_hits(terms, p).contains(h) {
            let j = choose|j: int| 0 <= j < p.len() && #[trigger] file_hits(p[j].name@, terms, p[j].content).contains(h);
            assert(p[j] == files[j]);
        }
        if file_hits(l.name@, terms, l.content).contains(h) {
            assert(files[files.len() - 1] == l);
        }
    }
}

/// The files reported as unreadable are exactly those whose text could not
/// be read, in order: one entry for each of them, and each entry the path
/// of one of them.
pub proof fn law_unparsed_files(files: Seq<ScannedFile>)
    ensures
        run_unparsed(files).len() == files.filter(|f: ScannedFile| f.content is Failed).len(),
        forall|j: int| 0 <= j < files.len() && (#[trigger] files[j]).content is Failed ==> run_unparsed(files).contains(files[j].path@),
        forall|i: int|
            #![trigger run_unparsed(files)[i]]
            0 <= i < run_unparsed(files).len() ==> exists|j: int|
                0 <= j < files.len() && (#[trigger] files[j]).content is Failed && files[j].path@ == run_unparsed(files)[i],
    decreases files.len(),
{
    reveal_with_fuel(Seq::filter, 1);
    if files.len() > 0 {
        let p = files.drop_last();
        law_unparsed_files(p);
        let u = run_unparsed(p);
        let all = run_unparsed(files);
        let l = files.last();
        assert forall|j: int| 0 <= j < files.len() && (#[trigger] files[j]).content is Failed implies all.contains(files[j].path@) by {
            if j < p.len() {
                assert(p[j] == files[j]);
                let i = choose|i: int| 0 <= i < u.len() && u[i] == p[j].path@;
                if all != u {
                    assert(all == u.push(l.path@));
                    assert(all[i] == u[i]);
                }
            } else {
                assert(all == u.push(l.path@));
                assert(all[u.len() as int] == l.path@);
            }
        }
        assert forall|i: int|
            #![trigger all[i]]
            0 <= i < all.len() implies exists|j: int|
                0 <= j < files.len() && (#[trigger] files[j]).content is Failed && files[j].path@ == all[i] by {
            if i < u.len() {
                let j = choose|j: int| 0 <= j < p.len() && (#[trigger] p[j]).content is Failed && p[j].path@ == u[i];
                assert(p[j] == files[j]);
                if all != u {
                    assert(all == u.push(l.path@));
                    assert(all[i] == u[i]);
                }
            } else {
                assert(all == u.push(l.path@));
                assert(files[files.len() - 1] == l);
            }
        }
    }
}

/// The notice links of a date-path listing: each link whose resolved
/// address holds the month token ("YYYYMM") is taken once, in order of
/// first appearance; nothing else is taken.
pub proof fn law_dated_links(seed: Seq<char>, token: Seq<char>, hrefs: Seq<Seq<char>>)
    ensures
        dated_links_spec(seed, token, hrefs).no_duplicates(),
        forall|i: int|
            0 <= i < dated_links_spec(seed, token, hrefs).len() ==> contains(
                #[trigger] dated_links_spec(seed, token, hrefs)[i],
                token,
            ) && exists|k: int|
                0 <= k < hrefs.len() && absolutize_spec(seed, #[trigger] hrefs[k]) == dated_links_spec(
                    seed,
                    token,
                    hrefs,
                )[i],
        forall|k: int|
            0 <= k < hrefs.len() && contains(#[trigger] absolutize_spec(seed, hrefs[k]), token)
                ==> dated_links_spec(seed, token, hrefs).contains(absolutize_spec(seed, hrefs[k])),
    decreases hrefs.len(),
{
    if hrefs.len() > 0 {
        let p = hrefs.drop_last();
        law_dated_links(seed, token, p);
        let seen = dated_links_spec(seed, token, p);
        let all = dated_links_spec(seed, token, hrefs);
        let h = absolutize_spec(seed, hrefs.last());
        if contains(h, token) && !seen.contains(h) {
            assert(all == seen.push(h));
            assert forall|i: int, j: int| 0 <= i < all.len() && 0 <= j < all.len() && i != j implies all[i] != all[j] by {
                if i < seen.len() && j < seen.len() {
                } else if i == seen.len() {
                    assert(all[j] == seen[j]);
                } else {
                    assert(all[i] == seen[i]);
                }
            }
        } else {
            assert(all == seen);
        }
        assert forall|i: int| 0 <= i < all.len() implies contains(#[trigger] all[i], token) && exists|k: int|
            0 <= k < hrefs.len() && absolutize_spec(seed, #[trigger] hrefs[k]) == all[i] by {
            if i < seen.len() {
                assert(all[i] == seen[i]);
                let k = choose|k: int| 0 <= k < p.len() && absolutize_spec(seed, #[trigger] p[k]) == seen[i];
                assert(p[k] == hrefs[k]);
            } else {
                assert(hrefs[hrefs.len() - 1] == hrefs.last());
            }
        }
        assert forall|k: int|
            0 <= k < hrefs.len() && contains(#[trigger] absolutize_spec(seed, hrefs[k]), token)
                implies all.contains(absolutize_spec(seed, hrefs[k])) by {
            if k < p.len() {
                assert(p[k] == hrefs[k]);
                let x = absolutize_spec(seed, hrefs[k]);
                assert(contains(absolutize_spec(seed, p[k]), token));
                let i = choose|i: int| 0 <= i < seen.len() && seen[i] == x;
                assert(all[i] == x);
            } else {
                assert(hrefs[k] == hrefs.last());
                if seen.contains(h) {
                    let i = choose|i: int| 0 <= i < seen.len() && seen[i] == h;
                    assert(all[i] == h);
                } else {
                    assert(all[seen.len() as int] == h);
                }
            }
        }
    }
}

/// The notice links of a TRS listing: at most sixty distinct article links
/// (post_, content_, tNNNN.ext, or the month directory), each resolved from
/// a link of the page; and until sixty are taken, every resolved article
/// link of the page is among them.
pub proof fn law_trs_links(seed: Seq<char>, hrefs: Seq<Seq<char>>, year: i64, month: u32)
    ensures
        trs_links_spec(seed, hrefs, year, month).len() <= 60,
        trs_links_spec(seed, hrefs, year, month).no_duplicates(),
        forall|i: int|
            0 <= i < trs_links_spec(seed, hrefs, year, month).len() ==> is_article_link(
                #[trigger] trs_links_spec(seed, hrefs, year, month)[i],
                year,
                month,
            ) && exists|k: int|
                0 <= k < hrefs.len() && absolutize_spec(seed, #[trigger] hrefs[k]) == trs_links_spec(
                    seed,
                    hrefs,
                    year,
                    month,
                )[i],
        trs_links_spec(seed, hrefs, year, month).len() < 60 ==> forall|k: int|
            0 <= k < hrefs.len() && (#[trigger] absolutize_spec(seed, hrefs[k])).len() > 0 && is_article_link(
                absolutize_spec(seed, hrefs[k]),
                year,
                month,
            ) ==> trs_links_spec(seed, hrefs, year, month).contains(absolutize_spec(seed, hrefs[k])),
    decreases hrefs.len(),
{
    if hrefs.len() > 0 {
        let p = hrefs.drop_last();
        law_trs_links(seed, p, year, month);
        let c = trs_links_spec(seed, p, year, month);
        let all = trs_links_spec(seed, hrefs, year, month);
        let h = absolutize_spec(seed, hrefs.last());
        let pushed = !(c.len() >= 60 || h.len() == 0 || c.contains(h) || !is_article_link(h, year, month));
        if pushed {
            assert(all == c.push(h));
            assert forall|i: int, j: int| 0 <= i < all.len() && 0 <= j < all.len() && i != j implies all[i] != all[j] by {
                if i < c.len() && j < c.len() {
                } else if i == c.len() {
                    assert(all[j] == c[j]);
                } else {
                    assert(all[i] == c[i]);
                }
            }
        } else {
            assert(all == c);
        }
        assert forall|i: int| 0 <= i < all.len() implies is_article_link(#[trigger] all[i], year, month) && exists|k: int|
            0 <= k < hrefs.len() && absolutize_spec(seed, #[trigger] hrefs[k]) == all[i] by {
            if i < c.len() {
                assert(all[i] == c[i]);
                let k = choose|k: int| 0 <= k < p.len() && absolutize_spec(seed, #[trigger] p[k]) == c[i];
                assert(p[k] == hrefs[k]);
            } else {
                assert(hrefs[hrefs.len() - 1] == hrefs.last());
            }
        }
        if all.len() < 60 {
            assert(c.len() < 60);
            assert forall|k: int|
                0 <= k < hrefs.len() && (#[trigger] absolutize_spec(seed, hrefs[k])).len() > 0 && is_article_link(
                    absolutize_spec(seed, hrefs[k]),
                    year,
                    month,
                ) implies all.contains(absolutize_spec(seed, hrefs[k])) by {
                if k < p.len() {
                    assert(p[k] == hrefs[k]);
                    let x = absolutize_spec(seed, hrefs[k]);
                    assert(absolutize_spec(seed, p[k]).len() > 0);
                    let i = choose|i: int| 0 <= i < c.len() && c[i] == x;
                    assert(all[i] == x);
                } else {
                    assert(hrefs[k] == hrefs.last());
                    if c.contains(h) {
                        let i = choose|i: int| 0 <= i < c.len() && c[i] == h;
                        assert(all[i] == h);
                    } else {
                        assert(all[c.len() as int] == h);
                    }
                }
            }
        }
    }
}

/// The attachments planned for a notice: one entry for each attachment
/// with a known extension, in order, carrying that extension and the
/// label's class; attachments without a known extension are left out.
pub proof fn law_plan_attachments(atts: Seq<(Seq<char>, Seq<char>)>)
    ensures
        plan_spec(atts).len() == atts.filter(|a: (Seq<char>, Seq<char>)| ext_of_spec(a.0).len() > 0).len(),
        forall|i: int|
            0 <= i < plan_spec(atts).len() ==> {
                let e = #[trigger] plan_spec(atts)[i];
                e.2 == ext_of_spec(e.0) && e.2.len() > 0 && e.3 == classify_spec(e.1) && atts.contains((e.0, e.1))
            },
        forall|k: int|
            0 <= k < atts.len() && (#[trigger] ext_of_spec(atts[k].0)).len() > 0 ==> plan_spec(atts).contains(
                (atts[k].0, atts[k].1, ext_of_spec(atts[k].0), classify_spec(atts[k].1)),
            ),
    decreases atts.len(),
{
    reveal_with_fuel(Seq::filter, 1);
    if atts.len() > 0 {
        let p = atts.drop_last();
        law_plan_attachments(p);
        let init = plan_spec(p);
        let all = plan_spec(atts);
        let (url, label) = atts.last();
        let entry = (url, label, ext_of_spec(url), classify_spec(label));
        if ext_of_spec(url).len() > 0 {
            assert(all == init.push(entry));
        } else {
            assert(all == init);
        }
        assert forall|i: int| 0 <= i < all.len() implies {
            let e = #[trigger] all[i];
            e.2 == ext_of_spec(e.0) && e.2.len() > 0 && e.3 == classify_spec(e.1) && atts.contains((e.0, e.1))
        } by {
            if i < init.len() {
                assert(all[i] == init[i]);
                let j = choose|j: int| 0 <= j < p.len() && p[j] == (init[i].0, init[i].1);
                assert(atts[j] == p[j]);
            } else {
                assert(atts[atts.len() - 1] == (url, label));
            }
        }
        assert forall|k: int|
            0 <= k < atts.len() && (#[trigger] ext_of_spec(atts[k].0)).len() > 0 implies all.contains(
            (atts[k].0, atts[k].1, ext_of_spec(atts[k].0), classify_spec(atts[k].1)),
        ) by {
            if k < p.len() {
                assert(p[k] == atts[k]);
                assert(ext_of_spec(p[k].0).len() > 0);
                let x = (atts[k].0, atts[k].1, ext_of_spec(atts[k].0), classify_spec(atts[k].1));
                let j = choose|j: int| 0 <= j < init.len() && init[j] == x;
                assert(all[j] == x);
            } else {
                assert(atts[k] == (url, label));
                assert(all[init.len() as int] == entry);
            }
        }
    }
}

/// How a download answers what happened. A client error (4xx) ends it at
/// once with "HTTP {code}", without another try; a body that was read ends
/// it with those bytes; a server error (5xx) or a failed request on the
/// address itself goes on to its plain-http form; a failure on the
/// plain-http form of the last of the three attempts ends it with that
/// failure's message, and on an earlier attempt pauses before the next,
/// after which the next attempt starts again with the address itself.
pub proof fn law_fetch_answers(url: Seq<char>, attempt: u32, cand: u32, last: Seq<char>, code: u16, msg: String, body: Vec<u8>)
    requires
        attempt <= 2,
        cand <= 1,
    ensures
        400 <= code <= 499 ==> fetch_next(url, (Phase::Sending, attempt, cand, last), FetchEvent::Status(code))
            == ((Phase::Done, attempt, cand, last), (3int, 0u64, 0u64, Seq::<char>::empty(), Some(
            Err::<Seq<u8>, Seq<char>>("HTTP "@ + decimal(code as nat)),
        ))),
        fetch_next(url, (Phase::Reading, attempt, cand, last), FetchEvent::Body(body)).1 == (
            3int,
            0u64,
            0u64,
            Seq::<char>::empty(),
            Some(Ok::<Seq<u8>, Seq<char>>(body@)),
        ),
        500 <= code <= 599 && cand == 0 ==> fetch_next(url, (Phase::Sending, attempt, 0, last), FetchEvent::Status(code)).1
            == (1int, 0u64, 0u64, http_fallback_spec(url), None::<Result<Seq<u8>, Seq<char>>>),
        fetch_next(url, (Phase::Sending, attempt, 0, last), FetchEvent::SendFailed(msg)).1 == (
            1int,
            0u64,
            0u64,
            http_fallback_spec(url),
            None::<Result<Seq<u8>, Seq<char>>>,
        ),
        fetch_next(url, (Phase::Sending, 2, 1, last), FetchEvent::SendFailed(msg)).1 == (
            3int,
            0u64,
            0u64,
            Seq::<char>::empty(),
            Some(Err::<Seq<u8>, Seq<char>>(msg@)),
        ),
        attempt < 2 ==> fetch_next(url, (Phase::Sending, attempt, 1, last), FetchEvent::SendFailed(msg)).0.0
            == Phase::Backoff,
        attempt < 2 ==> fetch_next(url, (Phase::Backoff, attempt, cand, last), FetchEvent::Slept) == (
            (Phase::Sending, (attempt + 1) as u32, 0u32, last),
            (1int, 0u64, 0u64, url, None::<Result<Seq<u8>, Seq<char>>>),
        ),
{
}

/// The issue label of a notice prefers, in turn: "第N期" from a "第N期/号/
/// 批" in the title; an eight-digit date in the title; the publication date
/// as YYYYMMDD; and "期数未知" when there is none of these.
pub proof fn law_issue_label(
    issue: Option<Seq<Option<Seq<char>>>>,
    compact: Option<Seq<Option<Seq<char>>>>,
    date: (i32, u32, u32),
)
    ensures
        cap(issue, 1) matches Some(g) ==> issue_text(issue, compact, date) == "第"@ + g + "期"@,
        cap(issue, 1) is None ==> (cap(compact, 1) matches Some(g) ==> issue_text(issue, compact, date) == g),
        cap(issue, 1) is None && cap(compact, 1) is None && date != (0i32, 0u32, 0u32) ==> issue_text(
            issue,
            compact,
            date,
        ) == padded_signed(date.0 as int, 0) + padded(date.1 as nat, 2) + padded(date.2 as nat, 2),
        cap(issue, 1) is None && cap(compact, 1) is None && date == (0i32, 0u32, 0u32) ==> issue_text(
            issue,
            compact,
            date,
        ) == "期数未知"@,
{
}

/// A file is classed by its contents first: one that begins with `%PDF`
/// is a PDF, one that begins like a ZIP archive is a Word document when it
/// holds `word/document.xml` and a workbook when it holds
/// `xl/workbook.xml`, whatever its name says; a compound file named `.xls`
/// or `.et` is a workbook.
pub proof fn law_kind_by_contents(bytes: Seq<u8>, ext: Seq<char>)
    ensures
        has_prefix(bytes, seq![0x25u8, 0x50u8, 0x44u8, 0x46u8]) ==> kind_spec(bytes, ext) == FileKind::Pdf,
        has_prefix(bytes, seq![0x50u8, 0x4Bu8, 0x03u8, 0x04u8]) ==> (zip_names(bytes) matches Some(n) && n.contains(
            "word/document.xml"@,
        ) ==> kind_spec(bytes, ext) == FileKind::Docx),
        has_prefix(bytes, seq![0x50u8, 0x4Bu8, 0x03u8, 0x04u8]) ==> (zip_names(bytes) matches Some(n) && !n.contains(
            "word/document.xml"@,
        ) && n.contains("xl/workbook.xml"@) ==> kind_spec(bytes, ext) == FileKind::Table),
        has_prefix(bytes, seq![0xD0u8, 0xCFu8, 0x11u8, 0xE0u8, 0xA1u8, 0xB1u8, 0x1Au8, 0xE1u8]) && (lowercase(ext)
            == "xls"@ || lowercase(ext) == "et"@) ==> kind_spec(bytes, ext) == FileKind::Table,
{
    if has_prefix(bytes, seq![0x50u8, 0x4Bu8, 0x03u8, 0x04u8]) {
        assert(bytes[0] == 0x50u8);
        assert(!has_prefix(bytes, seq![0x25u8, 0x50u8, 0x44u8, 0x46u8])) by {
            if has_prefix(bytes, seq![0x25u8, 0x50u8, 0x44u8, 0x46u8]) {
                assert(bytes.subrange(0, 4)[0] == 0x25u8);
            }
        }
    }
    if has_prefix(bytes, seq![0xD0u8, 0xCFu8, 0x11u8, 0xE0u8, 0xA1u8, 0xB1u8, 0x1Au8, 0xE1u8]) {
        assert(bytes.subrange(0, 8)[0] == 0xD0u8);
        assert(bytes[0] == 0xD0u8);
        assert(!has_prefix(bytes, seq![0x25u8, 0x50u8, 0x44u8, 0x46u8])) by {
            if has_prefix(bytes, seq![0x25u8, 0x50u8, 0x44u8, 0x46u8]) {
                assert(bytes.subrange(0, 4)[0] == 0x25u8);
            }
        }
        assert(!has_prefix(bytes, seq![0x50u8, 0x4Bu8, 0x03u8, 0x04u8])) by {
            if has_prefix(bytes, seq![0x50u8, 0x4Bu8, 0x03u8, 0x04u8]) {
                assert(bytes.subrange(0, 4)[0] == 0x50u8);
            }
        }
    }
}

/// A fetched page is read as UTF-8 when it is valid UTF-8, and as GB18030
/// only otherwise.
pub proof fn law_page_decoding(bytes: Seq<u8>)
    ensures
        valid_utf8(bytes) ==> decode_text_spec(bytes) == decode_utf8(bytes),
        !valid_utf8(bytes) ==> decode_text_spec(bytes) == gb18030_decode(bytes),
{
}

/// Blocks that do not overlap their neighbours are all kept, in order;
/// and whatever overlaps, every block kept is one of the blocks found.
pub proof fn law_keep_fold(v: Seq<BlockView>)
    ensures
        (forall|i: int| 0 < i < v.len() ==> !overlap(v[i - 1], #[trigger] v[i])) ==> keep_fold(v) == v,
        forall|i: int| 0 <= i < keep_fold(v).len() ==> v.contains(#[trigger] keep_fold(v)[i]),
        keep_fold(v).len() <= v.len(),
    decreases v.len(),
{
    if v.len() > 0 {
        let p = v.drop_last();
        law_keep_fold(p);
        let k = keep_fold(p);
        let x = v.last();
        if forall|i: int| 0 < i < v.len() ==> !overlap(v[i - 1], #[trigger] v[i]) {
            assert forall|i: int| 0 < i < p.len() implies !overlap(p[i - 1], #[trigger] p[i]) by {
                assert(p[i] == v[i] && p[i - 1] == v[i - 1]);
            }
            assert(k == p);
            if k.len() > 0 {
                assert(k.last() == v[v.len() - 2]);
                assert(!overlap(v[v.len() - 2], v[v.len() - 1]));
            }
            assert(keep_fold(v) == p.push(x));
            assert(p.push(x) =~= v);
        }
        let r = keep_fold(v);
        assert forall|i: int| 0 <= i < r.len() implies v.contains(#[trigger] r[i]) by {
            if r[i] != x {
                assert(i < k.len());
                assert(r[i] == k[i]);
                let j = choose|j: int| 0 <= j < p.len() && p[j] == k[i];
                assert(v[j] == p[j]);
            } else {
                assert(v[v.len() - 1] == x);
            }
        }
    }
}

/// A record dated (readably) before the month `year-month`.
pub open spec fn older_record(d: (i32, u32, u32), year: i64, month: u32) -> bool {
    d.0 != 0 && ((d.0 as int) < year || ((d.0 as int) == year && d.1 < month))
}

/// A record dated in the month `year-month`.
pub open spec fn in_month(d: (i32, u32, u32), year: i64, month: u32) -> bool {
    d.0 != 0 && (d.0 as int) == year && d.1 == month
}

/// One page of Jiangxi records: the crawl stops exactly when some record
/// of the page is dated before the month; when none is, there is one
/// notice for each record of the month; and never more notices than
/// records.
pub proof fn law_jiangxi_page(
    items: Seq<(Seq<char>, Seq<char>, Seq<(Seq<char>, Seq<char>, Seq<char>)>)>,
    year: i64,
    month: u32,
)
    ensures
        jiangxi_fold(items, year, month).1 <==> exists|k: int|
            0 <= k < items.len() && older_record(#[trigger] date_from_str_spec(items[k].0), year, month),
        !jiangxi_fold(items, year, month).1 ==> jiangxi_fold(items, year, month).0.len() == items.filter(
            |it: (Seq<char>, Seq<char>, Seq<(Seq<char>, Seq<char>, Seq<char>)>)| in_month(date_from_str_spec(it.0), year, month),
        ).len(),
        jiangxi_fold(items, year, month).0.len() <= items.len(),
    decreases items.len(),
{
    reveal_with_fuel(Seq::filter, 1);
    if items.len() > 0 {
        let p = items.drop_last();
        law_jiangxi_page(p, year, month);
        let st = jiangxi_fold(p, year, month);
        if exists|k: int| 0 <= k < p.len() && older_record(#[trigger] date_from_str_spec(p[k].0), year, month) {
            let k = choose|k: int| 0 <= k < p.len() && older_record(#[trigger] date_from_str_spec(p[k].0), year, month);
            assert(items[k] == p[k]);
        }
        if exists|k: int| 0 <= k < items.len() && older_record(#[trigger] date_from_str_spec(items[k].0), year, month) {
            let k = choose|k: int| 0 <= k < items.len() && older_record(#[trigger] date_from_str_spec(items[k].0), year, month);
            if k < p.len() {
                assert(p[k] == items[k]);
            } else {
                assert(items[k] == items.last());
            }
        }
    }
}

/// Every line of `website.md` that starts with `http` once trimmed is a
/// site, trimmed, and the sites come in the order of their lines.
pub proof fn law_sites_complete(lines: Seq<Seq<char>>)
    ensures
        forall|k: int|
            0 <= k < lines.len() && starts_with(#[trigger] trim(lines[k]), "http"@) ==> sites_from(lines).contains(
                trim(lines[k]),
            ),
        sites_from(lines).len() == lines.filter(|l: Seq<char>| starts_with(trim(l), "http"@)).len(),
    decreases lines.len(),
{
    reveal_with_fuel(Seq::filter, 1);
    if lines.len() > 0 {
        let p = lines.drop_last();
        law_sites_complete(p);
        let init = sites_from(p);
        let all = sites_from(lines);
        let l = trim(lines.last());
        assert forall|k: int|
            0 <= k < lines.len() && starts_with(#[trigger] trim(lines[k]), "http"@) implies all.contains(trim(lines[k])) by {
            if k < p.len() {
                assert(p[k] == lines[k]);
                let i = choose|i: int| 0 <= i < init.len() && init[i] == trim(lines[k]);
                if starts_with(l, "http"@) {
                    assert(all == init.push(l));
                    assert(all[i] == init[i]);
                }
            } else {
                assert(lines[k] == lines.last());
                assert(all == init.push(l));
                assert(all[init.len() as int] == l);
            }
        }
    }
}

proof fn lemma_split_list_no_sep(s: Seq<char>)
    ensures
        split_list(s).len() > 0,
        forall|i: int, j: int|
            0 <= i < split_list(s).len() && 0 <= j < split_list(s)[i].len() ==> !list_sep(
                #[trigger] split_list(s)[i][j],
            ),
    decreases s.len(),
{
    if s.len() > 0 {
        lemma_split_list_no_sep(s.drop_last());
        let init = split_list(s.drop_last());
        let r = split_list(s);
        if !list_sep(s.last()) {
            let last = init.last().push(s.last());
            assert forall|i: int, j: int| 0 <= i < r.len() && 0 <= j < r[i].len() implies !list_sep(
                #[trigger] r[i][j],
            ) by {
                if i < init.len() - 1 {
                    assert(r[i] == init[i]);
                } else {
                    assert(r[i] == last);
                    if j < init.last().len() {
                        assert(last[j] == init[init.len() - 1][j]);
                    }
                }
            }
        } else {
            assert forall|i: int, j: int| 0 <= i < r.len() && 0 <= j < r[i].len() implies !list_sep(
                #[trigger] r[i][j],
            ) by {
                if i < init.len() {
                    assert(r[i] == init[i]);
                }
            }
        }
    }
}

proof fn lemma_unquote_start_suffix(s: Seq<char>)
    ensures
        exists|a: int| 0 <= a <= s.len() && #[trigger] s.subrange(a, s.len() as int) == unquote_start(s),
        unquote_start(s).len() > 0 ==> !quote_char(unquote_start(s)[0]),
    decreases s.len(),
{
    if s.len() > 0 && quote_char(s[0]) {
        lemma_unquote_start_suffix(s.drop_first());
        let a = choose|a: int| 0 <= a <= s.len() - 1 && #[trigger] s.drop_first().subrange(a, s.len() - 1) == unquote_start(s.drop_first());
        assert(s.subrange(a + 1, s.len() as int) == s.drop_first().subrange(a, s.len() - 1));
    } else {
        assert(s.subrange(0, s.len() as int) == s);
    }
}

proof fn lemma_unquote_end_prefix(s: Seq<char>)
    ensures
        exists|b: int| 0 <= b <= s.len() && #[trigger] s.subrange(0, b) == unquote_end(s),
        unquote_end(s).len() > 0 ==> !quote_char(unquote_end(s).last()),
    decreases s.len(),
{
    if s.len() > 0 && quote_char(s.last()) {
        lemma_unquote_end_prefix(s.drop_last());
        let b = choose|b: int| 0 <= b <= s.len() - 1 && #[trigger] s.drop_last().subrange(0, b) == unquote_end(s.drop_last());
        assert(s.subrange(0, b) == s.drop_last().subrange(0, b));
    } else {
        assert(s.subrange(0, s.len() as int) == s);
    }
}

/// Every item of a configured list (such as `search = [..]`) is non-empty,
/// holds no list separator (`,` `，` `;` `；`), and neither begins nor ends
/// with a quote or a space.
pub proof fn law_list_items_clean(body: Seq<char>)
    ensures
        forall|i: int|
            0 <= i < list_items(body).len() ==> {
                let it = #[trigger] list_items(body)[i];
                &&& it.len() > 0
                &&& !quote_char(it[0])
                &&& !quote_char(it.last())
                &&& forall|j: int| 0 <= j < it.len() ==> !list_sep(#[trigger] it[j])
            },
{
    lemma_split_list_no_sep(body);
    lemma_items_clean(split_list(body));
}

proof fn lemma_items_clean(pieces: Seq<Seq<char>>)
    requires
        forall|i: int, j: int| 0 <= i < pieces.len() && 0 <= j < pieces[i].len() ==> !list_sep(#[trigger] pieces[i][j]),
    ensures
        forall|i: int|
            0 <= i < list_items_from(pieces).len() ==> {
                let it = #[trigger] list_items_from(pieces)[i];
                &&& it.len() > 0
                &&& !quote_char(it[0])
                &&& !quote_char(it.last())
                &&& forall|j: int| 0 <= j < it.len() ==> !list_sep(#[trigger] it[j])
            },
    decreases pieces.len(),
{
    if pieces.len() > 0 {
        let p = pieces.drop_last();
        assert forall|i: int, j: int| 0 <= i < p.len() && 0 <= j < p[i].len() implies !list_sep(#[trigger] p[i][j]) by {
            assert(p[i] == pieces[i]);
        }
        lemma_items_clean(p);
        let init = list_items_from(p);
        let pc = pieces.last();
        let it = clean_item(pc);
        let t = trim(pc);
        // the cleaned item is a piece of the trimmed piece, itself a piece of the piece
        lemma_trim_sub(pc);
        let (a0, b0) = choose|a0: int, b0: int| 0 <= a0 <= b0 <= pc.len() && #[trigger] pc.subrange(a0, b0) == t;
        lemma_unquote_start_suffix(t);
        let u = unquote_start(t);
        let a = choose|a: int| 0 <= a <= t.len() && #[trigger] t.subrange(a, t.len() as int) == u;
        lemma_unquote_end_prefix(u);
        let b = choose|b: int| 0 <= b <= u.len() && #[trigger] u.subrange(0, b) == it;
        assert forall|j: int| 0 <= j < it.len() implies !list_sep(#[trigger] it[j]) by {
            assert(it[j] == u[j]);
            assert(u[j] == t[a + j]);
            assert(t[a + j] == pc[a0 + a + j]);
            assert(pieces[pieces.len() - 1] == pc);
        }
        if it.len() > 0 {
            assert(it[0] == u[0]);
            assert(u.len() > 0);
        }
        let r = list_items_from(pieces);
        assert forall|i: int| 0 <= i < r.len() implies {
            let x = #[trigger] r[i];
            &&& x.len() > 0
            &&& !quote_char(x[0])
            &&& !quote_char(x.last())
            &&& forall|j: int| 0 <= j < x.len() ==> !list_sep(#[trigger] x[j])
        } by {
            if i < init.len() {
                if it.len() > 0 {
                    assert(r == init.push(it));
                    assert(r[i] == init[i]);
                }
            }
        }
    }
}

proof fn lemma_trim_sub(s: Seq<char>)
    ensures
        exists|a: int, b: int| 0 <= a <= b <= s.len() && #[trigger] s.subrange(a, b) == trim(s),
{
    lemma_ts(s);
    let a = choose|a: int| 0 <= a <= s.len() && #[trigger] s.subrange(a, s.len() as int) == trim_start(s);
    let u = trim_start(s);
    lemma_te(u);
    let b = choose|b: int| 0 <= b <= u.len() && #[trigger] u.subrange(0, b) == trim_end(u);
    assert(s.subrange(a, a + b) == u.subrange(0, b));
}

proof fn lemma_ts(s: Seq<char>)
    ensures
        exists|a: int| 0 <= a <= s.len() && #[trigger] s.subrange(a, s.len() as int) == trim_start(s),
    decreases s.len(),
{
    if s.len() > 0 && is_ws(s[0]) {
        lemma_ts(s.drop_first());
        let a = choose|a: int| 0 <= a <= s.len() - 1 && #[trigger] s.drop_first().subrange(a, s.len() - 1) == trim_start(s.drop_first());
        assert(s.subrange(a + 1, s.len() as int) == s.drop_first().subrange(a, s.len() - 1));
    } else {
        assert(s.subrange(0, s.len() as int) == s);
    }
}

proof fn lemma_te(s: Seq<char>)
    ensures
        exists|b: int| 0 <= b <= s.len() && #[trigger] s.subrange(0, b) == trim_end(s),
    decreases s.len(),
{
    if s.len() > 0 && is_ws(s.last()) {
        lemma_te(s.drop_last());
        let b = choose|b: int| 0 <= b <= s.len() - 1 && #[trigger] s.drop_last().subrange(0, b) == trim_end(s.drop_last());
        assert(s.subrange(0, b) == s.drop_last().subrange(0, b));
    } else {
        assert(s.subrange(0, s.len() as int) == s);
    }
}

/// A configured list keeps every piece between separators that is not
/// empty once cleaned, in order, and only those.
pub proof fn law_list_items_complete(pieces: Seq<Seq<char>>)
    ensures
        list_items_from(pieces).len() == pieces.filter(|q: Seq<char>| clean_item(q).len() > 0).len(),
        forall|k: int|
            0 <= k < pieces.len() && (#[trigger] clean_item(pieces[k])).len() > 0 ==> list_items_from(pieces).contains(
                clean_item(pieces[k]),
            ),
    decreases pieces.len(),
{
    reveal_with_fuel(Seq::filter, 1);
    if pieces.len() > 0 {
        let p = pieces.drop_last();
        law_list_items_complete(p);
        let init = list_items_from(p);
        let all = list_items_from(pieces);
        let it = clean_item(pieces.last());
        assert forall|k: int|
            0 <= k < pieces.len() && (#[trigger] clean_item(pieces[k])).len() > 0 implies all.contains(
            clean_item(pieces[k]),
        ) by {
            if k < p.len() {
                assert(p[k] == pieces[k]);
                let i = choose|i: int| 0 <= i < init.len() && init[i] == clean_item(pieces[k]);
                if it.len() > 0 {
                    assert(all == init.push(it));
                    assert(all[i] == init[i]);
                }
            } else {
                assert(pieces[k] == pieces.last());
                assert(all == init.push(it));
                assert(all[init.len() as int] == it);
            }
        }
    }
}

/// A message written "[tag] ..." (after any leading whitespace) has that
/// tag, whatever follows it, as long as the tag holds no `]`.
pub proof fn law_message_tag(tag: Seq<char>, rest: Seq<char>)
    requires
        forall|j: int| 0 <= j < tag.len() ==> tag[j] != ']',
    ensures
        tag_of(seq!['['] + tag + seq![']'] + rest) == Some(tag),
{
    let m = seq!['['] + tag + seq![']'] + rest;
    assert(trim_start(m) == m);
    let t = m.drop_first();
    assert(t == tag + seq![']'] + rest);
    assert(t.subrange(tag.len() as int, tag.len() + 1int) == seq![']']);
    assert forall|j: int| 0 <= j < tag.len() implies !occurs_at(t, seq![']'], j) by {
        assert(t.subrange(j, j + 1)[0] == t[j]);
        assert(t[j] == tag[j]);
    }
    lemma_find_first(t, seq![']'], tag.len() as int);
    assert(t.take(tag.len() as int) == tag);
}

/// A region's listing layout follows its host: the Jiangxi bureau's query
/// API, the date paths of Hunan and Fujian, and the common TRS layout for
/// every other site.
pub proof fn law_strategy_by_host(seed: Seq<char>)
    ensures
        contains(seed, "amr.jiangxi.gov.cn"@) ==> strategy_spec(seed) == Strategy::Jiangxi,
        !contains(seed, "amr.jiangxi.gov.cn"@) && (contains(seed, "amr.hunan.gov.cn"@) || contains(
            seed,
            "scjgj.fujian.gov.cn"@,
        )) ==> strategy_spec(seed) == Strategy::DatePath,
        !contains(seed, "amr.jiangxi.gov.cn"@) && !contains(seed, "amr.hunan.gov.cn"@) && !contains(
            seed,
            "scjgj.fujian.gov.cn"@,
        ) ==> strategy_spec(seed) == Strategy::Trs,
{
}

/// The first copy of an attachment is stored as "{region}-{issue}.{ext}",
/// and copy `n` after it as "{region}-{issue}-{n}.{ext}".
pub proof fn law_stored_name_form(region: Seq<char>, issue: Seq<char>, ext: Seq<char>, n: nat)
    ensures
        stored_name(region, issue, ext, 1) == region + "-"@ + issue + "."@ + ext,
        n >= 2 ==> stored_name(region, issue, ext, n) == region + "-"@ + issue + "-"@ + decimal(n) + "."@ + ext,
{
    reveal_strlit("-");
    reveal_strlit(".");
    assert(seq!['-'] =~= "-"@);
    assert(seq!['.'] =~= "."@);
}

} // verus!
