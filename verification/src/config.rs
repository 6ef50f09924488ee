//! The region table and the reading of `config.toml` and `website.md`
//! (their text; reading the files is the caller's part).

use vstd::prelude::*;

use crate::html::cap;
use crate::pattern::{captures, regex_captures};
use crate::text::{
    chars_of, contains, contains_exec, parse_nat, parse_u64, slice_chars, split, split_exec,
    starts_with, starts_with_exec, string_of, trim, trim_exec,
};

verus! {

pub const N_REGIONS: usize = 13;

/// The region table: the host of each region's site, and its name.
pub open spec fn regions() -> Seq<(Seq<char>, Seq<char>)> {
    seq![
        ("amr.hunan.gov.cn"@, "湖南"@),
        ("scjg.hubei.gov.cn"@, "湖北"@),
        ("amr.gd.gov.cn"@, "广东"@),
        ("scjgj.fujian.gov.cn"@, "福建"@),
        ("scjdglj.gxzf.gov.cn"@, "广西"@),
        ("amr.jiangxi.gov.cn"@, "江西"@),
        ("www.gz.gov.cn"@, "广州"@),
        ("amr.sz.gov.cn"@, "深圳"@),
        ("www.jiangmen.gov.cn"@, "江门"@),
        ("www.zs.gov.cn"@, "中山"@),
        ("fsamr.foshan.gov.cn"@, "佛山"@),
        ("scjgj.hechi.gov.cn"@, "河池"@),
        ("www.zhuhai.gov.cn"@, "珠海"@),
    ]
}

/// Entry `i` of the region table.
pub fn region_entry(i: usize) -> (r: (&'static str, &'static str))
    requires
        i < N_REGIONS,
    ensures
        (r.0@, r.1@) == regions()[i as int],
{
    if i == 0 {
        ("amr.hunan.gov.cn", "湖南")
    } else if i == 1 {
        ("scjg.hubei.gov.cn", "湖北")
    } else if i == 2 {
        ("amr.gd.gov.cn", "广东")
    } else if i == 3 {
        ("scjgj.fujian.gov.cn", "福建")
    } else if i == 4 {
        ("scjdglj.gxzf.gov.cn", "广西")
    } else if i == 5 {
        ("amr.jiangxi.gov.cn", "江西")
    } else if i == 6 {
        ("www.gz.gov.cn", "广州")
    } else if i == 7 {
        ("amr.sz.gov.cn", "深圳")
    } else if i == 8 {
        ("www.jiangmen.gov.cn", "江门")
    } else if i == 9 {
        ("www.zs.gov.cn", "中山")
    } else if i == 10 {
        ("fsamr.foshan.gov.cn", "佛山")
    } else if i == 11 {
        ("scjgj.hechi.gov.cn", "河池")
    } else {
        ("www.zhuhai.gov.cn", "珠海")
    }
}

/// The first table entry at or after `k` whose host occurs in `url`.
pub open spec fn region_from(url: Seq<char>, k: int) -> Option<Seq<char>>
    decreases N_REGIONS - k,
{
    if k < 0 || k >= N_REGIONS {
        None
    } else if contains(url, regions()[k].0) {
        Some(regions()[k].1)
    } else {
        region_from(url, k + 1)
    }
}

/// The region of a listing page: the first region whose host occurs in
/// its address.
pub open spec fn region_of_spec(url: Seq<char>) -> Option<Seq<char>> {
    region_from(url, 0)
}

pub fn region_of(url: &str) -> (r: Option<&'static str>)
    ensures
        r matches Some(n) ==> region_of_spec(url@) == Some(n@),
        r is None ==> region_of_spec(url@) is None,
{
    let u = chars_of(url);
    let mut i: usize = 0;
    while i < N_REGIONS
        invariant
            i <= N_REGIONS,
            u@ == url@,
            region_of_spec(url@) == region_from(url@, i as int),
        decreases N_REGIONS - i,
    {
        let (host, name) = region_entry(i);
        if contains_exec(u.as_slice(), chars_of(host).as_slice()) {
            return Some(name);
        }
        i = i + 1;
    }
    None
}

pub open spec fn month_pattern() -> Seq<char> {
    r#"month\s*=\s*"?(\d{1,2})"#@
}

fn month_pattern_str() -> (r: &'static str)
    ensures
        r@ == month_pattern(),
{
    r#"month\s*=\s*"?(\d{1,2})"#
}

/// The target month named by `month = ..` in the configuration text.
pub open spec fn month_spec(text: Seq<char>) -> Option<u32> {
    match cap(regex_captures(month_pattern(), text), 1) {
        Some(g) => match parse_nat(g, u32::MAX as nat) {
            Some(v) => Some(v as u32),
            None => None,
        },
        None => None,
    }
}

pub fn month_from_config(text: &str) -> (r: Option<u32>)
    ensures
        r == month_spec(text@),
{
    let c = captures(month_pattern_str(), text);
    match crate::html::cap_exec(&c, 1) {
        Some(g) => match parse_u64(chars_of(g.as_str()).as_slice(), 4294967295) {
            Some(v) => Some(v as u32),
            None => None,
        },
        None => None,
    }
}

pub open spec fn url_pattern() -> Seq<char> {
    r#"umi_ocr_url\s*=\s*"([^"]*)""#@
}

fn url_pattern_str() -> (r: &'static str)
    ensures
        r@ == url_pattern(),
{
    r#"umi_ocr_url\s*=\s*"([^"]*)""#
}

pub open spec fn default_ocr_url() -> Seq<char> {
    "http://127.0.0.1:1224"@
}

/// The Umi-OCR address named by `umi_ocr_url = ".."`, else the default.
pub open spec fn umi_ocr_url_spec(text: Seq<char>) -> Seq<char> {
    match cap(regex_captures(url_pattern(), text), 1) {
        Some(g) => g,
        None => default_ocr_url(),
    }
}

pub fn umi_ocr_url(text: &str) -> (r: String)
    ensures
        r@ == umi_ocr_url_spec(text@),
{
    let c = captures(url_pattern_str(), text);
    match crate::html::cap_exec(&c, 1) {
        Some(g) => g.clone(),
        None => "http://127.0.0.1:1224".to_owned(),
    }
}

/// The separators of list items: ASCII and full-width comma and semicolon.
pub open spec fn list_sep(c: char) -> bool {
    c == ',' || c == '，' || c == ';' || c == '；'
}

/// The quote characters and space stripped from both ends of an item.
pub open spec fn quote_char(c: char) -> bool {
    c == '"' || c == '\'' || c == ' '
}

/// `s` split at every list separator.
pub open spec fn split_list(s: Seq<char>) -> Seq<Seq<char>>
    decreases s.len(),
{
    if s.len() == 0 {
        seq![Seq::<char>::empty()]
    } else {
        let init = split_list(s.drop_last());
        if list_sep(s.last()) {
            init.push(Seq::<char>::empty())
        } else {
            init.update(init.len() - 1, init.last().push(s.last()))
        }
    }
}

/// `s` without quote characters at its start.
pub open spec fn unquote_start(s: Seq<char>) -> Seq<char>
    decreases s.len(),
{
    if s.len() > 0 && quote_char(s[0]) {
        unquote_start(s.drop_first())
    } else {
        s
    }
}

/// `s` without quote characters at its end.
pub open spec fn unquote_end(s: Seq<char>) -> Seq<char>
    decreases s.len(),
{
    if s.len() > 0 && quote_char(s.last()) {
        unquote_end(s.drop_last())
    } else {
        s
    }
}

/// A list item: trimmed, then stripped of quotes and spaces at both ends.
pub open spec fn clean_item(s: Seq<char>) -> Seq<char> {
    unquote_end(unquote_start(trim(s)))
}

/// The non-empty cleaned items of a bracketed list body.
pub open spec fn list_items_from(pieces: Seq<Seq<char>>) -> Seq<Seq<char>>
    decreases pieces.len(),
{
    if pieces.len() == 0 {
        Seq::empty()
    } else {
        let init = list_items_from(pieces.drop_last());
        let it = clean_item(pieces.last());
        if it.len() > 0 {
            init.push(it)
        } else {
            init
        }
    }
}

pub open spec fn list_items(body: Seq<char>) -> Seq<Seq<char>> {
    list_items_from(split_list(body))
}

fn split_list_exec(s: &[char]) -> (r: Vec<Vec<char>>)
    ensures
        r.deep_view() == split_list(s@),
{
    let mut r: Vec<Vec<char>> = Vec::new();
    let mut cur: Vec<char> = Vec::new();
    let mut i: usize = 0;
    while i < s.len()
        invariant
            i <= s@.len(),
            r.deep_view().push(cur@) == split_list(s@.subrange(0, i as int)),
        decreases s.len() - i,
    {
        let ghost pre = s@.subrange(0, i as int);
        assert(s@.subrange(0, i + 1).drop_last() == pre);
        let c = s[i];
        if c == ',' || c == '，' || c == ';' || c == '；' {
            let ghost old_dv = r.deep_view();
            let ghost old_cur = cur@;
            assert(cur.deep_view() =~= cur@);
            r.push(cur);
            assert(r.deep_view() =~= old_dv.push(old_cur));
            cur = Vec::new();
        } else {
            cur.push(c);
        }
        i = i + 1;
    }
    assert(s@.subrange(0, s@.len() as int) == s@);
    let ghost old_dv = r.deep_view();
    let ghost old_cur = cur@;
    assert(cur.deep_view() =~= cur@);
    r.push(cur);
    assert(r.deep_view() =~= old_dv.push(old_cur));
    r
}

proof fn lemma_unquote_start_skip(s: Seq<char>, i: int)
    requires
        0 <= i <= s.len(),
        forall|k: int| 0 <= k < i ==> quote_char(s[k]),
    ensures
        unquote_start(s) == unquote_start(s.subrange(i, s.len() as int)),
    decreases i,
{
    if i > 0 {
        assert(s.drop_first().subrange(i - 1, s.drop_first().len() as int) == s.subrange(
            i,
            s.len() as int,
        ));
        lemma_unquote_start_skip(s.drop_first(), i - 1);
    } else {
        assert(s.subrange(0, s.len() as int) == s);
    }
}

proof fn lemma_unquote_end_skip(s: Seq<char>, j: int)
    requires
        0 <= j <= s.len(),
        forall|k: int| j <= k < s.len() ==> quote_char(s[k]),
    ensures
        unquote_end(s) == unquote_end(s.subrange(0, j)),
    decreases s.len() - j,
{
    if j < s.len() {
        assert(s.drop_last().subrange(0, j) == s.subrange(0, j));
        lemma_unquote_end_skip(s.drop_last(), j);
    } else {
        assert(s.subrange(0, j) == s);
    }
}

fn clean_item_exec(s: &[char]) -> (r: Vec<char>)
    ensures
        r@ == clean_item(s@),
{
    let t = trim_exec(s);
    let mut i: usize = 0;
    while i < t.len() && (t[i] == '"' || t[i] == '\'' || t[i] == ' ')
        invariant
            i <= t@.len(),
            forall|k: int| 0 <= k < i ==> quote_char(t@[k]),
        decreases t.len() - i,
    {
        i = i + 1;
    }
    proof {
        lemma_unquote_start_skip(t@, i as int);
    }
    let ghost rest = t@.subrange(i as int, t@.len() as int);
    assert(unquote_start(rest) == rest);
    let mut j: usize = t.len();
    while j > i && (t[j - 1] == '"' || t[j - 1] == '\'' || t[j - 1] == ' ')
        invariant
            i <= j <= t@.len(),
            forall|k: int| j <= k < t@.len() ==> quote_char(t@[k]),
        decreases j,
    {
        j = j - 1;
    }
    proof {
        assert forall|k: int| j - i <= k < rest.len() implies quote_char(rest[k]) by {
            assert(rest[k] == t@[i + k]);
        }
        lemma_unquote_end_skip(rest, j - i);
        assert(rest.subrange(0, j - i) == t@.subrange(i as int, j as int));
        let u = t@.subrange(i as int, j as int);
        if u.len() > 0 {
            assert(u.last() == t@[j - 1]);
        }
    }
    slice_chars(t.as_slice(), i, j)
}

/// The items of a list body such as `"a", "b"`, in order.
pub fn parse_list(body: &str) -> (r: Vec<String>)
    ensures
        r.deep_view() == list_items(body@),
{
    let pieces = split_list_exec(chars_of(body).as_slice());
    let mut out: Vec<String> = Vec::new();
    let mut i: usize = 0;
    while i < pieces.len()
        invariant
            i <= pieces@.len(),
            pieces.deep_view() == split_list(body@),
            out.deep_view() == list_items_from(pieces.deep_view().subrange(0, i as int)),
        decreases pieces.len() - i,
    {
        let ghost pre = pieces.deep_view().subrange(0, i + 1);
        assert(pre.drop_last() == pieces.deep_view().subrange(0, i as int));
        assert(pieces[i as int].deep_view() =~= pieces[i as int]@);
        let it = clean_item_exec(pieces[i].as_slice());
        if it.len() > 0 {
            let ghost old_dv = out.deep_view();
            let s = string_of(it.as_slice());
            out.push(s);
            assert(out.deep_view() =~= old_dv.push(it@));
        }
        i = i + 1;
    }
    assert(pieces.deep_view().subrange(0, pieces@.len() as int) == pieces.deep_view());
    out
}

pub open spec fn urls_pattern() -> Seq<char> {
    r"(?s)umi_ocr_urls\s*=\s*\[(.*?)\]"@
}

fn urls_pattern_str() -> (r: &'static str)
    ensures
        r@ == urls_pattern(),
{
    r"(?s)umi_ocr_urls\s*=\s*\[(.*?)\]"
}

/// The Umi-OCR instances: the items of `umi_ocr_urls = [..]` when there are
/// any, else the single `umi_ocr_url` (the default when that is empty).
pub open spec fn umi_ocr_instances_spec(text: Seq<char>) -> Seq<Seq<char>> {
    let listed = match cap(regex_captures(urls_pattern(), text), 1) {
        Some(body) => list_items(body),
        None => Seq::empty(),
    };
    if listed.len() > 0 {
        listed
    } else if umi_ocr_url_spec(text).len() == 0 {
        seq![default_ocr_url()]
    } else {
        seq![umi_ocr_url_spec(text)]
    }
}

pub fn umi_ocr_instances(text: &str) -> (r: Vec<String>)
    ensures
        r.deep_view() == umi_ocr_instances_spec(text@),
{
    let c = captures(urls_pattern_str(), text);
    if let Some(body) = crate::html::cap_exec(&c, 1) {
        let v = parse_list(body.as_str());
        if v.len() > 0 {
            return v;
        }
    }
    let single = umi_ocr_url(text);
    let mut out: Vec<String> = Vec::new();
    if single.as_str().is_empty() {
        out.push("http://127.0.0.1:1224".to_owned());
    } else {
        out.push(single);
    }
    assert(out.deep_view() =~= umi_ocr_instances_spec(text@));
    out
}

pub open spec fn dpi_pattern() -> Seq<char> {
    r"ocr_dpi\s*=\s*(\d{1,3})"@
}

fn dpi_pattern_str() -> (r: &'static str)
    ensures
        r@ == dpi_pattern(),
{
    r"ocr_dpi\s*=\s*(\d{1,3})"
}

/// The rasterising resolution named by `ocr_dpi = ..`, else 150.
pub open spec fn ocr_dpi_spec(text: Seq<char>) -> u32 {
    match cap(regex_captures(dpi_pattern(), text), 1) {
        Some(g) => match parse_nat(g, u32::MAX as nat) {
            Some(v) => v as u32,
            None => 150,
        },
        None => 150,
    }
}

pub fn ocr_dpi(text: &str) -> (r: u32)
    ensures
        r == ocr_dpi_spec(text@),
{
    let c = captures(dpi_pattern_str(), text);
    match crate::html::cap_exec(&c, 1) {
        Some(g) => match parse_u64(chars_of(g.as_str()).as_slice(), 4294967295) {
            Some(v) => v as u32,
            None => 150,
        },
        None => 150,
    }
}

pub open spec fn search_pattern() -> Seq<char> {
    r"(?s)search\s*=\s*\[(.*?)\]"@
}

fn search_pattern_str() -> (r: &'static str)
    ensures
        r@ == search_pattern(),
{
    r"(?s)search\s*=\s*\[(.*?)\]"
}

/// The search terms: the items of `search = [..]`, none when absent.
pub open spec fn search_terms_spec(text: Seq<char>) -> Seq<Seq<char>> {
    match cap(regex_captures(search_pattern(), text), 1) {
        Some(body) => list_items(body),
        None => Seq::empty(),
    }
}

pub fn search_terms(text: &str) -> (r: Vec<String>)
    ensures
        r.deep_view() == search_terms_spec(text@),
{
    let c = captures(search_pattern_str(), text);
    match crate::html::cap_exec(&c, 1) {
        Some(body) => parse_list(body.as_str()),
        None => Vec::new(),
    }
}

/// The trimmed lines of `website.md` that start with `http`, in order.
pub open spec fn sites_from(lines: Seq<Seq<char>>) -> Seq<Seq<char>>
    decreases lines.len(),
{
    if lines.len() == 0 {
        Seq::empty()
    } else {
        let init = sites_from(lines.drop_last());
        let l = trim(lines.last());
        if starts_with(l, "http"@) {
            init.push(l)
        } else {
            init
        }
    }
}

pub open spec fn read_sites_spec(text: Seq<char>) -> Seq<Seq<char>> {
    sites_from(split(text, '\n'))
}

pub fn read_sites(text: &str) -> (r: Vec<String>)
    ensures
        r.deep_view() == read_sites_spec(text@),
{
    let lines = split_exec(chars_of(text).as_slice(), '\n');
    let http = chars_of("http");
    let mut out: Vec<String> = Vec::new();
    let mut i: usize = 0;
    while i < lines.len()
        invariant
            i <= lines@.len(),
            lines.deep_view() == split(text@, '\n'),
            http@ == "http"@,
            out.deep_view() == sites_from(lines.deep_view().subrange(0, i as int)),
        decreases lines.len() - i,
    {
        let ghost pre = lines.deep_view().subrange(0, i + 1);
        assert(pre.drop_last() == lines.deep_view().subrange(0, i as int));
        assert(lines[i as int].deep_view() =~= lines[i as int]@);
        let l = trim_exec(lines[i].as_slice());
        if starts_with_exec(l.as_slice(), http.as_slice()) {
            let ghost old_dv = out.deep_view();
            out.push(string_of(l.as_slice()));
            assert(out.deep_view() =~= old_dv.push(l@));
        }
        i = i + 1;
    }
    assert(lines.deep_view().subrange(0, lines@.len() as int) == lines.deep_view());
    out
}

} // verus!
