//! Reading notice pages: link resolution, attachment discovery, publication
//! dates, issue numbers, and the classification of attachment labels.

use vstd::prelude::*;

use crate::pattern::{
    captures, captures_all, group, group_exec, regex_captures, regex_captures_all,
    regex_replace_all, replace_all,
};
use crate::text::{
    occurs_at,
    chars_of, contains, contains_exec, ends_with, ends_with_exec, find, find_exec, join,
    join_exec, last_index_of, last_index_of_exec, lowercase, padded, padded_signed, parse_nat,
    parse_u64, push_all, push_padded, push_padded_signed, push_str, replace, replace_exec,
    slice_chars, split, split_exec, starts_with, starts_with_exec, string_of, to_lowercase, trim,
    trim_exec,
};

verus! {

/// The attachment extensions the crawler downloads.
pub open spec fn exts() -> Seq<Seq<char>> {
    seq![
        "doc"@,
        "docx"@,
        "xls"@,
        "xlsx"@,
        "pdf"@,
        "wps"@,
        "ppt"@,
        "pptx"@,
        "zip"@,
    ]
}

pub const N_EXTS: usize = 9;

/// Entry `i` of the extension list.
pub fn ext_name(i: usize) -> (r: &'static str)
    requires
        i < N_EXTS,
    ensures
        r@ == exts()[i as int],
{
    if i == 0 {
        "doc"
    } else if i == 1 {
        "docx"
    } else if i == 2 {
        "xls"
    } else if i == 3 {
        "xlsx"
    } else if i == 4 {
        "pdf"
    } else if i == 5 {
        "wps"
    } else if i == 6 {
        "ppt"
    } else if i == 7 {
        "pptx"
    } else {
        "zip"
    }
}

/// A notice page: its title, its publication date (`(0, 0, 0)` when none
/// was found) and its attachment links with their labels.
pub struct Article {
    pub title: String,
    pub date: (i32, u32, u32),
    pub attachments: Vec<(String, String)>,
}

/// How an attachment is treated, judged by its label.
#[derive(PartialEq, Eq, Structural, Debug, Clone, Copy)]
pub enum Kind {
    /// A list of qualified products: downloaded.
    Keep,
    /// A combined result table or notice: downloaded.
    Mixed,
    /// A list of unqualified products: skipped.
    Unqualified,
    /// Anything else: skipped.
    Ignore,
}

pub open spec fn data_markers() -> Seq<Seq<char>> {
    seq![
        "附件"@,
        "明细"@,
        "汇总"@,
        "信息表"@,
        "结果"@,
        "通告"@,
        "公告"@,
        "抽检"@,
        "监测"@,
        "检测"@,
        "台账"@,
        "报告"@,
        "数据"@,
        "表"@,
    ]
}

fn data_marker(i: usize) -> (r: &'static str)
    requires
        i < 14,
    ensures
        r@ == data_markers()[i as int],
{
    if i == 0 {
        "附件"
    } else if i == 1 {
        "明细"
    } else if i == 2 {
        "汇总"
    } else if i == 3 {
        "信息表"
    } else if i == 4 {
        "结果"
    } else if i == 5 {
        "通告"
    } else if i == 6 {
        "公告"
    } else if i == 7 {
        "抽检"
    } else if i == 8 {
        "监测"
    } else if i == 9 {
        "检测"
    } else if i == 10 {
        "台账"
    } else if i == 11 {
        "报告"
    } else if i == 12 {
        "数据"
    } else {
        "表"
    }
}

/// The kind of an attachment label: "不合格" (unqualified) wins over
/// "合格" (qualified), which wins over the data markers.
pub open spec fn classify_spec(name: Seq<char>) -> Kind {
    if contains(name, "不合格"@) {
        Kind::Unqualified
    } else if contains(name, "合格"@) {
        Kind::Keep
    } else if exists|k: int| 0 <= k < data_markers().len() && contains(name, data_markers()[k]) {
        Kind::Mixed
    } else {
        Kind::Ignore
    }
}

pub fn classify(name: &str) -> (k: Kind)
    ensures
        k == classify_spec(name@),
{
    let n = chars_of(name);
    if contains_exec(n.as_slice(), chars_of("不合格").as_slice()) {
        return Kind::Unqualified;
    }
    if contains_exec(n.as_slice(), chars_of("合格").as_slice()) {
        return Kind::Keep;
    }
    let mut i: usize = 0;
    while i < 14
        invariant
            i <= 14,
            n@ == name@,
            !contains(name@, "不合格"@),
            !contains(name@, "合格"@),
            forall|k: int| 0 <= k < i ==> !contains(name@, #[trigger] data_markers()[k]),
        decreases 14 - i,
    {
        if contains_exec(n.as_slice(), chars_of(data_marker(i)).as_slice()) {
            assert(contains(name@, data_markers()[i as int]));
            return Kind::Mixed;
        }
        i = i + 1;
    }
    Kind::Ignore
}

/// The part of `s` before its first `?` or `#`.
pub open spec fn before_query(s: Seq<char>) -> Seq<char>
    decreases s.len(),
{
    if s.len() == 0 || s[0] == '?' || s[0] == '#' {
        Seq::<char>::empty()
    } else {
        seq![s[0]] + before_query(s.drop_first())
    }
}

/// The part of `s` after its last `.` (all of `s` when it has none).
pub open spec fn after_last_dot(s: Seq<char>) -> Seq<char> {
    match last_index_of(s, '.') {
        Some(i) => s.skip(i + 1),
        None => s,
    }
}

/// The lower-cased extension of the path of `url` when it is one of
/// `exts()`, else empty.
pub open spec fn ext_of_spec(url: Seq<char>) -> Seq<char> {
    known_ext_spec(lowercase(after_last_dot(before_query(url))))
}

/// `ext` when it is one of `exts()`, else empty.
pub open spec fn known_ext_spec(ext: Seq<char>) -> Seq<char> {
    if exts().contains(ext) {
        ext
    } else {
        Seq::<char>::empty()
    }
}

fn before_query_exec(s: &[char]) -> (r: Vec<char>)
    ensures
        r@ == before_query(s@),
{
    let mut i: usize = 0;
    assert(s@.take(0) + s@.skip(0) == s@.skip(0));
    assert(s@.skip(0) == s@);
    while i < s.len() && s[i] != '?' && s[i] != '#'
        invariant
            i <= s@.len(),
            before_query(s@) == s@.take(i as int) + before_query(s@.skip(i as int)),
        decreases s.len() - i,
    {
        assert(s@.skip(i as int).drop_first() == s@.skip(i + 1));
        assert(s@.take(i + 1) == s@.take(i as int) + seq![s@[i as int]]);
        i = i + 1;
    }
    assert(before_query(s@.skip(i as int)) == Seq::<char>::empty());
    slice_chars(s, 0, i)
}

pub fn ext_of(url: &str) -> (r: String)
    ensures
        r@ == ext_of_spec(url@),
{
    let u = chars_of(url);
    let clean = before_query_exec(u.as_slice());
    let last = match last_index_of_exec(clean.as_slice(), '.') {
        Some(i) => {
            proof {
                crate::text::lemma_last_index_of(clean@, '.');
            }
            let cl = clean.len();
            slice_chars(clean.as_slice(), i + 1, cl)
        },
        None => clean,
    };
    assert(last@ == after_last_dot(before_query(url@)));
    let low = to_lowercase(&string_of(last.as_slice()));
    known_extension(low.as_str())
}

/// A lower-cased extension, kept when it is one of the known extensions.
pub fn known_extension(low: &str) -> (r: String)
    ensures
        r@ == known_ext_spec(low@),
{
    let lowc = chars_of(low);
    let mut i: usize = 0;
    while i < N_EXTS
        invariant
            i <= N_EXTS,
            lowc@ == low@,
            forall|k: int| 0 <= k < i ==> exts()[k] != lowc@,
        decreases N_EXTS - i,
    {
        let e = chars_of(ext_name(i));
        if e.len() == lowc.len() && starts_with_exec(lowc.as_slice(), e.as_slice()) {
            assert(lowc@ == e@) by {
                assert(lowc@.subrange(0, e@.len() as int) == lowc@);
            }
            assert(exts().contains(lowc@)) by {
                assert(exts()[i as int] == lowc@);
            }
            return low.to_owned();
        }
        proof {
            if e@ == lowc@ {
                assert(lowc@.subrange(0, e@.len() as int) == lowc@);
            }
        }
        i = i + 1;
    }
    assert(!exts().contains(lowc@));
    String::new()
}

/// The path segments left after applying the parts of a relative link to
/// `segs`: empty parts and `.` are skipped, `..` drops the last segment.
pub open spec fn resolve(segs: Seq<Seq<char>>, parts: Seq<Seq<char>>) -> Seq<Seq<char>>
    decreases parts.len(),
{
    if parts.len() == 0 {
        segs
    } else {
        let p = parts[0];
        let next = if p.len() == 0 || p == seq!['.'] {
            segs
        } else if p == seq!['.', '.'] {
            if segs.len() > 0 {
                segs.drop_last()
            } else {
                segs
            }
        } else {
            segs.push(p)
        };
        resolve(next, parts.drop_first())
    }
}

/// The absolute URL of link `href` on the page at `base`; empty for an
/// empty link, an in-page anchor, a `javascript:` link, or a base without
/// a scheme.
pub open spec fn absolutize_spec(base: Seq<char>, href: Seq<char>) -> Seq<char> {
    let href = replace(trim(href), "&amp;"@, "&"@);
    if href.len() == 0 || starts_with(href, "#"@) || starts_with(href, "javascript:"@) {
        Seq::<char>::empty()
    } else if starts_with(href, "http://"@) || starts_with(href, "https://"@) {
        href
    } else {
        match find(base, "://"@) {
            None => Seq::<char>::empty(),
            Some(i) => {
                let scheme = base.take(i);
                let after = base.skip(i + 3);
                let host = match find(after, "/"@) {
                    Some(j) => after.take(j),
                    None => after,
                };
                let tail = match find(after, "/"@) {
                    Some(j) => after.skip(j + 1),
                    None => Seq::<char>::empty(),
                };
                let origin = scheme + "://"@ + host;
                if starts_with(href, "//"@) {
                    scheme + ":"@ + href
                } else if starts_with(href, "/"@) {
                    origin + href
                } else {
                    let base_path = match last_index_of(tail, '/') {
                        Some(k) => tail.take(k),
                        None => Seq::<char>::empty(),
                    };
                    let segs = split(base_path, '/').filter(|p: Seq<char>| p.len() > 0);
                    origin + "/"@ + join(resolve(segs, split(href, '/')), "/"@)
                }
            },
        }
    }
}

fn nonempty_pieces(v: &Vec<Vec<char>>) -> (r: Vec<Vec<char>>)
    ensures
        r.deep_view() == v.deep_view().filter(|p: Seq<char>| p.len() > 0),
{
    let mut r: Vec<Vec<char>> = Vec::new();
    let mut i: usize = 0;
    while i < v.len()
        invariant
            i <= v@.len(),
            r.deep_view() == v.deep_view().subrange(0, i as int).filter(
                |p: Seq<char>| p.len() > 0,
            ),
        decreases v.len() - i,
    {
        proof {
            assert(v.deep_view().subrange(0, i + 1).drop_last() == v.deep_view().subrange(
                0,
                i as int,
            ));
            reveal_with_fuel(Seq::filter, 1);
        }
        if v[i].len() > 0 {
            let ghost old_dv = r.deep_view();
            let p = v[i].clone();
            assert(p.deep_view() =~= v.deep_view()[i as int]);
            r.push(p);
            assert(r.deep_view() =~= old_dv.push(v.deep_view()[i as int]));
        }
        i = i + 1;
    }
    assert(v.deep_view().subrange(0, v@.len() as int) == v.deep_view());
    r
}

fn resolve_exec(segs: Vec<Vec<char>>, parts: &Vec<Vec<char>>) -> (r: Vec<Vec<char>>)
    ensures
        r.deep_view() == resolve(segs.deep_view(), parts.deep_view()),
{
    let mut segs = segs;
    let ghost start = segs.deep_view();
    let mut i: usize = 0;
    assert(parts.deep_view().skip(0) == parts.deep_view());
    while i < parts.len()
        invariant
            i <= parts@.len(),
            resolve(segs.deep_view(), parts.deep_view().skip(i as int)) == resolve(
                start,
                parts.deep_view(),
            ),
        decreases parts.len() - i,
    {
        let p = &parts[i];
        let ghost rest = parts.deep_view().skip(i as int);
        assert(rest[0] == p.deep_view());
        assert(rest.drop_first() == parts.deep_view().skip(i + 1));
        assert(p.deep_view() =~= p@);
        if p.len() == 0 || (p.len() == 1 && p[0] == '.') {
            assert(p@.len() == 0 || p@ == seq!['.']);
        } else if p.len() == 2 && p[0] == '.' && p[1] == '.' {
            assert(p@ == seq!['.', '.']);
            if segs.len() > 0 {
                let ghost old_dv = segs.deep_view();
                segs.pop();
                assert(segs.deep_view() =~= old_dv.drop_last());
            }
        } else {
            proof {
                if p@ == seq!['.'] {
                    assert(p@.len() == 1);
                }
                if p@ == seq!['.', '.'] {
                    assert(p@.len() == 2 && p@[0] == '.' && p@[1] == '.');
                }
            }
            let ghost old_dv = segs.deep_view();
            let q = p.clone();
            assert(q.deep_view() =~= p.deep_view());
            segs.push(q);
            assert(segs.deep_view() =~= old_dv.push(p.deep_view()));
        }
        i = i + 1;
    }
    segs
}

pub fn absolutize(base: &str, href: &str) -> (r: String)
    ensures
        r@ == absolutize_spec(base@, href@),
{
    let h0 = chars_of(href);
    let ht = trim_exec(h0.as_slice());
    let h = replace_exec(ht.as_slice(), chars_of("&amp;").as_slice(), chars_of("&").as_slice());
    if h.len() == 0 || starts_with_exec(h.as_slice(), chars_of("#").as_slice())
        || starts_with_exec(h.as_slice(), chars_of("javascript:").as_slice()) {
        return String::new();
    }
    if starts_with_exec(h.as_slice(), chars_of("http://").as_slice()) || starts_with_exec(
        h.as_slice(),
        chars_of("https://").as_slice(),
    ) {
        return string_of(h.as_slice());
    }
    let b = chars_of(base);
    let sep = chars_of("://");
    let i = match find_exec(b.as_slice(), sep.as_slice()) {
        Some(i) => i,
        None => return String::new(),
    };
    proof {
        crate::text::lemma_find_contains(b@, sep@);
        reveal_strlit("://");
        assert(sep@.len() == 3);
        assert(occurs_at(b@, sep@, i as int));
    }
    let bl = b.len();
    let after = slice_chars(b.as_slice(), i + 3, bl);
    let scheme = slice_chars(b.as_slice(), 0, i);
    let slash = chars_of("/");
    proof {
        crate::text::lemma_find_contains(after@, slash@);
        reveal_strlit("/");
    }
    let (host, tail) = match find_exec(after.as_slice(), slash.as_slice()) {
        Some(j) => (slice_chars(after.as_slice(), 0, j), slice_chars(after.as_slice(), j + 1, after.len())),
        None => (after.clone(), Vec::new()),
    };
    let mut origin: Vec<char> = Vec::new();
    push_all(&mut origin, scheme.as_slice());
    push_str(&mut origin, "://");
    push_all(&mut origin, host.as_slice());
    if starts_with_exec(h.as_slice(), chars_of("//").as_slice()) {
        let mut out: Vec<char> = Vec::new();
        push_all(&mut out, scheme.as_slice());
        push_str(&mut out, ":");
        push_all(&mut out, h.as_slice());
        return string_of(out.as_slice());
    }
    if starts_with_exec(h.as_slice(), slash.as_slice()) {
        push_all(&mut origin, h.as_slice());
        return string_of(origin.as_slice());
    }
    let base_path = match last_index_of_exec(tail.as_slice(), '/') {
        Some(k) => {
            proof {
                crate::text::lemma_last_index_of(tail@, '/');
            }
            slice_chars(tail.as_slice(), 0, k)
        },
        None => Vec::new(),
    };
    let pieces = split_exec(base_path.as_slice(), '/');
    let segs = nonempty_pieces(&pieces);
    let parts = split_exec(h.as_slice(), '/');
    let resolved = resolve_exec(segs, &parts);
    let joined = join_exec(&resolved, slash.as_slice());
    push_all(&mut origin, slash.as_slice());
    push_all(&mut origin, joined.as_slice());
    string_of(origin.as_slice())
}


pub open spec fn anchor_pattern() -> Seq<char> {
    r#"(?is)<a[^>]*href="([^"]+)"[^>]*>(.*?)</a>"#@
}

fn anchor_pattern_str() -> (r: &'static str)
    ensures
        r@ == anchor_pattern(),
{
    r#"(?is)<a[^>]*href="([^"]+)"[^>]*>(.*?)</a>"#
}

pub open spec fn tag_pattern() -> Seq<char> {
    r"<[^>]+>"@
}

fn tag_pattern_str() -> (r: &'static str)
    ensures
        r@ == tag_pattern(),
{
    r"<[^>]+>"
}

pub open spec fn pubdate_pattern() -> Seq<char> {
    r"(?iu)(PubDate|发布时间|发布日期|publishdate|createdate)[^0-9]{0,40}(20\d{2})-(\d{2})-(\d{2})"@
}

fn pubdate_pattern_str() -> (r: &'static str)
    ensures
        r@ == pubdate_pattern(),
{
    r"(?iu)(PubDate|发布时间|发布日期|publishdate|createdate)[^0-9]{0,40}(20\d{2})-(\d{2})-(\d{2})"
}

pub open spec fn bare_date_pattern() -> Seq<char> {
    r"\b(20\d{2})-(\d{2})-(\d{2})\b"@
}

fn bare_date_pattern_str() -> (r: &'static str)
    ensures
        r@ == bare_date_pattern(),
{
    r"\b(20\d{2})-(\d{2})-(\d{2})\b"
}

pub open spec fn ymd_pattern() -> Seq<char> {
    r"(\d{4})-(\d{2})-(\d{2})"@
}

fn ymd_pattern_str() -> (r: &'static str)
    ensures
        r@ == ymd_pattern(),
{
    r"(\d{4})-(\d{2})-(\d{2})"
}

pub open spec fn title_pattern() -> Seq<char> {
    r"(?s)<title>(.*?)</title>"@
}

fn title_pattern_str() -> (r: &'static str)
    ensures
        r@ == title_pattern(),
{
    r"(?s)<title>(.*?)</title>"
}

pub open spec fn issue_pattern() -> Seq<char> {
    r"第\s*(\d+)\s*[期号批]"@
}

fn issue_pattern_str() -> (r: &'static str)
    ensures
        r@ == issue_pattern(),
{
    r"第\s*(\d+)\s*[期号批]"
}

pub open spec fn compact_date_pattern() -> Seq<char> {
    r"(20\d{6})"@
}

fn compact_date_pattern_str() -> (r: &'static str)
    ensures
        r@ == compact_date_pattern(),
{
    r"(20\d{6})"
}

/// Group `i` of an optional match.
pub open spec fn cap(caps: Option<Seq<Option<Seq<char>>>>, i: int) -> Option<Seq<char>> {
    match caps {
        Some(c) => group(c, i),
        None => None,
    }
}

pub fn cap_exec(caps: &Option<Vec<Option<String>>>, i: usize) -> (r: Option<&String>)
    ensures
        r matches Some(g) ==> cap(caps.deep_view(), i as int) == Some(g@),
        r is None ==> cap(caps.deep_view(), i as int) is None,
{
    match caps {
        Some(c) => group_exec(c, i),
        None => None,
    }
}

/// A date read from three consecutive groups starting at `i`: year, month
/// and day, each parsed as `str::parse` does.
pub open spec fn date_parts(caps: Option<Seq<Option<Seq<char>>>>, i: int) -> Option<
    (i32, u32, u32),
> {
    match (cap(caps, i), cap(caps, i + 1), cap(caps, i + 2)) {
        (Some(a), Some(b), Some(c)) => match (
            parse_nat(a, i32::MAX as nat),
            parse_nat(b, u32::MAX as nat),
            parse_nat(c, u32::MAX as nat),
        ) {
            (Some(y), Some(m), Some(d)) => Some((y as i32, m as u32, d as u32)),
            _ => None,
        },
        _ => None,
    }
}

/// The date held by groups `first`, `first + 1` and `first + 2` of a match.
pub fn date_from_captures(caps: &Option<Vec<Option<String>>>, first: usize) -> (r: Option<
    (i32, u32, u32),
>)
    ensures
        r == date_parts(caps.deep_view(), first as int),
{
    let n = match caps {
        Some(v) => v.len(),
        None => return None,
    };
    if first >= n || n - first < 3 {
        return None;
    }
    let a = match cap_exec(caps, first) {
        Some(g) => g,
        None => return None,
    };
    let b = match cap_exec(caps, first + 1) {
        Some(g) => g,
        None => return None,
    };
    let c = match cap_exec(caps, first + 2) {
        Some(g) => g,
        None => return None,
    };
    let y = match parse_u64(chars_of(a.as_str()).as_slice(), 2147483647) {
        Some(v) => v,
        None => return None,
    };
    let m = match parse_u64(chars_of(b.as_str()).as_slice(), 4294967295) {
        Some(v) => v,
        None => return None,
    };
    let d = match parse_u64(chars_of(c.as_str()).as_slice(), 4294967295) {
        Some(v) => v,
        None => return None,
    };
    Some((y as i32, m as u32, d as u32))
}

/// The publication date of a page: the first date after a publication
/// label, else the first free-standing date, else `(0, 0, 0)`. A match whose
/// digits do not parse counts as no date.
pub open spec fn scan_date_spec(html: Seq<char>) -> (i32, u32, u32) {
    match date_parts(regex_captures(pubdate_pattern(), html), 2) {
        Some(d) => d,
        None => match date_parts(regex_captures(bare_date_pattern(), html), 1) {
            Some(d) => d,
            None => (0, 0, 0),
        },
    }
}

pub fn scan_date(html: &str) -> (r: (i32, u32, u32))
    ensures
        r == scan_date_spec(html@),
{
    let c1 = captures(pubdate_pattern_str(), html);
    if let Some(d) = date_from_captures(&c1, 2) {
        return d;
    }
    let c2 = captures(bare_date_pattern_str(), html);
    match date_from_captures(&c2, 1) {
        Some(d) => d,
        None => (0, 0, 0),
    }
}

/// The first `YYYY-MM-DD` date in `s`, else `(0, 0, 0)`.
pub open spec fn date_from_str_spec(s: Seq<char>) -> (i32, u32, u32) {
    match date_parts(regex_captures(ymd_pattern(), s), 1) {
        Some(d) => d,
        None => (0, 0, 0),
    }
}

pub fn date_from_str(s: &str) -> (r: (i32, u32, u32))
    ensures
        r == date_from_str_spec(s@),
{
    let c = captures(ymd_pattern_str(), s);
    match date_from_captures(&c, 1) {
        Some(d) => d,
        None => (0, 0, 0),
    }
}

/// The issue label of a notice: "第N期" from "第N期/号/批" in the title,
/// else an eight-digit `20YYMMDD` date in the title, else the publication
/// date as `YYYYMMDD`, else "期数未知" (issue unknown).
pub open spec fn issue_text(
    issue: Option<Seq<Option<Seq<char>>>>,
    compact: Option<Seq<Option<Seq<char>>>>,
    date: (i32, u32, u32),
) -> Seq<char> {
    match cap(issue, 1) {
        Some(g) => "第"@ + g + "期"@,
        None => match cap(compact, 1) {
            Some(g) => g,
            None => if date != (0i32, 0u32, 0u32) {
                padded_signed(date.0 as int, 0) + padded(date.1 as nat, 2) + padded(
                    date.2 as nat,
                    2,
                )
            } else {
                "期数未知"@
            },
        },
    }
}

/// The issue label from the matches of the issue pattern and of the
/// eight-digit date pattern in a title, and the publication date.
pub fn issue_from_captures(
    issue: &Option<Vec<Option<String>>>,
    compact: &Option<Vec<Option<String>>>,
    date: (i32, u32, u32),
) -> (r: String)
    ensures
        r@ == issue_text(issue.deep_view(), compact.deep_view(), date),
{
    if let Some(g) = cap_exec(issue, 1) {
        let mut out: Vec<char> = Vec::new();
        push_str(&mut out, "第");
        push_str(&mut out, g.as_str());
        push_str(&mut out, "期");
        return string_of(out.as_slice());
    }
    if let Some(g) = cap_exec(compact, 1) {
        return g.clone();
    }
    if date.0 != 0 || date.1 != 0 || date.2 != 0 {
        let mut out: Vec<char> = Vec::new();
        push_padded_signed(&mut out, date.0 as i64, 0);
        push_padded(&mut out, date.1 as u64, 2);
        push_padded(&mut out, date.2 as u64, 2);
        string_of(out.as_slice())
    } else {
        "期数未知".to_owned()
    }
}

pub fn extract_issue(title: &str, date: (i32, u32, u32)) -> (r: String)
    ensures
        r@ == issue_text(
            regex_captures(issue_pattern(), title@),
            regex_captures(compact_date_pattern(), title@),
            date,
        ),
{
    let c1 = captures(issue_pattern_str(), title);
    let c2 = captures(compact_date_pattern_str(), title);
    issue_from_captures(&c1, &c2, date)
}

/// `s` with every tag replaced by a space, then trimmed.
pub open spec fn strip_tags_spec(s: Seq<char>) -> Seq<char> {
    match regex_replace_all(tag_pattern(), s, " "@) {
        Some(t) => trim(t),
        None => trim(s),
    }
}

pub fn strip_tags(s: &str) -> (r: String)
    ensures
        r@ == strip_tags_spec(s@),
{
    let replaced = match replace_all(tag_pattern_str(), s, " ") {
        Some(t) => t,
        None => s.to_owned(),
    };
    let c = chars_of(replaced.as_str());
    string_of(trim_exec(c.as_slice()).as_slice())
}

/// The link target and inner text of every match of the anchor pattern
/// that has both.
pub open spec fn pairs_of(all: Seq<Seq<Option<Seq<char>>>>) -> Seq<(Seq<char>, Seq<char>)>
    decreases all.len(),
{
    if all.len() == 0 {
        Seq::empty()
    } else {
        let init = pairs_of(all.drop_last());
        match (group(all.last(), 1), group(all.last(), 2)) {
            (Some(h), Some(t)) => init.push((h, t)),
            _ => init,
        }
    }
}

pub open spec fn anchors_spec(html: Seq<char>) -> Seq<(Seq<char>, Seq<char>)> {
    match regex_captures_all(anchor_pattern(), html) {
        Some(all) => pairs_of(all),
        None => Seq::empty(),
    }
}

/// The `(href, inner html)` pairs of the anchor pattern's matches.
pub fn anchor_pairs(all: &Vec<Vec<Option<String>>>) -> (r: Vec<(String, String)>)
    ensures
        r.deep_view() == pairs_of(all.deep_view()),
{
    let mut r: Vec<(String, String)> = Vec::new();
    let mut i: usize = 0;
    while i < all.len()
        invariant
            i <= all@.len(),
            r.deep_view() == pairs_of(all.deep_view().subrange(0, i as int)),
        decreases all.len() - i,
    {
        let ghost pre = all.deep_view().subrange(0, i + 1);
        assert(pre.drop_last() == all.deep_view().subrange(0, i as int));
        assert(pre.last() == all[i as int].deep_view());
        let h = group_exec(&all[i], 1);
        let t = group_exec(&all[i], 2);
        match (h, t) {
            (Some(h), Some(t)) => {
                let ghost old_dv = r.deep_view();
                r.push((h.clone(), t.clone()));
                assert(r.deep_view() =~= old_dv.push((h@, t@)));
            },
            _ => {},
        }
        i = i + 1;
    }
    assert(all.deep_view().subrange(0, all@.len() as int) == all.deep_view());
    r
}

/// The `(href, inner html)` pairs of the anchors of a page.
pub fn anchors(html: &str) -> (r: Vec<(String, String)>)
    ensures
        r.deep_view() == anchors_spec(html@),
{
    match captures_all(anchor_pattern_str(), html) {
        Some(all) => anchor_pairs(&all),
        None => Vec::new(),
    }
}

/// The link ends in `.ext` for one of the attachment extensions.
pub open spec fn has_ext(href: Seq<char>) -> bool {
    exists|k: int| 0 <= k < exts().len() && ends_with(href, seq!['.'] + exts()[k])
}

fn has_ext_exec(href: &[char]) -> (r: bool)
    ensures
        r == has_ext(href@),
{
    let mut i: usize = 0;
    while i < N_EXTS
        invariant
            i <= N_EXTS,
            forall|k: int| 0 <= k < i ==> !ends_with(href@, seq!['.'] + #[trigger] exts()[k]),
        decreases N_EXTS - i,
    {
        let mut e: Vec<char> = Vec::new();
        e.push('.');
        push_str(&mut e, ext_name(i));
        if ends_with_exec(href, e.as_slice()) {
            assert(ends_with(href@, seq!['.'] + exts()[i as int]));
            return true;
        }
        i = i + 1;
    }
    false
}

/// The attachments among the anchors of the page at `base`: resolved links
/// that end in an attachment extension or lie under `/files/` or
/// `/attachment/`, each with its label stripped of tags.
pub open spec fn attachments_spec(base: Seq<char>, pairs: Seq<(Seq<char>, Seq<char>)>) -> Seq<
    (Seq<char>, Seq<char>),
>
    decreases pairs.len(),
{
    if pairs.len() == 0 {
        Seq::empty()
    } else {
        let init = attachments_spec(base, pairs.drop_last());
        let href = absolutize_spec(base, pairs.last().0);
        if href.len() == 0 || (!has_ext(href) && !contains(href, "/files/"@) && !contains(
            href,
            "/attachment/"@,
        )) {
            init
        } else {
            init.push((href, strip_tags_spec(pairs.last().1)))
        }
    }
}

pub fn attachments_of(base: &str, pairs: &Vec<(String, String)>) -> (r: Vec<(String, String)>)
    ensures
        r.deep_view() == attachments_spec(base@, pairs.deep_view()),
{
    let mut r: Vec<(String, String)> = Vec::new();
    let mut i: usize = 0;
    while i < pairs.len()
        invariant
            i <= pairs@.len(),
            r.deep_view() == attachments_spec(base@, pairs.deep_view().subrange(0, i as int)),
        decreases pairs.len() - i,
    {
        let ghost pre = pairs.deep_view().subrange(0, i + 1);
        assert(pre.drop_last() == pairs.deep_view().subrange(0, i as int));
        assert(pre.last() == pairs.deep_view()[i as int]);
        let href = absolutize(base, pairs[i].0.as_str());
        let hc = chars_of(href.as_str());
        let keep = hc.len() > 0 && (has_ext_exec(hc.as_slice()) || contains_exec(
            hc.as_slice(),
            chars_of("/files/").as_slice(),
        ) || contains_exec(hc.as_slice(), chars_of("/attachment/").as_slice()));
        if keep {
            let label = strip_tags(pairs[i].1.as_str());
            let ghost old_dv = r.deep_view();
            r.push((href, label));
            assert(r.deep_view() =~= old_dv.push((href@, label@)));
        }
        i = i + 1;
    }
    assert(pairs.deep_view().subrange(0, pairs@.len() as int) == pairs.deep_view());
    r
}

/// The trimmed page title, or empty when the page has none.
pub open spec fn title_spec(html: Seq<char>) -> Seq<char> {
    match cap(regex_captures(title_pattern(), html), 1) {
        Some(g) => trim(g),
        None => Seq::empty(),
    }
}

pub fn parse_article(html: &str, base: &str) -> (a: Article)
    ensures
        a.title@ == title_spec(html@),
        a.date == scan_date_spec(html@),
        a.attachments.deep_view() == attachments_spec(base@, anchors_spec(html@)),
{
    let tc = captures(title_pattern_str(), html);
    let title = match cap_exec(&tc, 1) {
        Some(g) => string_of(trim_exec(chars_of(g.as_str()).as_slice()).as_slice()),
        None => String::new(),
    };
    let date = scan_date(html);
    let pairs = anchors(html);
    let attachments = attachments_of(base, &pairs);
    Article { title, date, attachments }
}

} // verus!
