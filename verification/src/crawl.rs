//! The crawling decisions: which listing layout a region uses, which links
//! of a listing are notices, which attachments are fetched, and under which
//! file names they are stored.

use vstd::prelude::*;

use crate::html::{
    absolutize, absolutize_spec, classify, classify_spec, date_from_str, date_from_str_spec,
    ext_of, ext_of_spec, extract_issue, issue_pattern, compact_date_pattern, issue_text, Kind,
};
use crate::json::{
    get, index, json_at, json_get, json_parse, json_str, json_view, json_views, lemma_json_views,
    parse_json, ref_view, str_or_empty, Json, JsonView,
};
use crate::pattern::{captures, regex_captures};
use crate::text::{
    chars_of, contains, contains_exec, decimal, is_ctrl, is_control, padded,
    padded_signed, push_all, push_decimal, push_padded, push_padded_signed, push_str, slice_chars,
    string_of, trim, trim_exec,
};

verus! {

/// The listing layouts the crawler knows.
#[derive(PartialEq, Eq, Structural, Debug, Clone, Copy)]
pub enum Strategy {
    /// Jiangxi: a JSON query API.
    Jiangxi,
    /// Hunan and Fujian: notice links carry `YYYYMM` in their path.
    DatePath,
    /// The common TRS site layout.
    Trs,
}

pub open spec fn strategy_spec(seed: Seq<char>) -> Strategy {
    if contains(seed, "amr.jiangxi.gov.cn"@) {
        Strategy::Jiangxi
    } else if contains(seed, "amr.hunan.gov.cn"@) || contains(seed, "scjgj.fujian.gov.cn"@) {
        Strategy::DatePath
    } else {
        Strategy::Trs
    }
}

/// The layout used for the region whose listing page is `seed`.
pub fn strategy_of(seed: &str) -> (r: Strategy)
    ensures
        r == strategy_spec(seed@),
{
    let s = chars_of(seed);
    if contains_exec(s.as_slice(), chars_of("amr.jiangxi.gov.cn").as_slice()) {
        Strategy::Jiangxi
    } else if contains_exec(s.as_slice(), chars_of("amr.hunan.gov.cn").as_slice())
        || contains_exec(s.as_slice(), chars_of("scjgj.fujian.gov.cn").as_slice()) {
        Strategy::DatePath
    } else {
        Strategy::Trs
    }
}

/// A notice published in year `y`, month `m` belongs to the target month.
pub fn article_matches(y: i32, m: u32, year: i64, month: u32) -> (r: bool)
    ensures
        r == (y == year && m == month),
{
    y as i64 == year && m == month
}

/// Characters not allowed in stored file names.
pub open spec fn forbidden(c: char) -> bool {
    c == '/' || c == '\\' || c == ':' || c == '*' || c == '?' || c == '"' || c == '<' || c == '>'
        || c == '|' || is_ctrl(c)
}

/// A label made safe as a file name: forbidden characters dropped, the rest
/// trimmed; "文件" (file) when nothing is left.
pub open spec fn sanitize_spec(s: Seq<char>) -> Seq<char> {
    let t = trim(s.filter(|c: char| !forbidden(c)));
    if t.len() == 0 {
        "文件"@
    } else {
        t
    }
}

pub fn sanitize(s: &str) -> (r: String)
    ensures
        r@ == sanitize_spec(s@),
{
    let c = chars_of(s);
    let mut kept: Vec<char> = Vec::new();
    let mut i: usize = 0;
    while i < c.len()
        invariant
            i <= c@.len(),
            c@ == s@,
            kept@ == c@.subrange(0, i as int).filter(|x: char| !forbidden(x)),
        decreases c.len() - i,
    {
        proof {
            assert(c@.subrange(0, i + 1).drop_last() == c@.subrange(0, i as int));
            reveal_with_fuel(Seq::filter, 1);
        }
        let ch = c[i];
        if !(ch == '/' || ch == '\\' || ch == ':' || ch == '*' || ch == '?' || ch == '"' || ch
            == '<' || ch == '>' || ch == '|' || is_control(ch)) {
            kept.push(ch);
        }
        i = i + 1;
    }
    assert(c@.subrange(0, c@.len() as int) == c@);
    let t = trim_exec(kept.as_slice());
    if t.len() == 0 {
        "文件".to_owned()
    } else {
        string_of(t.as_slice())
    }
}

/// The name under which an attachment is stored: `{region}-{issue}.{ext}`
/// for the first copy, `{region}-{issue}-{n}.{ext}` for copy `n`.
pub open spec fn stored_name(region: Seq<char>, issue: Seq<char>, ext: Seq<char>, n: nat) -> Seq<char> {
    let prefix = region + seq!['-'] + issue;
    if n <= 1 {
        prefix + seq!['.'] + ext
    } else {
        prefix + seq!['-'] + decimal(n) + seq!['.'] + ext
    }
}

/// The name of copy `n` (1 for the first) of an attachment with extension
/// `ext`, for the notice `issue` of `region`.
pub fn stored_file_name(region: &str, issue: &str, ext: &str, n: u64) -> (r: String)
    ensures
        r@ == stored_name(region@, issue@, ext@, n as nat),
{
    let mut out: Vec<char> = Vec::new();
    push_str(&mut out, region);
    out.push('-');
    push_str(&mut out, issue);
    if n > 1 {
        out.push('-');
        push_decimal(&mut out, n);
    }
    out.push('.');
    push_str(&mut out, ext);
    string_of(out.as_slice())
}

/// Whether an attachment of kind `kind` is downloaded: qualified lists and
/// combined result tables are, unqualified lists and auxiliary files not.
pub fn is_downloaded(kind: Kind) -> (r: bool)
    ensures
        r == (kind == Kind::Keep || kind == Kind::Mixed),
{
    match kind {
        Kind::Keep => true,
        Kind::Mixed => true,
        _ => false,
    }
}

/// An attachment the crawler met: where it is, its label, its extension,
/// and what is done with it.
pub struct Planned {
    pub url: String,
    pub label: String,
    pub ext: String,
    pub kind: Kind,
}

impl View for Planned {
    type V = (Seq<char>, Seq<char>, Seq<char>, Kind);

    open spec fn view(&self) -> Self::V {
        (self.url@, self.label@, self.ext@, self.kind)
    }
}

pub open spec fn planned_view(v: Seq<Planned>) -> Seq<(Seq<char>, Seq<char>, Seq<char>, Kind)> {
    v.map_values(|p: Planned| p@)
}

/// The attachments with a known extension, each with its kind, in order.
pub open spec fn plan_spec(atts: Seq<(Seq<char>, Seq<char>)>) -> Seq<
    (Seq<char>, Seq<char>, Seq<char>, Kind),
>
    decreases atts.len(),
{
    if atts.len() == 0 {
        Seq::empty()
    } else {
        let init = plan_spec(atts.drop_last());
        let (url, label) = atts.last();
        let ext = ext_of_spec(url);
        if ext.len() == 0 {
            init
        } else {
            init.push((url, label, ext, classify_spec(label)))
        }
    }
}

/// What to do with each `(url, label)` attachment of a notice.
pub fn plan_attachments(atts: &Vec<(String, String)>) -> (r: Vec<Planned>)
    ensures
        planned_view(r@) == plan_spec(atts.deep_view()),
{
    let mut out: Vec<Planned> = Vec::new();
    let mut i: usize = 0;
    while i < atts.len()
        invariant
            i <= atts@.len(),
            planned_view(out@) == plan_spec(atts.deep_view().subrange(0, i as int)),
        decreases atts.len() - i,
    {
        let ghost pre = atts.deep_view().subrange(0, i + 1);
        assert(pre.drop_last() == atts.deep_view().subrange(0, i as int));
        let ext = ext_of(atts[i].0.as_str());
        if !ext.as_str().is_empty() {
            let p = Planned {
                url: atts[i].0.clone(),
                label: atts[i].1.clone(),
                ext,
                kind: classify(atts[i].1.as_str()),
            };
            let ghost old_v = planned_view(out@);
            out.push(p);
            assert(planned_view(out@) =~= old_v.push(p@));
        } else {
            assert(ext@.len() == 0);
        }
        i = i + 1;
    }
    assert(atts.deep_view().subrange(0, atts@.len() as int) == atts.deep_view());
    out
}

/// The `YYYYMM` token of a month (`{year}{month:02}`).
pub open spec fn month_token(year: i64, month: u32) -> Seq<char> {
    padded_signed(year as int, 0) + padded(month as nat, 2)
}

fn month_token_exec(year: i64, month: u32) -> (r: Vec<char>)
    ensures
        r@ == month_token(year, month),
{
    let mut out: Vec<char> = Vec::new();
    push_padded_signed(&mut out, year, 0);
    push_padded(&mut out, month as u64, 2);
    out
}

/// The distinct absolute links of a date-path listing whose path carries
/// the month token, in page order.
pub open spec fn dated_links_spec(seed: Seq<char>, token: Seq<char>, hrefs: Seq<Seq<char>>) -> Seq<
    Seq<char>,
>
    decreases hrefs.len(),
{
    if hrefs.len() == 0 {
        Seq::empty()
    } else {
        let seen = dated_links_spec(seed, token, hrefs.drop_last());
        let h = absolutize_spec(seed, hrefs.last());
        if contains(h, token) && !seen.contains(h) {
            seen.push(h)
        } else {
            seen
        }
    }
}

fn contains_string(v: &Vec<String>, t: &String) -> (r: bool)
    ensures
        r == v.deep_view().contains(t@),
{
    let mut i: usize = 0;
    while i < v.len()
        invariant
            i <= v@.len(),
            forall|k: int| 0 <= k < i ==> v.deep_view()[k] != t@,
        decreases v.len() - i,
    {
        if v[i] == *t {
            assert(v.deep_view()[i as int] == t@);
            return true;
        }
        i = i + 1;
    }
    false
}

/// The notice links of a date-path listing page (Hunan, Fujian) for a month,
/// from the raw `href`s of its anchors.
pub fn dated_links(seed: &str, hrefs: &Vec<String>, year: i64, month: u32) -> (r: Vec<String>)
    ensures
        r.deep_view() == dated_links_spec(seed@, month_token(year, month), hrefs.deep_view()),
{
    let token = month_token_exec(year, month);
    let mut seen: Vec<String> = Vec::new();
    let mut i: usize = 0;
    while i < hrefs.len()
        invariant
            i <= hrefs@.len(),
            token@ == month_token(year, month),
            seen.deep_view() == dated_links_spec(
                seed@,
                token@,
                hrefs.deep_view().subrange(0, i as int),
            ),
        decreases hrefs.len() - i,
    {
        let ghost pre = hrefs.deep_view().subrange(0, i + 1);
        assert(pre.drop_last() == hrefs.deep_view().subrange(0, i as int));
        let h = absolutize(seed, hrefs[i].as_str());
        if contains_exec(chars_of(h.as_str()).as_slice(), token.as_slice()) && !contains_string(
            &seen,
            &h,
        ) {
            let ghost old_v = seen.deep_view();
            seen.push(h);
            assert(seen.deep_view() =~= old_v.push(h@));
        }
        i = i + 1;
    }
    assert(hrefs.deep_view().subrange(0, hrefs@.len() as int) == hrefs.deep_view());
    seen
}

pub open spec fn t_page_pattern() -> Seq<char> {
    r"t\d{4,}\.\w{3,5}"@
}

fn t_page_pattern_str() -> (r: &'static str)
    ensures
        r@ == t_page_pattern(),
{
    r"t\d{4,}\.\w{3,5}"
}

/// The pattern `/{year}{month:02}/` of a month directory in a link.
pub open spec fn month_dir_pattern(year: i64, month: u32) -> Seq<char> {
    seq!['/'] + month_token(year, month) + seq!['/']
}

/// A link of a TRS listing that leads to a notice.
pub open spec fn is_article_link(h: Seq<char>, year: i64, month: u32) -> bool {
    contains(h, "post_"@) || contains(h, "content_"@) || regex_captures(t_page_pattern(), h) is Some
        || regex_captures(month_dir_pattern(year, month), h) is Some
}

/// At most 60 distinct absolute notice links of a TRS listing page, in
/// page order.
pub open spec fn trs_links_spec(seed: Seq<char>, hrefs: Seq<Seq<char>>, year: i64, month: u32) -> Seq<
    Seq<char>,
>
    decreases hrefs.len(),
{
    if hrefs.len() == 0 {
        Seq::empty()
    } else {
        let c = trs_links_spec(seed, hrefs.drop_last(), year, month);
        let h = absolutize_spec(seed, hrefs.last());
        if c.len() >= 60 || h.len() == 0 || c.contains(h) || !is_article_link(h, year, month) {
            c
        } else {
            c.push(h)
        }
    }
}

/// The notice links of a TRS listing page for a month, from the raw
/// `href`s of its anchors.
pub fn trs_links(seed: &str, hrefs: &Vec<String>, year: i64, month: u32) -> (r: Vec<String>)
    ensures
        r.deep_view() == trs_links_spec(seed@, hrefs.deep_view(), year, month),
        r@.len() <= 60,
{
    let mut dir: Vec<char> = Vec::new();
    dir.push('/');
    push_all(&mut dir, month_token_exec(year, month).as_slice());
    dir.push('/');
    let dir_pat = string_of(dir.as_slice());
    let mut cands: Vec<String> = Vec::new();
    let mut i: usize = 0;
    while i < hrefs.len()
        invariant
            i <= hrefs@.len(),
            dir_pat@ == month_dir_pattern(year, month),
            cands.deep_view() == trs_links_spec(
                seed@,
                hrefs.deep_view().subrange(0, i as int),
                year,
                month,
            ),
            cands@.len() <= 60,
        decreases hrefs.len() - i,
    {
        let ghost pre = hrefs.deep_view().subrange(0, i + 1);
        assert(pre.drop_last() == hrefs.deep_view().subrange(0, i as int));
        if cands.len() < 60 {
            let h = absolutize(seed, hrefs[i].as_str());
            if !h.as_str().is_empty() && !contains_string(&cands, &h) {
                let hc = chars_of(h.as_str());
                let article = contains_exec(hc.as_slice(), chars_of("post_").as_slice())
                    || contains_exec(hc.as_slice(), chars_of("content_").as_slice()) || captures(
                    t_page_pattern_str(),
                    h.as_str(),
                ).is_some() || captures(dir_pat.as_str(), h.as_str()).is_some();
                if article {
                    let ghost old_v = cands.deep_view();
                    cands.push(h);
                    assert(cands.deep_view() =~= old_v.push(h@));
                }
            } else {
                proof {
                    if h@.len() == 0 {
                        assert(h@.len() == 0);
                    }
                }
            }
        }
        i = i + 1;
    }
    assert(hrefs.deep_view().subrange(0, hrefs@.len() as int) == hrefs.deep_view());
    cands
}

/// The query endpoint of the Jiangxi API: `{scheme}://{host}/queryList`
/// for the listing page `base`; `None` when `base` has no scheme.
pub open spec fn jiangxi_api_spec(base: Seq<char>) -> Option<Seq<char>> {
    match crate::text::find(base, "://"@) {
        None => None,
        Some(i) => {
            let after = base.skip(i + 3);
            let host = match crate::text::find(after, "/"@) {
                Some(j) => after.take(j),
                None => after,
            };
            Some(base.take(i) + "://"@ + host + "/queryList"@)
        },
    }
}

pub fn jiangxi_api(base: &str) -> (r: Option<String>)
    ensures
        r.deep_view() == jiangxi_api_spec(base@),
{
    let b = chars_of(base);
    let sep = chars_of("://");
    let i = match crate::text::find_exec(b.as_slice(), sep.as_slice()) {
        Some(i) => i,
        None => return None,
    };
    proof {
        crate::text::lemma_find_contains(b@, sep@);
        reveal_strlit("://");
    }
    let bl = b.len();
    let after = slice_chars(b.as_slice(), i + 3, bl);
    let slash = chars_of("/");
    let host = match crate::text::find_exec(after.as_slice(), slash.as_slice()) {
        Some(j) => {
            proof {
                crate::text::lemma_find_contains(after@, slash@);
                reveal_strlit("/");
            }
            slice_chars(after.as_slice(), 0, j)
        },
        None => after,
    };
    let mut out = slice_chars(b.as_slice(), 0, i);
    push_str(&mut out, "://");
    push_all(&mut out, host.as_slice());
    push_str(&mut out, "/queryList");
    Some(string_of(out.as_slice()))
}

/// The form body that asks the Jiangxi API for page `page` of the listing.
pub open spec fn jiangxi_body_spec(page: u32) -> Seq<char> {
    "current="@ + decimal(page as nat)
        + "&unitid=368486&webSiteCode=amr&channelCode=spcjxx&perPage=20&titleMax=34"@
}

pub fn jiangxi_body(page: u32) -> (r: String)
    ensures
        r@ == jiangxi_body_spec(page),
{
    let mut out: Vec<char> = Vec::new();
    push_str(&mut out, "current=");
    push_decimal(&mut out, page as u64);
    push_str(&mut out, "&unitid=368486&webSiteCode=amr&channelCode=spcjxx&perPage=20&titleMax=34");
    string_of(out.as_slice())
}

/// An attached file of a Jiangxi API record.
pub struct JiangxiFile {
    pub file_name: String,
    pub domain_name: String,
    pub file_path: String,
}

impl View for JiangxiFile {
    type V = (Seq<char>, Seq<char>, Seq<char>);

    open spec fn view(&self) -> Self::V {
        (self.file_name@, self.domain_name@, self.file_path@)
    }
}

/// A record of the Jiangxi API: publication date text, title, files.
pub struct JiangxiItem {
    pub pub_date: String,
    pub title: String,
    pub files: Vec<JiangxiFile>,
}

impl View for JiangxiItem {
    type V = (Seq<char>, Seq<char>, Seq<(Seq<char>, Seq<char>, Seq<char>)>);

    open spec fn view(&self) -> Self::V {
        (self.pub_date@, self.title@, self.files@.map_values(|f: JiangxiFile| f@))
    }
}

pub open spec fn items_view(v: Seq<JiangxiItem>) -> Seq<
    (Seq<char>, Seq<char>, Seq<(Seq<char>, Seq<char>, Seq<char>)>),
> {
    v.map_values(|i: JiangxiItem| i@)
}

/// A notice to fetch: its issue label and its attachments.
pub struct Notice {
    pub issue: String,
    pub planned: Vec<Planned>,
}

/// The `(url, name)` pairs of a record's files (name, domain, path): the
/// url is the domain followed by the path.
pub open spec fn file_pairs(files: Seq<(Seq<char>, Seq<char>, Seq<char>)>) -> Seq<
    (Seq<char>, Seq<char>),
> {
    Seq::new(files.len(), |k: int| (files[k].1 + files[k].2, files[k].0))
}

/// The outcome of one page of Jiangxi records for a month: the notices of
/// the month, and whether a record older than the month was met (the pages
/// are newest first, so the crawl stops there).
pub open spec fn jiangxi_fold(
    items: Seq<(Seq<char>, Seq<char>, Seq<(Seq<char>, Seq<char>, Seq<char>)>)>,
    year: i64,
    month: u32,
) -> (Seq<(Seq<char>, Seq<(Seq<char>, Seq<char>, Seq<char>, Kind)>)>, bool)
    decreases items.len(),
{
    if items.len() == 0 {
        (Seq::empty(), false)
    } else {
        let st = jiangxi_fold(items.drop_last(), year, month);
        let it = items.last();
        let d = date_from_str_spec(it.0);
        if st.1 || d.0 == 0 {
            st
        } else if (d.0 as int) < year || ((d.0 as int) == year && d.1 < month) {
            (st.0, true)
        } else if (d.0 as int) != year || d.1 != month {
            st
        } else {
            let issue = issue_text(
                regex_captures(issue_pattern(), it.1),
                regex_captures(compact_date_pattern(), it.1),
                d,
            );
            (st.0.push((issue, plan_spec(file_pairs(it.2)))), st.1)
        }
    }
}

pub open spec fn notices_view(v: Seq<Notice>) -> Seq<
    (Seq<char>, Seq<(Seq<char>, Seq<char>, Seq<char>, Kind)>),
> {
    v.map_values(|n: Notice| (n.issue@, planned_view(n.planned@)))
}

fn file_pairs_exec(files: &Vec<JiangxiFile>) -> (r: Vec<(String, String)>)
    ensures
        r.deep_view() == file_pairs(files@.map_values(|f: JiangxiFile| f@)),
{
    let ghost fv = files@.map_values(|f: JiangxiFile| f@);
    let mut out: Vec<(String, String)> = Vec::new();
    let mut i: usize = 0;
    while i < files.len()
        invariant
            i <= files@.len(),
            fv == files@.map_values(|f: JiangxiFile| f@),
            out.deep_view() == file_pairs(fv.subrange(0, i as int)),
        decreases files.len() - i,
    {
        let mut url: Vec<char> = chars_of(files[i].domain_name.as_str());
        push_str(&mut url, files[i].file_path.as_str());
        let ghost old_v = out.deep_view();
        let u = string_of(url.as_slice());
        let ghost entry = (u@, files[i as int].file_name@);
        out.push((u, files[i].file_name.clone()));
        assert(out.deep_view() =~= old_v.push(entry));
        assert(file_pairs(fv.subrange(0, i + 1)) =~= file_pairs(fv.subrange(0, i as int)).push(entry));
        i = i + 1;
    }
    assert(fv.subrange(0, files@.len() as int) == fv);
    out
}

/// The notices of the month among one page of Jiangxi records, and whether
/// the crawl has gone past the month.
pub fn jiangxi_page(items: &Vec<JiangxiItem>, year: i64, month: u32) -> (r: (Vec<Notice>, bool))
    ensures
        (notices_view(r.0@), r.1) == jiangxi_fold(items_view(items@), year, month),
{
    let ghost iv = items_view(items@);
    let mut notices: Vec<Notice> = Vec::new();
    let mut i: usize = 0;
    while i < items.len()
        invariant
            i <= items@.len(),
            iv == items_view(items@),
            (notices_view(notices@), false) == jiangxi_fold(iv.subrange(0, i as int), year, month),
        decreases items.len() - i,
    {
        let ghost pre = iv.subrange(0, i + 1);
        assert(pre.drop_last() == iv.subrange(0, i as int));
        assert(pre.last() == items@[i as int]@);
        let it = &items[i];
        let d = date_from_str(it.pub_date.as_str());
        if d.0 != 0 {
            if (d.0 as i64) < year || ((d.0 as i64) == year && d.1 < month) {
                assert(iv == iv.subrange(0, iv.len() as int));
                proof {
                    lemma_jiangxi_stops(iv, year, month, i + 1);
                }
                return (notices, true);
            }
            if d.0 as i64 == year && d.1 == month {
                let issue = extract_issue(it.title.as_str(), d);
                let pairs = file_pairs_exec(&it.files);
                let planned = plan_attachments(&pairs);
                let ghost old_v = notices_view(notices@);
                let n = Notice { issue, planned };
                notices.push(n);
                assert(notices_view(notices@) =~= old_v.push((n.issue@, planned_view(n.planned@))));
            }
        }
        i = i + 1;
    }
    assert(iv.subrange(0, iv.len() as int) == iv);
    (notices, false)
}

/// Once the crawl has gone past the month, later records change nothing.
pub proof fn lemma_jiangxi_stops(
    items: Seq<(Seq<char>, Seq<char>, Seq<(Seq<char>, Seq<char>, Seq<char>)>)>,
    year: i64,
    month: u32,
    k: int,
)
    requires
        0 <= k <= items.len(),
        jiangxi_fold(items.subrange(0, k), year, month).1,
    ensures
        jiangxi_fold(items, year, month) == jiangxi_fold(items.subrange(0, k), year, month),
    decreases items.len() - k,
{
    if k < items.len() {
        assert(items.subrange(0, k + 1).drop_last() == items.subrange(0, k));
        lemma_jiangxi_stops(items, year, month, k + 1);
    } else {
        assert(items.subrange(0, k) == items);
    }
}

/// A file entry of a record's `articleFiles` list: its `fileName`,
/// `domainName` and `filePath` strings (empty where missing).
pub open spec fn file_of(f: JsonView) -> (Seq<char>, Seq<char>, Seq<char>) {
    (
        str_or_empty(index(f, "fileName"@)),
        str_or_empty(index(f, "domainName"@)),
        str_or_empty(index(f, "filePath"@)),
    )
}

/// The files of a record's `source`: its `articleFiles` string parsed as a
/// JSON array; no files when it is missing, not a string, not JSON or not
/// an array.
pub open spec fn files_of(src: JsonView) -> Seq<(Seq<char>, Seq<char>, Seq<char>)> {
    match index(src, "articleFiles"@) {
        JsonView::Str(t) => match json_parse(t) {
            Some(JsonView::Arr(a)) => a.map_values(|f: JsonView| file_of(f)),
            _ => Seq::empty(),
        },
        _ => Seq::empty(),
    }
}

/// A record of the API answer: the `pubDate`, `title` and files of its
/// `source` object.
pub open spec fn item_of(item: JsonView) -> (Seq<char>, Seq<char>, Seq<(Seq<char>, Seq<char>, Seq<char>)>) {
    let src = index(item, "source"@);
    (str_or_empty(index(src, "pubDate"@)), str_or_empty(index(src, "title"@)), files_of(src))
}

/// The records of an API answer: the array at `/data/results`, or `None`
/// when the answer is not JSON or holds no such array.
pub open spec fn records_spec(parsed: Option<JsonView>) -> Option<
    Seq<(Seq<char>, Seq<char>, Seq<(Seq<char>, Seq<char>, Seq<char>)>)>,
> {
    match parsed {
        Some(v) => match get(v, "data"@) {
            Some(d) => match get(d, "results"@) {
                Some(JsonView::Arr(a)) => Some(a.map_values(|i: JsonView| item_of(i))),
                _ => None,
            },
            None => None,
        },
        None => None,
    }
}

fn file_record(f: &Json) -> (r: JiangxiFile)
    ensures
        r@ == file_of(f@),
{
    JiangxiFile {
        file_name: json_str(json_at(Some(f), "fileName")),
        domain_name: json_str(json_at(Some(f), "domainName")),
        file_path: json_str(json_at(Some(f), "filePath")),
    }
}

fn file_records(src: Option<&Json>) -> (r: Vec<JiangxiFile>)
    ensures
        r@.map_values(|f: JiangxiFile| f@) == files_of(ref_view(src)),
{
    let mut out: Vec<JiangxiFile> = Vec::new();
    let text = match json_at(src, "articleFiles") {
        Some(Json::Str(t)) => t,
        _ => return out,
    };
    let parsed = parse_json(text.as_str());
    let a = match &parsed {
        Some(Json::Arr(a)) => a,
        _ => return out,
    };
    proof {
        lemma_json_views(a@);
    }
    let ghost want = json_views(a@).map_values(|f: JsonView| file_of(f));
    let mut i: usize = 0;
    while i < a.len()
        invariant
            i <= a@.len(),
            json_views(a@).len() == a@.len(),
            forall|j: int| 0 <= j < a@.len() ==> #[trigger] json_views(a@)[j] == json_view(a@[j]),
            want == json_views(a@).map_values(|f: JsonView| file_of(f)),
            out@.map_values(|f: JiangxiFile| f@) == want.subrange(0, i as int),
        decreases a.len() - i,
    {
        let f = file_record(&a[i]);
        let ghost old_v = out@.map_values(|f: JiangxiFile| f@);
        out.push(f);
        assert(out@.map_values(|f: JiangxiFile| f@) =~= old_v.push(f@));
        assert(want.subrange(0, i + 1) =~= want.subrange(0, i as int).push(f@));
        i = i + 1;
    }
    assert(want.subrange(0, a@.len() as int) == want);
    out
}

fn item_record(item: &Json) -> (r: JiangxiItem)
    ensures
        r@ == item_of(item@),
{
    let src = json_at(Some(item), "source");
    JiangxiItem {
        pub_date: json_str(json_at(src, "pubDate")),
        title: json_str(json_at(src, "title")),
        files: file_records(src),
    }
}

/// The records of the Jiangxi API answer `text`: `None` when it is not
/// JSON or holds no array at `/data/results`.
pub fn jiangxi_records(text: &str) -> (r: Option<Vec<JiangxiItem>>)
    ensures
        match r {
            Some(v) => records_spec(json_parse(text@)) == Some(items_view(v@)),
            None => records_spec(json_parse(text@)) is None,
        },
{
    let parsed = parse_json(text);
    let v = match &parsed {
        Some(v) => v,
        None => return None,
    };
    let d = match json_get(v, "data") {
        Some(d) => d,
        None => return None,
    };
    let a = match json_get(d, "results") {
        Some(Json::Arr(a)) => a,
        _ => return None,
    };
    proof {
        lemma_json_views(a@);
    }
    let ghost want = json_views(a@).map_values(|i: JsonView| item_of(i));
    let mut out: Vec<JiangxiItem> = Vec::new();
    let mut i: usize = 0;
    while i < a.len()
        invariant
            i <= a@.len(),
            json_views(a@).len() == a@.len(),
            forall|j: int| 0 <= j < a@.len() ==> #[trigger] json_views(a@)[j] == json_view(a@[j]),
            want == json_views(a@).map_values(|i: JsonView| item_of(i)),
            items_view(out@) == want.subrange(0, i as int),
        decreases a.len() - i,
    {
        let it = item_record(&a[i]);
        let ghost old_v = items_view(out@);
        out.push(it);
        assert(items_view(out@) =~= old_v.push(it@));
        assert(want.subrange(0, i + 1) =~= want.subrange(0, i as int).push(it@));
        i = i + 1;
    }
    assert(want.subrange(0, a@.len() as int) == want);
    Some(out)
}

/// The number of listing pages the Jiangxi API is asked for at most.
pub const JIANGXI_PAGES: u32 = 10;

/// One page of the Jiangxi crawl: the notices of the month in the API
/// answer `text` for page `page`, and whether the crawl stops after it. It
/// stops on an answer that is not JSON or has no records, on an empty page,
/// once a record older than the month was met, and after the last page.
pub open spec fn jiangxi_step_spec(page: u32, parsed: Option<JsonView>, year: i64, month: u32) -> (
    Seq<(Seq<char>, Seq<(Seq<char>, Seq<char>, Seq<char>, Kind)>)>,
    bool,
) {
    match records_spec(parsed) {
        None => (Seq::empty(), true),
        Some(items) => if items.len() == 0 {
            (Seq::empty(), true)
        } else {
            let (notices, past) = jiangxi_fold(items, year, month);
            (notices, past || page >= JIANGXI_PAGES)
        },
    }
}

pub fn jiangxi_step(page: u32, text: &str, year: i64, month: u32) -> (r: (Vec<Notice>, bool))
    ensures
        (notices_view(r.0@), r.1) == jiangxi_step_spec(page, json_parse(text@), year, month),
{
    let items = match jiangxi_records(text) {
        Some(items) => items,
        None => return (Vec::new(), true),
    };
    if items.len() == 0 {
        return (Vec::new(), true);
    }
    let (notices, past) = jiangxi_page(&items, year, month);
    (notices, past || page >= JIANGXI_PAGES)
}

} // verus!
