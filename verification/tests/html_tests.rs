use inspection_stats::html::{
    absolutize, anchors, classify, date_from_str, ext_of, extract_issue, parse_article,
    scan_date, strip_tags, Kind,
};

const BASE: &str = "http://example.com/a/b/c.html";

#[test]
fn unqualified_wins_over_qualified() {
    assert_eq!(classify("2024年第12期不合格产品信息"), Kind::Unqualified);
    assert_eq!(classify("合格产品信息"), Kind::Keep);
}

#[test]
fn data_markers_and_other_labels() {
    assert_eq!(classify("附件1"), Kind::Mixed);
    assert_eq!(classify("抽检明细"), Kind::Mixed);
    assert_eq!(classify("汇总表.xlsx"), Kind::Mixed);
    assert_eq!(classify("说明"), Kind::Ignore);
    assert_eq!(classify(""), Kind::Ignore);
}

#[test]
fn extension_is_lowercased_and_known() {
    assert_eq!(ext_of("http://a.cn/f/file.PDF?x=1"), "pdf");
    assert_eq!(ext_of("http://a.cn/f/file.docx#p2"), "docx");
    assert_eq!(ext_of("http://a.cn/f/file.txt"), "");
    assert_eq!(ext_of("http://a.cn/f/noext"), "");
    assert_eq!(ext_of("XLSX"), "xlsx");
}

#[test]
fn relative_links_resolve_against_the_page() {
    assert_eq!(absolutize(BASE, "../d.pdf"), "http://example.com/a/d.pdf");
    assert_eq!(absolutize(BASE, "./e.pdf"), "http://example.com/a/b/e.pdf");
    assert_eq!(absolutize(BASE, "f/g.xls"), "http://example.com/a/b/f/g.xls");
    assert_eq!(absolutize(BASE, "../../../h.doc"), "http://example.com/h.doc");
    assert_eq!(absolutize("http://example.com", "x.pdf"), "http://example.com/x.pdf");
}

#[test]
fn rooted_and_protocol_relative_links() {
    assert_eq!(absolutize(BASE, "/x.pdf"), "http://example.com/x.pdf");
    assert_eq!(absolutize("https://example.com/a/", "//cdn.cn/y"), "https://cdn.cn/y");
}

#[test]
fn absolute_links_pass_through() {
    assert_eq!(absolutize(BASE, "  https://z.cn/q.pdf "), "https://z.cn/q.pdf");
    assert_eq!(absolutize(BASE, "http://z.cn/a?x=1&amp;y=2"), "http://z.cn/a?x=1&y=2");
}

#[test]
fn anchors_and_scripts_and_bad_bases_give_nothing() {
    assert_eq!(absolutize(BASE, "#top"), "");
    assert_eq!(absolutize(BASE, "javascript:void(0)"), "");
    assert_eq!(absolutize(BASE, "   "), "");
    assert_eq!(absolutize("no-scheme/page", "x.pdf"), "");
}

#[test]
fn publication_dates() {
    assert_eq!(scan_date("<span>发布时间：2024-08-15</span> 2023-01-01"), (2024, 8, 15));
    assert_eq!(scan_date("<meta name=\"PubDate\" content=\"2024-07-02 10:00\">"), (2024, 7, 2));
    assert_eq!(scan_date("updated 2023-07-01 by x"), (2023, 7, 1));
    assert_eq!(scan_date("no date here 1999-01-01"), (0, 0, 0));
    assert_eq!(date_from_str("2024-08-05 10:00:00"), (2024, 8, 5));
    assert_eq!(date_from_str("2024/08/05"), (0, 0, 0));
}

#[test]
fn issue_labels() {
    assert_eq!(extract_issue("2024年第 12 期食品安全抽检信息", (2024, 8, 1)), "第12期");
    assert_eq!(extract_issue("抽检信息（第3号）", (0, 0, 0)), "第3期");
    assert_eq!(extract_issue("通告20240815", (0, 0, 0)), "20240815");
    assert_eq!(extract_issue("抽检信息", (2024, 8, 5)), "20240805");
    assert_eq!(extract_issue("抽检信息", (0, 0, 0)), "期数未知");
}

#[test]
fn tags_become_spaces() {
    assert_eq!(strip_tags("<b>附件</b>1"), "附件 1");
    assert_eq!(strip_tags("  <span>合格</span>  "), "合格");
}

#[test]
fn anchors_of_a_page() {
    let html = "<p><a href=\"x.pdf\">One</a> <A class=c HREF=\"y.doc\"><b>Two</b></A></p>";
    let a = anchors(html);
    assert_eq!(
        a,
        vec![
            ("x.pdf".to_string(), "One".to_string()),
            ("y.doc".to_string(), "<b>Two</b>".to_string())
        ]
    );
}

#[test]
fn articles_keep_attachment_links() {
    let html = "<html><title> 第5期抽检 </title><body>发布日期: 2024-08-02\n\
        <a href=\"/files/list\">合格</a>\
        <a href=\"doc/result.XLSX\">结果</a>\
        <a href=\"page2.html\">下一页</a>\
        <a href=\"#\">top</a>\
        <a href=\"https://o.cn/attachment/9\"><i>附件</i></a></body></html>";
    let a = parse_article(html, "http://s.cn/news/n1.html");
    assert_eq!(a.title, "第5期抽检");
    assert_eq!(a.date, (2024, 8, 2));
    assert_eq!(
        a.attachments,
        vec![
            ("http://s.cn/files/list".to_string(), "合格".to_string()),
            ("https://o.cn/attachment/9".to_string(), "附件".to_string()),
        ]
    );
}

#[test]
fn relative_links_resolve_against_the_page_directory() {
    assert_eq!(absolutize("http://a.gov.cn/x/y/index.html", "../f/./g.pdf"), "http://a.gov.cn/x/f/g.pdf");
    assert_eq!(absolutize("https://a.gov.cn/index.html", " ../../g.pdf?a=1&amp;b=2 "), "https://a.gov.cn/g.pdf?a=1&b=2");
    assert_eq!(absolutize("http://a.gov.cn", "g.pdf"), "http://a.gov.cn/g.pdf");
}

#[test]
fn extension_ignores_query_and_fragment() {
    assert_eq!(ext_of("http://a/b.PDF?x=1.doc"), "pdf");
    assert_eq!(ext_of("http://a/b.PDF"), "pdf");
    assert_eq!(ext_of("http://a/b.xlsx#p.doc"), "xlsx");
}
