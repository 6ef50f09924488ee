use inspection_stats::crawl::{
    article_matches, dated_links, is_downloaded, jiangxi_api, jiangxi_body, jiangxi_page,
    jiangxi_records, jiangxi_step, plan_attachments, sanitize, stored_file_name, strategy_of,
    trs_links, JiangxiFile, JiangxiItem, Strategy, JIANGXI_PAGES,
};
use inspection_stats::html::Kind;

#[test]
fn layouts_by_host() {
    assert_eq!(strategy_of("http://amr.jiangxi.gov.cn/col/x.html"), Strategy::Jiangxi);
    assert_eq!(strategy_of("https://amr.hunan.gov.cn/list.html"), Strategy::DatePath);
    assert_eq!(strategy_of("https://scjgj.fujian.gov.cn/l/"), Strategy::DatePath);
    assert_eq!(strategy_of("https://amr.gd.gov.cn/l/"), Strategy::Trs);
}

#[test]
fn month_match() {
    assert!(article_matches(2024, 8, 2024, 8));
    assert!(!article_matches(2024, 7, 2024, 8));
    assert!(!article_matches(2023, 8, 2024, 8));
}

#[test]
fn labels_become_safe_names() {
    assert_eq!(sanitize("a/b:c?.pdf"), "abc.pdf");
    assert_eq!(sanitize(" \"合格\"<>| \u{7} "), "合格");
    assert_eq!(sanitize("  "), "文件");
    assert_eq!(sanitize("///"), "文件");
}

#[test]
fn copies_are_numbered() {
    assert_eq!(stored_file_name("广东", "第12期", "pdf", 1), "广东-第12期.pdf");
    assert_eq!(stored_file_name("广东", "第12期", "pdf", 2), "广东-第12期-2.pdf");
    assert_eq!(stored_file_name("浙江", "20260729", "xlsx", 1), "浙江-20260729.xlsx");
    assert_eq!(stored_file_name("广东", "x", "pdf", 10), "广东-x-10.pdf");
}

#[test]
fn distinct_copies_have_distinct_names() {
    let mut seen = std::collections::HashSet::new();
    for n in 1..200u64 {
        assert!(seen.insert(stored_file_name("湖南", "期数未知", "xlsx", n)));
    }
}

#[test]
fn attachments_are_planned() {
    let atts = vec![
        ("http://a/x.pdf".to_string(), "合格产品".to_string()),
        ("http://a/y.txt".to_string(), "合格".to_string()),
        ("http://a/z.XLS".to_string(), "不合格产品".to_string()),
        ("http://a/w.doc".to_string(), "说明".to_string()),
    ];
    let p = plan_attachments(&atts);
    let got: Vec<(String, String, String, Kind)> =
        p.into_iter().map(|p| (p.url, p.label, p.ext, p.kind)).collect();
    assert_eq!(
        got,
        vec![
            ("http://a/x.pdf".to_string(), "合格产品".to_string(), "pdf".to_string(), Kind::Keep),
            ("http://a/z.XLS".to_string(), "不合格产品".to_string(), "xls".to_string(), Kind::Unqualified),
            ("http://a/w.doc".to_string(), "说明".to_string(), "doc".to_string(), Kind::Ignore),
        ]
    );
}

#[test]
fn dated_listing_links() {
    let hrefs = vec![
        "/art/2024/202408/t1.html".to_string(),
        "/art/2024/202407/t2.html".to_string(),
        "/art/2024/202408/t1.html".to_string(),
        "other202408.html".to_string(),
    ];
    let l = dated_links("https://amr.hunan.gov.cn/list/index.html", &hrefs, 2024, 8);
    assert_eq!(
        l,
        vec![
            "https://amr.hunan.gov.cn/art/2024/202408/t1.html".to_string(),
            "https://amr.hunan.gov.cn/list/other202408.html".to_string(),
        ]
    );
}

#[test]
fn trs_listing_links() {
    let hrefs = vec![
        "post_123.html".to_string(),
        "/a/content_9.html".to_string(),
        "/b/202408/t20240801_55.html".to_string(),
        "/c/202408/x.html".to_string(),
        "/d/index.html".to_string(),
        "post_123.html".to_string(),
        "#".to_string(),
    ];
    let l = trs_links("http://amr.gd.gov.cn/gkmlpt/index", &hrefs, 2024, 8);
    assert_eq!(
        l,
        vec![
            "http://amr.gd.gov.cn/gkmlpt/post_123.html".to_string(),
            "http://amr.gd.gov.cn/a/content_9.html".to_string(),
            "http://amr.gd.gov.cn/b/202408/t20240801_55.html".to_string(),
            "http://amr.gd.gov.cn/c/202408/x.html".to_string(),
        ]
    );
}

#[test]
fn trs_listing_keeps_at_most_sixty() {
    let hrefs: Vec<String> = (0..100).map(|i| format!("post_{i}.html")).collect();
    let l = trs_links("http://x.cn/l/", &hrefs, 2024, 8);
    assert_eq!(l.len(), 60);
    assert_eq!(l[59], "http://x.cn/l/post_59.html");
}

#[test]
fn jiangxi_endpoint_and_form() {
    assert_eq!(jiangxi_api("https://amr.jiangxi.gov.cn/col/col1/index.html").as_deref(), Some("https://amr.jiangxi.gov.cn/queryList"));
    assert_eq!(jiangxi_api("http://host"), Some("http://host/queryList".to_string()));
    assert_eq!(jiangxi_api("host/only"), None);
    assert_eq!(
        jiangxi_body(3),
        "current=3&unitid=368486&webSiteCode=amr&channelCode=spcjxx&perPage=20&titleMax=34"
    );
}

fn item(date: &str, title: &str, files: Vec<(&str, &str, &str)>) -> JiangxiItem {
    JiangxiItem {
        pub_date: date.to_string(),
        title: title.to_string(),
        files: files
            .into_iter()
            .map(|(n, d, p)| JiangxiFile { file_name: n.to_string(), domain_name: d.to_string(), file_path: p.to_string() })
            .collect(),
    }
}

#[test]
fn jiangxi_page_stops_at_an_older_month() {
    let items = vec![
        item("2024-09-01", "第9期", vec![("合格.xls", "http://j.cn", "/f/a.xls")]),
        item("", "无日期", vec![]),
        item("2024-08-20 10:00", "第8期", vec![("合格.xls", "http://j.cn", "/f/b.xls"), ("说明.txt", "http://j.cn", "/f/c.txt")]),
        item("2024-07-30", "第7期", vec![("合格.xls", "http://j.cn", "/f/d.xls")]),
        item("2024-08-01", "第6期", vec![("合格.xls", "http://j.cn", "/f/e.xls")]),
    ];
    let (notices, past) = jiangxi_page(&items, 2024, 8);
    assert!(past);
    assert_eq!(notices.len(), 1);
    assert_eq!(notices[0].issue, "第8期");
    assert_eq!(notices[0].planned.len(), 1);
    assert_eq!(notices[0].planned[0].url, "http://j.cn/f/b.xls");
    assert_eq!(notices[0].planned[0].kind, Kind::Keep);
}

#[test]
fn jiangxi_page_without_older_records_goes_on() {
    let items = vec![item("2024-08-03", "抽检", vec![("明细.pdf", "http://j.cn", "/p.pdf")])];
    let (notices, past) = jiangxi_page(&items, 2024, 8);
    assert!(!past);
    assert_eq!(notices[0].issue, "20240803");
    assert_eq!(notices[0].planned[0].kind, Kind::Mixed);
}

#[test]
fn only_qualified_and_combined_files_are_downloaded() {
    assert!(is_downloaded(Kind::Keep));
    assert!(is_downloaded(Kind::Mixed));
    assert!(!is_downloaded(Kind::Unqualified));
    assert!(!is_downloaded(Kind::Ignore));
}

const API_PAGE: &str = r#"{"data":{"results":[
  {"source":{"pubDate":"2024-08-20 10:00:00","title":"食品抽检信息（2024年第5期）",
    "articleFiles":"[{\"fileName\":\"合格产品信息.xlsx\",\"domainName\":\"http://amr.jiangxi.gov.cn\",\"filePath\":\"/a/b.xlsx\"}]"}},
  {"source":{"pubDate":"2024-08-02","title":"无附件"}},
  {"other":1},
  {"source":{"pubDate":"2024-07-30","title":"上月"}}
]}}"#;

#[test]
fn jiangxi_records_are_read_from_json() {
    let items = jiangxi_records(API_PAGE).unwrap();
    assert_eq!(items.len(), 4);
    assert_eq!(items[0].pub_date, "2024-08-20 10:00:00");
    assert_eq!(items[0].title, "食品抽检信息（2024年第5期）");
    assert_eq!(items[0].files.len(), 1);
    assert_eq!(items[0].files[0].file_name, "合格产品信息.xlsx");
    assert_eq!(items[0].files[0].domain_name, "http://amr.jiangxi.gov.cn");
    assert_eq!(items[0].files[0].file_path, "/a/b.xlsx");
    assert_eq!(items[1].files.len(), 0);
    assert_eq!(items[2].pub_date, "");
    assert_eq!(items[2].title, "");
    assert!(jiangxi_records("not json").is_none());
    assert!(jiangxi_records(r#"{"data":{}}"#).is_none());
    assert!(jiangxi_records(r#"{"data":{"results":{}}}"#).is_none());
    assert_eq!(jiangxi_records(r#"{"data":{"results":[]}}"#).unwrap().len(), 0);
}

#[test]
fn jiangxi_step_stops_where_the_crawl_stops() {
    let (notices, stop) = jiangxi_step(1, API_PAGE, 2024, 8);
    assert!(stop);
    assert_eq!(notices.len(), 2);
    assert_eq!(notices[0].planned.len(), 1);
    assert_eq!(notices[0].planned[0].url, "http://amr.jiangxi.gov.cn/a/b.xlsx");
    let (notices, stop) = jiangxi_step(1, "oops", 2024, 8);
    assert!(stop && notices.is_empty());
    let (_, stop) = jiangxi_step(1, r#"{"data":{"results":[]}}"#, 2024, 8);
    assert!(stop);
    let page = r#"{"data":{"results":[{"source":{"pubDate":"2024-08-01","title":"t"}}]}}"#;
    assert!(!jiangxi_step(3, page, 2024, 8).1);
    assert!(jiangxi_step(JIANGXI_PAGES, page, 2024, 8).1);
}
