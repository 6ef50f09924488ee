use inspection_stats::config::{
    month_from_config, ocr_dpi, read_sites, region_of, search_terms, umi_ocr_instances, umi_ocr_url,
};

#[test]
fn regions_by_host() {
    assert_eq!(region_of("https://amr.gd.gov.cn/gkmlpt/index"), Some("广东"));
    assert_eq!(region_of("http://www.zhuhai.gov.cn/x"), Some("珠海"));
    assert_eq!(region_of("http://example.com"), None);
}

#[test]
fn month_setting() {
    assert_eq!(month_from_config("month = \"08\"\n"), Some(8));
    assert_eq!(month_from_config("month=9"), Some(9));
    assert_eq!(month_from_config("search = []"), None);
}

#[test]
fn ocr_settings() {
    assert_eq!(umi_ocr_url(""), "http://127.0.0.1:1224");
    assert_eq!(umi_ocr_url("umi_ocr_url = \"http://10.0.0.2:1224\""), "http://10.0.0.2:1224");
    assert_eq!(umi_ocr_instances("umi_ocr_urls = [\"http://a:1\", 'http://b:2'；]"), vec!["http://a:1".to_string(), "http://b:2".to_string()]);
    assert_eq!(umi_ocr_instances("umi_ocr_url = \"\""), vec!["http://127.0.0.1:1224".to_string()]);
    assert_eq!(umi_ocr_instances("umi_ocr_url = \"http://c\""), vec!["http://c".to_string()]);
    assert_eq!(ocr_dpi("ocr_dpi = 200"), 200);
    assert_eq!(ocr_dpi(""), 150);
}

#[test]
fn search_term_lists() {
    assert_eq!(
        search_terms("search = [\"天地壹号\", \"天晨\"，'巴马世界' ; \"\"]"),
        vec!["天地壹号".to_string(), "天晨".to_string(), "巴马世界".to_string()]
    );
    assert_eq!(search_terms("month = \"08\""), Vec::<String>::new());
    assert_eq!(search_terms("search = [\n  \"a\",\n  \"b\",\n]"), vec!["a".to_string(), "b".to_string()]);
}

#[test]
fn site_lines() {
    let text = "# sites\r\n  https://amr.gd.gov.cn/l  \r\nftp://x\n\nhttp://www.gz.gov.cn/y\n";
    assert_eq!(read_sites(text), vec!["https://amr.gd.gov.cn/l".to_string(), "http://www.gz.gov.cn/y".to_string()]);
}
