use std::io::Write;

use inspection_stats::archive::XmlEvent;
use inspection_stats::docbin::doc_blocks;
use inspection_stats::search::{
    count_term, doc_text, docx_paragraphs, kind_of, needs_ocr, ocr_outcome, paragraphs, pdf_content,
    table_content, word_content,
    pdf_text_sparse, run, scan_file, sheet_rows, snippet, utc_timestamp, Extracted, FileKind,
    ScannedFile,
};

#[test]
fn snippet_ignores_spaces_and_case() {
    assert_eq!(snippet("天 地 壹 号 饮料", "天地壹号").as_deref(), Some("“…天地壹号饮料…”"));
    assert_eq!(snippet("Brand TIANCHEN water", "tian chen").as_deref(), Some("“…BrandTIANCHENwater…”"));
    assert_eq!(snippet("无关内容", "天晨"), None);
}

#[test]
fn snippet_window_is_cut_and_shortened() {
    let text: String = "甲".repeat(30) + "目标" + &"乙".repeat(30);
    let s = snippet(&text, "目标").unwrap();
    let want = String::from("“…") + &"甲".repeat(15) + "目标" + &"乙".repeat(20) + "…”";
    assert_eq!(s, want);
    let long_term: String = "丙".repeat(70);
    let s = snippet(&long_term, &long_term).unwrap();
    let want = String::from("“…") + &"丙".repeat(60) + "…" + "…”";
    assert_eq!(s, want);
}

#[test]
fn snippet_is_the_same_with_more_whitespace() {
    assert_eq!(snippet("a b\tc 天地壹号 d", "天地壹号"), snippet("abc天地壹号d", "天地壹号"));
}

#[test]
fn sparse_text_means_scanned() {
    assert!(pdf_text_sparse(&[]));
    assert!(pdf_text_sparse(&["  a b ".to_string(), "x".repeat(46)]));
    assert!(!pdf_text_sparse(&["  a b ".to_string(), "x".repeat(48)]));
}

fn names(r: &[inspection_stats::search::Hit]) -> Vec<(String, String, String, String)> {
    r.iter().map(|h| (h.file.clone(), h.term.clone(), h.loc.clone(), h.snippet.clone())).collect()
}

#[test]
fn hits_are_located_per_kind() {
    let terms = vec!["天晨".to_string(), "巴马".to_string()];
    let pages = Extracted::Pages(vec!["无".into(), "天晨矿泉水".into(), "巴马".into()]);
    let (ok, hits) = scan_file("f.pdf", &terms, &pages);
    assert!(ok);
    assert_eq!(
        names(&hits),
        vec![
            ("f.pdf".into(), "天晨".into(), "第2页".into(), "“…天晨矿泉水…”".into()),
            ("f.pdf".into(), "巴马".into(), "第3页".into(), "“…巴马…”".into()),
        ]
    );
    let rows = Extracted::Rows(vec![("Sheet1".into(), 7, "天晨 1 2".into())]);
    let (_, hits) = scan_file("t.xls", &terms, &rows);
    assert_eq!(hits[0].loc, "第7行 (工作表: Sheet1)");
    let paras = Extracted::Paragraphs(vec!["巴马".into()]);
    assert_eq!(scan_file("d.docx", &terms, &paras).1[0].loc, "第1段");
    assert_eq!(scan_file("d.doc", &terms, &Extracted::FullText("天晨".into())).1[0].loc, "全文");
    assert_eq!(scan_file("d.txt", &terms, &Extracted::Plain("天晨".into())).1[0].loc, "文本");
    let (ok, hits) = scan_file("x.pdf", &terms, &Extracted::Failed);
    assert!(!ok && hits.is_empty());
}

#[test]
fn a_run_reports_hits_and_unreadable_files() {
    let terms = vec!["天晨".to_string()];
    let files = vec![
        ScannedFile { path: "2024-08/a.pdf".into(), name: "a.pdf".into(), content: Extracted::Pages(vec!["天晨".into()]) },
        ScannedFile { path: "2024-08/b.pdf".into(), name: "b.pdf".into(), content: Extracted::Failed },
        ScannedFile { path: "2024-08/c.txt".into(), name: "c.txt".into(), content: Extracted::Plain("天晨 天晨".into()) },
    ];
    let r = run(&terms, &files);
    assert_eq!(r.scanned_ok, 2);
    assert_eq!(r.unparsed, vec!["2024-08/b.pdf".to_string()]);
    assert_eq!(r.hits.len(), 2);
    assert_eq!(r.hits[1].file, "c.txt");
    assert_eq!(count_term(&r.hits, "天晨"), 2);
    assert_eq!(count_term(&r.hits, "巴马"), 0);
}

fn docx(xml: &str) -> Vec<u8> {
    let mut w = zip::ZipWriter::new(std::io::Cursor::new(Vec::new()));
    let opts = zip::write::SimpleFileOptions::default().compression_method(zip::CompressionMethod::Stored);
    w.start_file("word/document.xml", opts).unwrap();
    w.write_all(xml.as_bytes()).unwrap();
    w.finish().unwrap().into_inner()
}

fn xlsx() -> Vec<u8> {
    let mut w = zip::ZipWriter::new(std::io::Cursor::new(Vec::new()));
    let opts = zip::write::SimpleFileOptions::default().compression_method(zip::CompressionMethod::Stored);
    w.start_file("[Content_Types].xml", opts).unwrap();
    w.write_all(b"<x/>").unwrap();
    w.start_file("xl/workbook.xml", opts).unwrap();
    w.write_all(b"<workbook/>").unwrap();
    w.finish().unwrap().into_inner()
}

#[test]
fn kinds_by_magic_bytes() {
    assert_eq!(kind_of(b"%PDF-1.7 ...", "pdf"), FileKind::Pdf);
    assert_eq!(kind_of(&docx("<w:document/>"), "docx"), FileKind::Docx);
    assert_eq!(kind_of(&xlsx(), "xlsx"), FileKind::Table);
    assert_eq!(kind_of(b"PK\x03\x04broken", "zip"), FileKind::Other);
    let ole = [0xD0, 0xCF, 0x11, 0xE0, 0xA1, 0xB1, 0x1A, 0xE1, 0, 0];
    assert_eq!(kind_of(&ole, "XLS"), FileKind::Table);
    assert_eq!(kind_of(&ole, "et"), FileKind::Table);
    assert_eq!(kind_of(&ole, "doc"), FileKind::OleProbe);
    assert_eq!(kind_of(b"hello", "txt"), FileKind::Other);
}

#[test]
fn docx_paragraphs_are_read() {
    let xml = "<?xml version=\"1.0\"?><w:document xmlns:w=\"x\"><w:body>\
        <w:p><w:r><w:t>天晨</w:t></w:r><w:r><w:t>矿泉水 &amp; 饮料</w:t></w:r></w:p>\
        <w:p><w:r><w:t>   </w:t></w:r></w:p>\
        <w:p><w:r><w:t><![CDATA[巴马]]></w:t></w:r></w:p>\
        </w:body></w:document>";
    let p = docx_paragraphs(&docx(xml)).unwrap();
    assert_eq!(p, vec!["天晨矿泉水 & 饮料".to_string(), "巴马".to_string()]);
    assert!(docx_paragraphs(b"not a zip").is_err());
}

#[test]
fn paragraphs_from_events() {
    let evs = vec![
        XmlEvent::Start(b"p".to_vec()),
        XmlEvent::Text(Ok(" a ".into())),
        XmlEvent::CData(vec![0xFF]),
        XmlEvent::End(b"p".to_vec()),
        XmlEvent::Text(Err("ignored outside a paragraph".into())),
        XmlEvent::Eof,
        XmlEvent::Error("after the end".into()),
    ];
    assert_eq!(paragraphs(&evs), Ok(vec!["a".to_string()]));
    let bad = vec![XmlEvent::Start(b"p".to_vec()), XmlEvent::Text(Err("bad entity".into()))];
    assert_eq!(paragraphs(&bad), Err("bad entity".to_string()));
}

#[test]
fn legacy_documents_in_compound_files() {
    let mut cf = cfb::CompoundFile::create(std::io::Cursor::new(Vec::new())).unwrap();
    {
        let mut s = cf.create_stream("WordDocument").unwrap();
        let text: Vec<u8> = "\u{1}丁七万丈三上下\u{1}".encode_utf16().flat_map(|u| u.to_le_bytes()).collect();
        s.write_all(&text).unwrap();
    }
    cf.flush().unwrap();
    let bytes = cf.into_inner().into_inner();
    assert_eq!(doc_blocks(&bytes), Some(vec!["丁七万丈三上下".to_string()]));
    assert_eq!(doc_text(&bytes), Some("丁七万丈三上下".to_string()));
}

#[test]
fn sheet_rows_skip_blank_rows() {
    let rows = vec![
        vec!["名称".to_string(), "天晨".to_string()],
        vec!["".to_string(), " ".to_string()],
        vec!["1".to_string()],
    ];
    assert_eq!(
        sheet_rows("S", &rows),
        vec![("S".to_string(), 1, "名称 天晨".to_string()), ("S".to_string(), 3, "1".to_string())]
    );
}

#[test]
fn ocr_decisions() {
    let dense = Ok(vec!["x".repeat(60)]);
    let sparse = Ok(vec!["x".to_string()]);
    let failed: Result<Vec<String>, String> = Err("bad".into());
    assert!(needs_ocr(None, &sparse));
    assert!(!needs_ocr(None, &dense));
    assert!(needs_ocr(Some(true), &dense));
    assert!(needs_ocr(Some(false), &sparse));
    assert!(!needs_ocr(Some(false), &dense));
    assert!(needs_ocr(Some(false), &failed));
    assert!(ocr_outcome(true, Ok(vec!["y".into()])).is_err());
    assert_eq!(ocr_outcome(false, Ok(vec!["y".into()])), Ok(vec!["y".to_string()]));
    assert_eq!(ocr_outcome(true, Err("e".into())), Err("e".to_string()));
}

#[test]
fn result_stamps_are_utc() {
    assert_eq!(utc_timestamp(0), "1970-01-01 00:00:00");
    assert_eq!(utc_timestamp(951_782_400), "2000-02-29 00:00:00");
}

#[test]
fn malformed_docx_xml_is_an_error() {
    assert!(docx_paragraphs(&docx("<w:document><w:p><w:t>甲</w:t></w:q></w:document>")).is_err());
    assert_eq!(docx_paragraphs(&docx("<w:document></w:document>")).unwrap(), Vec::<String>::new());
}

#[test]
fn ocr_text_is_one_full_text() {
    let pages = vec!["第一页".to_string(), "第二页".to_string()];
    match pdf_content(Ok(pages.clone()), true) {
        Extracted::FullText(t) => assert_eq!(t, "第一页\n第二页"),
        _ => panic!("expected full text"),
    }
    match pdf_content(Ok(pages.clone()), false) {
        Extracted::Pages(p) => assert_eq!(p, pages),
        _ => panic!("expected pages"),
    }
    assert!(matches!(pdf_content(Err("x".into()), false), Extracted::Failed));
}

#[test]
fn workbook_rows_or_legacy_text() {
    let rows = vec![("Sheet1".to_string(), 2usize, "天晨".to_string())];
    match table_content(Some(rows.clone()), b"") {
        Extracted::Rows(r) => assert_eq!(r, rows),
        _ => panic!("expected rows"),
    }
    assert!(matches!(table_content(None, b"PK\x03\x04zip"), Extracted::Failed));
}

#[test]
fn a_text_pdf_with_sparse_text_goes_to_ocr() {
    let sparse: Result<Vec<String>, String> = Ok(vec!["几个字".to_string()]);
    assert!(needs_ocr(Some(false), &sparse));
}

#[test]
fn word_pages_come_first() {
    let pages = vec!["第一页".to_string()];
    match word_content(Some(pages.clone()), Extracted::Paragraphs(vec!["段".to_string()])) {
        Extracted::Pages(p) => assert_eq!(p, pages),
        _ => panic!("expected pages"),
    }
    match word_content(None, Extracted::Paragraphs(vec!["段".to_string()])) {
        Extracted::Paragraphs(p) => assert_eq!(p, vec!["段".to_string()]),
        _ => panic!("expected paragraphs"),
    }
}
