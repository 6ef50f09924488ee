use inspection_stats::log::{file_line, level_style, semantic_emoji, terminal_line};
use inspection_stats::ocr::{clean_markdown, ocr_result, OcrRun, OCR_TIMEOUT_SECS};

#[test]
fn level_styles() {
    assert_eq!(level_style("INFO"), ("\u{2139}\u{FE0F} ", "\x1b[32m"));
    assert_eq!(level_style("ERROR"), ("\u{274C} ", "\x1b[31m"));
    assert_eq!(level_style("DONE"), ("\u{2705} ", "\x1b[1m"));
    assert_eq!(level_style("TRACE"), ("", "\x1b[32m"));
}

#[test]
fn tag_emojis() {
    assert_eq!(semantic_emoji("  [下载] a.pdf"), "\u{1F4E5} ");
    assert_eq!(semantic_emoji("[跳过不合格] x"), "\u{23ED}\u{FE0F} ");
    assert_eq!(semantic_emoji("[OCR] x"), "\u{1F441} ");
    assert_eq!(semantic_emoji("[完成] x"), "");
    assert_eq!(semantic_emoji("no tag"), "");
    assert_eq!(semantic_emoji("[unclosed"), "");
}

#[test]
fn log_lines() {
    assert_eq!(file_line("2024-08-01 10:00:00", "INFO", "hi"), "2024-08-01 10:00:00 [INFO] hi");
    assert_eq!(
        terminal_line("T", "WARN", "[搜索] x", false),
        "T [WARN] [搜索] x"
    );
    assert_eq!(
        terminal_line("T", "INFO", "m", true),
        "\x1b[2mT\x1b[0m \x1b[1m\x1b[32m[\u{2139}\u{FE0F} INFO]\x1b[0m m"
    );
}

#[test]
fn ocr_markdown_is_cleaned() {
    assert_eq!(clean_markdown("<table><tr><td>a|b</td></tr></table>"), "a b");
    assert_eq!(clean_markdown("| 名称 | 天晨 |"), "  名称   天晨  ");
}

#[test]
fn ocr_run_outcomes() {
    let ok = OcrRun::Finished { success: true, stdout: "  <td>天晨</td>|x \n".into(), stderr: String::new() };
    assert_eq!(ocr_result(&ok, OCR_TIMEOUT_SECS), Ok(vec!["天晨  x".to_string()]));
    let empty = OcrRun::Finished { success: true, stdout: "  \n".into(), stderr: String::new() };
    assert_eq!(ocr_result(&empty, 600), Err("mineru-open-api 未返回文本".to_string()));
    let denied = OcrRun::Finished { success: false, stdout: String::new(), stderr: " bad token \n".into() };
    assert_eq!(
        ocr_result(&denied, 600),
        Err("mineru-open-api 失败: bad token（未配置 token？先运行 mineru-open-api auth）".to_string())
    );
    let failed = OcrRun::Finished { success: false, stdout: String::new(), stderr: "boom".into() };
    assert_eq!(ocr_result(&failed, 600), Err("mineru-open-api 失败: boom".to_string()));
    assert_eq!(
        ocr_result(&OcrRun::NotFound, 600),
        Err("未找到 mineru-open-api，请先安装：uv tool install mineru-open-api".to_string())
    );
    assert_eq!(
        ocr_result(&OcrRun::StartFailed("denied".into()), 600),
        Err("mineru-open-api 启动失败: denied".to_string())
    );
    assert_eq!(
        ocr_result(&OcrRun::TimedOut, 600),
        Err("mineru-open-api OCR 超时(>600s)，文件过大或网络慢".to_string())
    );
}
