//! Clean-up of the Markdown that the OCR service returns for scanned PDFs.

use vstd::prelude::*;

use crate::html::{strip_tags, strip_tags_spec};
use crate::search::result_view;
use crate::text::{
    chars_of, contains, contains_exec, decimal, push_all, push_decimal, push_str, replace, replace_exec,
    string_of, trim, trim_exec,
};

verus! {

/// OCR Markdown made readable: tags (tables arrive as inline HTML) become
/// spaces and the result is trimmed, then table bars `|` become spaces.
pub open spec fn clean_markdown_spec(s: Seq<char>) -> Seq<char> {
    replace(strip_tags_spec(s), seq!['|'], seq![' '])
}

pub fn clean_markdown(s: &str) -> (r: String)
    ensures
        r@ == clean_markdown_spec(s@),
{
    let t = strip_tags(s);
    let mut bar: Vec<char> = Vec::new();
    bar.push('|');
    let mut sp: Vec<char> = Vec::new();
    sp.push(' ');
    string_of(replace_exec(chars_of(t.as_str()).as_slice(), bar.as_slice(), sp.as_slice()).as_slice())
}

/// Seconds the OCR command is given for one PDF.
pub const OCR_TIMEOUT_SECS: u64 = 600;

/// How a run of the OCR command ended.
pub enum OcrRun {
    /// The command ran: whether it succeeded, and its output and error
    /// text.
    Finished { success: bool, stdout: String, stderr: String },
    /// The command is not installed.
    NotFound,
    /// The command could not be started, with the reason.
    StartFailed(String),
    /// No answer within the time limit.
    TimedOut,
}

/// The hint added to a failure whose error text speaks of the token.
pub open spec fn token_hint(err: Seq<char>) -> Seq<char> {
    if contains(err, "token"@) || contains(err, "auth"@) {
        "（未配置 token？先运行 mineru-open-api auth）"@
    } else {
        Seq::empty()
    }
}

/// The pages OCR gives for a PDF: on success, the cleaned Markdown of the
/// trimmed output as one page, or an error when nothing is left of it;
/// otherwise the message for the way the run ended.
pub open spec fn ocr_result_spec(run: OcrRun, timeout_secs: u64) -> Result<Seq<Seq<char>>, Seq<char>> {
    match run {
        OcrRun::Finished { success, stdout, stderr } => if success {
            let text = clean_markdown_spec(trim(stdout@));
            if text.len() == 0 {
                Err("mineru-open-api 未返回文本"@)
            } else {
                Ok(seq![text])
            }
        } else {
            Err("mineru-open-api 失败: "@ + trim(stderr@) + token_hint(stderr@))
        },
        OcrRun::NotFound => Err("未找到 mineru-open-api，请先安装：uv tool install mineru-open-api"@),
        OcrRun::StartFailed(e) => Err("mineru-open-api 启动失败: "@ + e@),
        OcrRun::TimedOut => Err(
            "mineru-open-api OCR 超时(>"@ + decimal(timeout_secs as nat) + "s)，文件过大或网络慢"@,
        ),
    }
}

/// The outcome of an OCR run that was given `timeout_secs` seconds.
pub fn ocr_result(run: &OcrRun, timeout_secs: u64) -> (r: Result<Vec<String>, String>)
    ensures
        result_view(r) == ocr_result_spec(*run, timeout_secs),
{
    match run {
        OcrRun::Finished { success, stdout, stderr } => {
            if *success {
                let t = string_of(trim_exec(chars_of(stdout.as_str()).as_slice()).as_slice());
                let text = clean_markdown(t.as_str());
                if chars_of(text.as_str()).len() == 0 {
                    Err("mineru-open-api 未返回文本".to_owned())
                } else {
                    let mut v: Vec<String> = Vec::new();
                    v.push(text);
                    assert(v.deep_view() =~= seq![v[0]@]);
                    Ok(v)
                }
            } else {
                let e = chars_of(stderr.as_str());
                let mut out: Vec<char> = Vec::new();
                push_str(&mut out, "mineru-open-api 失败: ");
                push_all(&mut out, trim_exec(e.as_slice()).as_slice());
                if contains_exec(e.as_slice(), chars_of("token").as_slice()) || contains_exec(
                    e.as_slice(),
                    chars_of("auth").as_slice(),
                ) {
                    push_str(&mut out, "（未配置 token？先运行 mineru-open-api auth）");
                }
                Err(string_of(out.as_slice()))
            }
        },
        OcrRun::NotFound => Err("未找到 mineru-open-api，请先安装：uv tool install mineru-open-api".to_owned()),
        OcrRun::StartFailed(e) => {
            let mut out: Vec<char> = Vec::new();
            push_str(&mut out, "mineru-open-api 启动失败: ");
            push_str(&mut out, e.as_str());
            Err(string_of(out.as_slice()))
        },
        OcrRun::TimedOut => {
            let mut out: Vec<char> = Vec::new();
            push_str(&mut out, "mineru-open-api OCR 超时(>");
            push_decimal(&mut out, timeout_secs);
            push_str(&mut out, "s)，文件过大或网络慢");
            Err(string_of(out.as_slice()))
        },
    }
}

} // verus!
