//! The text of log lines: a plain line for the log file, and a terminal
//! line with level emoji, a tag emoji and, on a terminal, ANSI colours.

use vstd::prelude::*;

use crate::text::{chars_of, same, find, find_exec, push_str, slice_chars, string_of, trim_start, is_ws, is_whitespace};
use crate::time::{format_timestamp, local_reading, local_secs, timestamp_text};

verus! {

pub open spec fn green() -> Seq<char> {
    "\x1b[32m"@
}

pub open spec fn yellow() -> Seq<char> {
    "\x1b[33m"@
}

pub open spec fn red() -> Seq<char> {
    "\x1b[31m"@
}

pub open spec fn cyan() -> Seq<char> {
    "\x1b[36m"@
}

pub open spec fn dim() -> Seq<char> {
    "\x1b[2m"@
}

pub open spec fn bold() -> Seq<char> {
    "\x1b[1m"@
}

pub open spec fn reset() -> Seq<char> {
    "\x1b[0m"@
}

/// The emoji and colour of a level: INFO, WARN, ERROR, DEBUG and DONE have
/// their own; any other level has no emoji and the INFO colour.
pub open spec fn level_style_spec(level: Seq<char>) -> (Seq<char>, Seq<char>) {
    if level == "INFO"@ {
        ("\u{2139}\u{FE0F} "@, green())
    } else if level == "WARN"@ {
        ("\u{26A0}\u{FE0F} "@, yellow())
    } else if level == "ERROR"@ {
        ("\u{274C} "@, red())
    } else if level == "DEBUG"@ {
        ("\u{1F50D} "@, cyan())
    } else if level == "DONE"@ {
        ("\u{2705} "@, bold())
    } else {
        (""@, green())
    }
}

pub fn level_style(level: &str) -> (r: (&'static str, &'static str))
    ensures
        (r.0@, r.1@) == level_style_spec(level@),
{
    if same(level, "INFO") {
        ("\u{2139}\u{FE0F} ", "\x1b[32m")
    } else if same(level, "WARN") {
        ("\u{26A0}\u{FE0F} ", "\x1b[33m")
    } else if same(level, "ERROR") {
        ("\u{274C} ", "\x1b[31m")
    } else if same(level, "DEBUG") {
        ("\u{1F50D} ", "\x1b[36m")
    } else if same(level, "DONE") {
        ("\u{2705} ", "\x1b[1m")
    } else {
        ("", "\x1b[32m")
    }
}

/// The `[tag]` a message starts with (after leading whitespace).
pub open spec fn tag_of(msg: Seq<char>) -> Option<Seq<char>> {
    let t = trim_start(msg);
    if t.len() > 0 && t[0] == '[' {
        match find(t.drop_first(), seq![']']) {
            Some(i) => Some(t.drop_first().take(i)),
            None => None,
        }
    } else {
        None
    }
}

/// The emoji of a message's tag: download, OCR, search and skip tags have
/// one, any other message none.
pub open spec fn semantic_emoji_spec(msg: Seq<char>) -> Seq<char> {
    match tag_of(msg) {
        Some(t) => if t == "下载"@ {
            "\u{1F4E5} "@
        } else if t == "OCR"@ {
            "\u{1F441} "@
        } else if t == "搜索"@ {
            "\u{1F50D} "@
        } else if t == "跳过不合格"@ || t == "跳过"@ {
            "\u{23ED}\u{FE0F} "@
        } else {
            ""@
        },
        None => ""@,
    }
}

fn tag_exec(msg: &str) -> (r: Option<String>)
    ensures
        r.deep_view() == tag_of(msg@),
{
    let m = chars_of(msg);
    let mut i: usize = 0;
    while i < m.len() && is_whitespace(m[i])
        invariant
            i <= m@.len(),
            m@ == msg@,
            forall|k: int| 0 <= k < i ==> is_ws(m@[k]),
        decreases m.len() - i,
    {
        i = i + 1;
    }
    proof {
        crate::text::lemma_trim_start_skip(m@, i as int);
    }
    let ml = m.len();
    let t = slice_chars(m.as_slice(), i, ml);
    assert(trim_start(t@) == t@);
    if t.len() > 0 && t[0] == '[' {
        let tl = t.len();
        let rest = slice_chars(t.as_slice(), 1, tl);
        assert(rest@ == t@.drop_first());
        let mut close: Vec<char> = Vec::new();
        close.push(']');
        match find_exec(rest.as_slice(), close.as_slice()) {
            Some(j) => {
                proof {
                    crate::text::lemma_find_contains(rest@, close@);
                }
                Some(string_of(slice_chars(rest.as_slice(), 0, j).as_slice()))
            },
            None => None,
        }
    } else {
        None
    }
}

pub fn semantic_emoji(msg: &str) -> (r: &'static str)
    ensures
        r@ == semantic_emoji_spec(msg@),
{
    match tag_exec(msg) {
        Some(t) => {
            if same(t.as_str(), "下载") {
                "\u{1F4E5} "
            } else if same(t.as_str(), "OCR") {
                "\u{1F441} "
            } else if same(t.as_str(), "搜索") {
                "\u{1F50D} "
            } else if same(t.as_str(), "跳过不合格") || same(t.as_str(), "跳过") {
                "\u{23ED}\u{FE0F} "
            } else {
                ""
            }
        },
        None => "",
    }
}

/// The line written to the log file: `{ts} [{level}] {msg}`.
pub open spec fn file_line_spec(ts: Seq<char>, level: Seq<char>, msg: Seq<char>) -> Seq<char> {
    ts + " ["@ + level + "] "@ + msg
}

pub fn file_line(ts: &str, level: &str, msg: &str) -> (r: String)
    ensures
        r@ == file_line_spec(ts@, level@, msg@),
{
    let mut out: Vec<char> = Vec::new();
    push_str(&mut out, ts);
    push_str(&mut out, " [");
    push_str(&mut out, level);
    push_str(&mut out, "] ");
    push_str(&mut out, msg);
    string_of(out.as_slice())
}

/// The line shown on the console: on a terminal, with dim timestamp, bold
/// coloured level, resets and the emojis; otherwise plain text, the same
/// line as in the log file.
pub open spec fn terminal_line_spec(ts: Seq<char>, level: Seq<char>, msg: Seq<char>, tty: bool) -> Seq<
    char,
> {
    let (emoji, color) = level_style_spec(level);
    let sem = semantic_emoji_spec(msg);
    if tty {
        dim() + ts + reset() + " "@ + bold() + color + "["@ + emoji + level + "]"@ + reset() + " "@
            + sem + msg
    } else {
        file_line_spec(ts, level, msg)
    }
}

pub fn terminal_line(ts: &str, level: &str, msg: &str, tty: bool) -> (r: String)
    ensures
        r@ == terminal_line_spec(ts@, level@, msg@, tty),
{
    if !tty {
        return file_line(ts, level, msg);
    }
    let (emoji, color) = level_style(level);
    let sem = semantic_emoji(msg);
    let mut out: Vec<char> = Vec::new();
    push_str(&mut out, "\x1b[2m");
    push_str(&mut out, ts);
    push_str(&mut out, "\x1b[0m");
    push_str(&mut out, " ");
    push_str(&mut out, "\x1b[1m");
    push_str(&mut out, color);
    push_str(&mut out, "[");
    push_str(&mut out, emoji);
    push_str(&mut out, level);
    push_str(&mut out, "]");
    push_str(&mut out, "\x1b[0m");
    push_str(&mut out, " ");
    push_str(&mut out, sem);
    push_str(&mut out, msg);
    string_of(out.as_slice())
}

/// The current local time as `YYYY-MM-DD HH:MM:SS`: the local time of some
/// reading of the system clock.
pub fn timestamp() -> (r: String)
    ensures
        exists|epoch: Option<u64>| r@ == timestamp_text(#[trigger] local_reading(epoch)),
{
    let secs = local_secs();
    let r = format_timestamp(secs);
    let ghost epoch = choose|epoch: Option<u64>| secs == #[trigger] local_reading(epoch);
    assert(r@ == timestamp_text(local_reading(epoch)));
    r
}

} // verus!
