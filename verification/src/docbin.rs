//! Text of legacy binary documents (`.doc`, native WPS `.xls`): the text
//! streams of the OLE container, or the whole file, are decoded three ways
//! (GB18030, UTF-16LE at even and at odd offsets); the decoding with the
//! most long runs of text wins, and overlapping or repeated blocks are
//! dropped.

use vstd::prelude::*;

use crate::archive::{ole_has_stream, ole_is_stream, ole_read_stream, ole_stream};
use crate::codec::{char_from_u32, decode_gb18030, gb18030_decode, is_scalar};
use crate::text::{chars_of, is_ws, is_whitespace, string_of, trim, trim_end, trim_exec, trim_start};

verus! {

/// A block of text with the byte range it was decoded from.
pub type Block = (usize, usize, String);

pub type BlockView = (usize, usize, Seq<char>);

/// Characters that can belong to a block of text: printable ASCII, CJK
/// ideographs, CJK punctuation, full-width forms and general punctuation.
pub open spec fn texty(c: char) -> bool {
    let u = c as u32;
    ||| 0x20 <= u <= 0x7E
    ||| 0x4E00 <= u <= 0x9FFF
    ||| 0x3000 <= u <= 0x303F
    ||| 0xFF00 <= u <= 0xFFEF
    ||| 0x2000 <= u <= 0x206F
}

/// CJK ideographs (the unified block and extension A).
pub open spec fn cjk(c: char) -> bool {
    let u = c as u32;
    (0x4E00 <= u <= 0x9FFF) || (0x3400 <= u <= 0x4DBF)
}

pub fn is_texty(c: char) -> (r: bool)
    ensures
        r == texty(c),
{
    let u = c as u32;
    (0x20 <= u && u <= 0x7E) || (0x4E00 <= u && u <= 0x9FFF) || (0x3000 <= u && u <= 0x303F) || (
    0xFF00 <= u && u <= 0xFFEF) || (0x2000 <= u && u <= 0x206F)
}

pub fn is_cjk(c: char) -> (r: bool)
    ensures
        r == cjk(c),
{
    let u = c as u32;
    (0x4E00 <= u && u <= 0x9FFF) || (0x3400 <= u && u <= 0x4DBF)
}

/// The number of CJK ideographs in `s`.
pub open spec fn cjk_count(s: Seq<char>) -> nat {
    s.filter(|c: char| cjk(c)).len()
}

pub open spec fn has_cjk(s: Seq<char>) -> bool {
    exists|i: int| 0 <= i < s.len() && cjk(s[i])
}

/// Shortest run of text kept as a block.
pub const MIN_BLOCK: usize = 2;

/// The blocks found so far, the current run of text, and where it started.
pub open spec fn flush(
    blocks: Seq<BlockView>,
    cur: Seq<char>,
    start: int,
    base: int,
    stride: int,
) -> Seq<BlockView> {
    if cur.len() >= MIN_BLOCK && has_cjk(cur) {
        let b = base + start * stride;
        blocks.push((b as usize, (b + cur.len() * stride) as usize, trim(cur)))
    } else {
        blocks
    }
}

/// The state after reading the characters `s`: finished blocks, current
/// run, and the index where the run began.
pub open spec fn scan_state(s: Seq<char>, base: int, stride: int) -> (Seq<BlockView>, Seq<char>, int)
    decreases s.len(),
{
    if s.len() == 0 {
        (Seq::empty(), Seq::empty(), 0)
    } else {
        let st = scan_state(s.drop_last(), base, stride);
        let i = s.len() - 1;
        if texty(s.last()) {
            (st.0, st.1.push(s.last()), if st.1.len() == 0 {
                i
            } else {
                st.2
            })
        } else {
            (flush(st.0, st.1, st.2, base, stride), Seq::empty(), st.2)
        }
    }
}

/// The blocks of `s`: maximal runs of text characters of at least
/// `MIN_BLOCK` characters holding an ideograph, trimmed, each with the
/// byte range `base + index * stride` it covers.
pub open spec fn collect_spec(s: Seq<char>, base: int, stride: int) -> Seq<BlockView> {
    let st = scan_state(s, base, stride);
    flush(st.0, st.1, st.2, base, stride)
}

/// The total length of the texts of some blocks.
pub open spec fn text_chars(v: Seq<BlockView>) -> nat
    decreases v.len(),
{
    if v.len() == 0 {
        0
    } else {
        text_chars(v.drop_last()) + v.last().2.len()
    }
}

pub proof fn lemma_trim_len(s: Seq<char>)
    ensures
        trim(s).len() <= s.len(),
{
    lemma_trim_start_len(s);
    lemma_trim_end_len(trim_start(s));
}

proof fn lemma_trim_start_len(s: Seq<char>)
    ensures
        trim_start(s).len() <= s.len(),
    decreases s.len(),
{
    if s.len() > 0 && is_ws(s[0]) {
        lemma_trim_start_len(s.drop_first());
    }
}

proof fn lemma_trim_end_len(s: Seq<char>)
    ensures
        trim_end(s).len() <= s.len(),
    decreases s.len(),
{
    if s.len() > 0 && is_ws(s.last()) {
        lemma_trim_end_len(s.drop_last());
    }
}

fn has_cjk_exec(s: &[char]) -> (r: bool)
    ensures
        r == has_cjk(s@),
{
    let mut i: usize = 0;
    while i < s.len()
        invariant
            i <= s@.len(),
            forall|k: int| 0 <= k < i ==> !cjk(s@[k]),
        decreases s.len() - i,
    {
        if is_cjk(s[i]) {
            return true;
        }
        i = i + 1;
    }
    false
}

fn flush_exec(
    out: &mut Vec<Block>,
    cur: &Vec<char>,
    start: usize,
    base: usize,
    stride: usize,
)
    requires
        base + (start + cur@.len()) * stride <= usize::MAX,
    ensures
        final(out).deep_view() == flush(
            old(out).deep_view(),
            cur@,
            start as int,
            base as int,
            stride as int,
        ),
        text_chars(final(out).deep_view()) <= text_chars(old(out).deep_view()) + cur@.len(),
{
    if cur.len() >= MIN_BLOCK && has_cjk_exec(cur.as_slice()) {
        proof {
            assert(start * stride <= (start + cur@.len()) * stride) by (nonlinear_arith)
                requires
                    start >= 0,
                    cur@.len() >= 0,
                    stride >= 0,
            ;
            assert((start + cur@.len()) * stride == start * stride + cur@.len() * stride)
                by (nonlinear_arith);
            lemma_trim_len(cur@);
        }
        let b = base + start * stride;
        let e = b + cur.len() * stride;
        let t = string_of(trim_exec(cur.as_slice()).as_slice());
        let ghost old_dv = out.deep_view();
        out.push((b, e, t));
        assert(out.deep_view() =~= old_dv.push((b, e, trim(cur@))));
        assert(out.deep_view().drop_last() == old_dv);
    }
}

/// The text blocks of `s`, with byte ranges `base + index * stride`.
pub fn collect_with_offs(s: &[char], base: usize, stride: usize) -> (r: Vec<Block>)
    requires
        base + s@.len() * stride <= usize::MAX,
    ensures
        r.deep_view() == collect_spec(s@, base as int, stride as int),
        text_chars(r.deep_view()) <= s@.len(),
{
    let mut out: Vec<Block> = Vec::new();
    let mut cur: Vec<char> = Vec::new();
    let mut start: usize = 0;
    let mut i: usize = 0;
    while i < s.len()
        invariant
            i <= s@.len(),
            base + s@.len() * stride <= usize::MAX,
            (out.deep_view(), cur@, start as int) == scan_state(
                s@.subrange(0, i as int),
                base as int,
                stride as int,
            ),
            cur@.len() > 0 ==> start + cur@.len() == i,
            cur@.len() == 0 ==> start <= i,
            text_chars(out.deep_view()) + cur@.len() <= i,
        decreases s.len() - i,
    {
        let ghost pre = s@.subrange(0, i + 1);
        assert(pre.drop_last() == s@.subrange(0, i as int));
        let ch = s[i];
        proof {
            assert((start + cur@.len()) * stride <= s@.len() * stride) by (nonlinear_arith)
                requires
                    start + cur@.len() <= s@.len(),
                    stride >= 0,
            ;
        }
        if is_texty(ch) {
            if cur.len() == 0 {
                start = i;
            }
            cur.push(ch);
        } else {
            flush_exec(&mut out, &cur, start, base, stride);
            cur = Vec::new();
        }
        i = i + 1;
    }
    assert(s@.subrange(0, s@.len() as int) == s@);
    proof {
        assert((start + cur@.len()) * stride <= s@.len() * stride) by (nonlinear_arith)
            requires
                start + cur@.len() <= s@.len(),
                stride >= 0,
        ;
    }
    flush_exec(&mut out, &cur, start, base, stride);
    out
}

/// The character of one UTF-16LE code unit: NUL reads as a space, a lone
/// surrogate as U+FFFD.
pub open spec fn unit_char(lo: u8, hi: u8) -> char {
    let u = lo as u32 + 256 * (hi as u32);
    if u == 0 {
        ' '
    } else if is_scalar(u as u32) {
        (u as u32) as char
    } else {
        '\u{FFFD}'
    }
}

/// The code units of `bytes` read as UTF-16LE from byte `off` on.
pub open spec fn utf16_units(bytes: Seq<u8>, off: int) -> Seq<char> {
    let n = if bytes.len() >= off {
        (bytes.len() - off) / 2
    } else {
        0
    };
    Seq::new(n as nat, |k: int| unit_char(bytes[off + 2 * k], bytes[off + 2 * k + 1]))
}

pub fn decode_utf16le(bytes: &[u8], byte_off: usize) -> (r: Vec<char>)
    requires
        byte_off <= 1,
    ensures
        r@ == utf16_units(bytes@, byte_off as int),
        r@.len() == 0 || byte_off + 2 * r@.len() <= bytes@.len(),
{
    let n = bytes.len();
    let mut out: Vec<char> = Vec::new();
    let mut i: usize = byte_off;
    while i < n && i + 1 < n
        invariant
            n == bytes@.len(),
            byte_off <= 1,
            i == byte_off + 2 * out@.len(),
            i <= n || i == byte_off,
            forall|k: int|
                0 <= k < out@.len() ==> out@[k] == unit_char(
                    bytes@[byte_off + 2 * k],
                    bytes@[byte_off + 2 * k + 1],
                ),
        decreases n + 1 - i,
    {
        let u: u32 = bytes[i] as u32 + 256 * (bytes[i + 1] as u32);
        let c = if u == 0 {
            ' '
        } else {
            match char_from_u32(u) {
                Some(ch) => ch,
                None => '\u{FFFD}',
            }
        };
        out.push(c);
        i = i + 2;
    }
    proof {
        let cnt = if bytes@.len() >= byte_off {
            (bytes@.len() - byte_off) / 2
        } else {
            0
        };
        assert(out@.len() == cnt);
        assert(out@ =~= utf16_units(bytes@, byte_off as int));
    }
    out
}

/// The sum of the lengths of the block texts of at least four characters.
pub open spec fn score(v: Seq<BlockView>) -> nat
    decreases v.len(),
{
    if v.len() == 0 {
        0
    } else {
        score(v.drop_last()) + if v.last().2.len() >= 4 {
            v.last().2.len()
        } else {
            0
        }
    }
}

proof fn lemma_score_le(v: Seq<BlockView>)
    ensures
        score(v) <= text_chars(v),
    decreases v.len(),
{
    if v.len() > 0 {
        lemma_score_le(v.drop_last());
    }
}

fn score_exec(v: &Vec<Block>) -> (r: usize)
    requires
        text_chars(v.deep_view()) <= usize::MAX,
    ensures
        r == score(v.deep_view()),
{
    let mut sum: usize = 0;
    let mut i: usize = 0;
    while i < v.len()
        invariant
            i <= v@.len(),
            text_chars(v.deep_view()) <= usize::MAX,
            sum == score(v.deep_view().subrange(0, i as int)),
        decreases v.len() - i,
    {
        let ghost pre = v.deep_view().subrange(0, i + 1);
        assert(pre.drop_last() == v.deep_view().subrange(0, i as int));
        proof {
            lemma_score_le(pre);
            lemma_text_chars_prefix(v.deep_view(), i + 1);
        }
        let n = chars_of(v[i].2.as_str()).len();
        if n >= 4 {
            sum = sum + n;
        }
        i = i + 1;
    }
    assert(v.deep_view().subrange(0, v@.len() as int) == v.deep_view());
    sum
}

proof fn lemma_text_chars_prefix(v: Seq<BlockView>, k: int)
    requires
        0 <= k <= v.len(),
    ensures
        text_chars(v.subrange(0, k)) <= text_chars(v),
    decreases v.len() - k,
{
    if k < v.len() {
        lemma_text_chars_prefix(v, k + 1);
        assert(v.subrange(0, k + 1).drop_last() == v.subrange(0, k));
    } else {
        assert(v.subrange(0, k) == v);
    }
}

/// The stable merge by start offset of two block lists, ties taken from
/// the first.
pub open spec fn merge_by_start(a: Seq<BlockView>, b: Seq<BlockView>) -> Seq<BlockView>
    decreases a.len() + b.len(),
{
    if a.len() == 0 {
        b
    } else if b.len() == 0 {
        a
    } else if a[0].0 <= b[0].0 {
        seq![a[0]] + merge_by_start(a.drop_first(), b)
    } else {
        seq![b[0]] + merge_by_start(a, b.drop_first())
    }
}

fn clone_block(b: &Block) -> (r: Block)
    ensures
        r.deep_view() == b.deep_view(),
{
    (b.0, b.1, b.2.clone())
}

fn merge_exec(a: &Vec<Block>, b: &Vec<Block>) -> (r: Vec<Block>)
    ensures
        r.deep_view() == merge_by_start(a.deep_view(), b.deep_view()),
{
    let mut out: Vec<Block> = Vec::new();
    let mut i: usize = 0;
    let mut j: usize = 0;
    assert(a.deep_view().skip(0) == a.deep_view());
    assert(b.deep_view().skip(0) == b.deep_view());
    while i < a.len() || j < b.len()
        invariant
            i <= a@.len(),
            j <= b@.len(),
            out.deep_view() + merge_by_start(
                a.deep_view().skip(i as int),
                b.deep_view().skip(j as int),
            ) == merge_by_start(a.deep_view(), b.deep_view()),
        decreases a.len() + b.len() - i - j,
    {
        let ghost ra = a.deep_view().skip(i as int);
        let ghost rb = b.deep_view().skip(j as int);
        let ghost old_dv = out.deep_view();
        if j >= b.len() || (i < a.len() && a[i].0 <= b[j].0) {
            let x = clone_block(&a[i]);
            out.push(x);
            assert(out.deep_view() =~= old_dv.push(ra[0]));
            assert(ra.drop_first() == a.deep_view().skip(i + 1));
            proof {
                if rb.len() == 0 {
                    assert(merge_by_start(ra, rb) == ra);
                    assert(ra == seq![ra[0]] + ra.drop_first());
                    assert(merge_by_start(ra.drop_first(), rb) == ra.drop_first());
                }
            }
            i = i + 1;
        } else {
            let x = clone_block(&b[j]);
            out.push(x);
            assert(out.deep_view() =~= old_dv.push(rb[0]));
            assert(rb.drop_first() == b.deep_view().skip(j + 1));
            proof {
                if ra.len() == 0 {
                    assert(merge_by_start(ra, rb) == rb);
                    assert(rb == seq![rb[0]] + rb.drop_first());
                    assert(merge_by_start(ra, rb.drop_first()) == rb.drop_first());
                }
            }
            j = j + 1;
        }
    }
    out
}

/// The ranges of two blocks overlap.
pub open spec fn overlap(last: BlockView, next: BlockView) -> bool {
    next.0 < last.1 && last.0 < next.1
}

/// Overlapping neighbours keep the one with more ideographs (the earlier
/// one on a tie).
pub open spec fn keep_fold(v: Seq<BlockView>) -> Seq<BlockView>
    decreases v.len(),
{
    if v.len() == 0 {
        Seq::empty()
    } else {
        let k = keep_fold(v.drop_last());
        let x = v.last();
        if k.len() > 0 && overlap(k.last(), x) {
            if cjk_count(x.2) > cjk_count(k.last().2) {
                k.update(k.len() - 1, x)
            } else {
                k
            }
        } else {
            k.push(x)
        }
    }
}

/// The texts of `s` without repeats, each at its first place.
pub open spec fn dedup(s: Seq<Seq<char>>) -> Seq<Seq<char>>
    decreases s.len(),
{
    if s.len() == 0 {
        Seq::empty()
    } else {
        let d = dedup(s.drop_last());
        if d.contains(s.last()) {
            d
        } else {
            d.push(s.last())
        }
    }
}

pub open spec fn merge_blocks_spec(v: Seq<BlockView>) -> Seq<Seq<char>> {
    dedup(keep_fold(v).map_values(|b: BlockView| b.2))
}

fn cjk_count_exec(s: &str) -> (r: usize)
    ensures
        r == cjk_count(s@),
{
    let c = chars_of(s);
    let mut n: usize = 0;
    let mut i: usize = 0;
    while i < c.len()
        invariant
            i <= c@.len(),
            c@ == s@,
            n == cjk_count(c@.subrange(0, i as int)),
            n <= i,
        decreases c.len() - i,
    {
        proof {
            assert(c@.subrange(0, i + 1).drop_last() == c@.subrange(0, i as int));
            reveal_with_fuel(Seq::filter, 1);
        }
        if is_cjk(c[i]) {
            n = n + 1;
        }
        i = i + 1;
    }
    assert(c@.subrange(0, c@.len() as int) == c@);
    n
}

fn contains_text(v: &Vec<String>, t: &String) -> (r: bool)
    ensures
        r == v.deep_view().contains(t@),
{
    let mut i: usize = 0;
    while i < v.len()
        invariant
            i <= v@.len(),
            forall|k: int| 0 <= k < i ==> v.deep_view()[k] != t@,
        decreases v.len() - i,
    {
        if v[i] == *t {
            assert(v.deep_view()[i as int] == t@);
            return true;
        }
        i = i + 1;
    }
    false
}

/// Drops blocks that overlap a neighbour with more ideographs, then
/// repeated texts.
pub fn merge_blocks(v: Vec<Block>) -> (r: Vec<String>)
    ensures
        r.deep_view() == merge_blocks_spec(v.deep_view()),
{
    let mut kept: Vec<Block> = Vec::new();
    let mut i: usize = 0;
    while i < v.len()
        invariant
            i <= v@.len(),
            kept.deep_view() == keep_fold(v.deep_view().subrange(0, i as int)),
        decreases v.len() - i,
    {
        let ghost pre = v.deep_view().subrange(0, i + 1);
        assert(pre.drop_last() == v.deep_view().subrange(0, i as int));
        let x = clone_block(&v[i]);
        let ghost old_dv = kept.deep_view();
        let kl = kept.len();
        if kl > 0 && x.0 < kept[kl - 1].1 && kept[kl - 1].0 < x.1 {
            if cjk_count_exec(x.2.as_str()) > cjk_count_exec(kept[kl - 1].2.as_str()) {
                kept.set(kl - 1, x);
                assert(kept.deep_view() =~= old_dv.update(kl - 1, v.deep_view()[i as int]));
            }
        } else {
            kept.push(x);
            assert(kept.deep_view() =~= old_dv.push(v.deep_view()[i as int]));
        }
        i = i + 1;
    }
    assert(v.deep_view().subrange(0, v@.len() as int) == v.deep_view());
    let ghost texts = kept.deep_view().map_values(|b: BlockView| b.2);
    let mut out: Vec<String> = Vec::new();
    let mut j: usize = 0;
    while j < kept.len()
        invariant
            j <= kept@.len(),
            texts == kept.deep_view().map_values(|b: BlockView| b.2),
            out.deep_view() == dedup(texts.subrange(0, j as int)),
        decreases kept.len() - j,
    {
        let ghost pre = texts.subrange(0, j + 1);
        assert(pre.drop_last() == texts.subrange(0, j as int));
        assert(pre.last() == kept[j as int].2@);
        if !contains_text(&out, &kept[j].2) {
            let ghost old_dv = out.deep_view();
            out.push(kept[j].2.clone());
            assert(out.deep_view() =~= old_dv.push(kept[j as int].2@));
        }
        j = j + 1;
    }
    assert(texts.subrange(0, kept@.len() as int) == texts);
    out
}

/// The text blocks of a byte stream: each of the three decodings is cut
/// into blocks; UTF-16 wins when its blocks of four or more characters hold
/// more characters than GB18030's, its even- and odd-offset blocks then
/// being merged in byte order.
pub open spec fn text_blocks_spec(bytes: Seq<u8>) -> Seq<Seq<char>> {
    let gb = collect_spec(gb18030_decode(bytes), 0, 1);
    let u0 = collect_spec(utf16_units(bytes, 0), 0, 2);
    let u1 = collect_spec(utf16_units(bytes, 1), 1, 2);
    let chosen = if score(u0) + score(u1) > score(gb) {
        merge_by_start(u0, u1)
    } else {
        gb
    };
    merge_blocks_spec(chosen)
}

pub fn text_blocks(bytes: &[u8]) -> (r: Vec<String>)
    ensures
        r.deep_view() == text_blocks_spec(bytes@),
{
    let gbs = decode_gb18030(bytes);
    let gbc = chars_of(gbs.as_str());
    let _gl = gbc.len();
    let _bl = bytes.len();
    let gb = collect_with_offs(gbc.as_slice(), 0, 1);
    let d0 = decode_utf16le(bytes, 0);
    let u0 = collect_with_offs(d0.as_slice(), 0, 2);
    let d1 = decode_utf16le(bytes, 1);
    let u1 = collect_with_offs(d1.as_slice(), 1, 2);
    proof {
        lemma_score_le(u0.deep_view());
        lemma_score_le(u1.deep_view());
        lemma_score_le(gb.deep_view());
    }
    let s0 = score_exec(&u0);
    let s1 = score_exec(&u1);
    let sg = score_exec(&gb);
    let chosen = if s0 + s1 > sg {
        merge_exec(&u0, &u1)
    } else {
        gb
    };
    merge_blocks(chosen)
}

pub open spec fn ole_step(data: Seq<u8>, acc: Option<Seq<Seq<char>>>, name: Seq<char>) -> Option<
    Seq<Seq<char>>,
> {
    match acc {
        None => None,
        Some(out) => match ole_has_stream(data, name) {
            None => None,
            Some(false) => Some(out),
            Some(true) => match ole_stream(data, name) {
                None => None,
                Some(b) => Some(out + text_blocks_spec(b)),
            },
        },
    }
}

/// The text blocks of the `WordDocument`, `Workbook` and `Book` streams of
/// a compound file, in that order; `None` when `data` is no compound file,
/// a present stream cannot be read, or no block was found.
pub open spec fn cfb_blocks_spec(data: Seq<u8>) -> Option<Seq<Seq<char>>> {
    let a = ole_step(data, Some(Seq::empty()), "WordDocument"@);
    let b = ole_step(data, a, "Workbook"@);
    let c = ole_step(data, b, "Book"@);
    match c {
        Some(out) => if out.len() > 0 {
            Some(out)
        } else {
            None
        },
        None => None,
    }
}

fn ole_step_exec(data: &[u8], out: &mut Vec<String>, name: &str) -> (ok: bool)
    ensures
        ok ==> ole_step(data@, Some(old(out).deep_view()), name@) == Some(final(out).deep_view()),
        !ok ==> ole_step(data@, Some(old(out).deep_view()), name@) is None,
{
    match ole_is_stream(data, name) {
        None => false,
        Some(false) => true,
        Some(true) => match ole_read_stream(data, name) {
            None => false,
            Some(buf) => {
                assert(buf.deep_view() =~= buf@);
                let mut blocks = text_blocks(buf.as_slice());
                let ghost old_dv = out.deep_view();
                let ghost add = blocks.deep_view();
                out.append(&mut blocks);
                assert(out.deep_view() =~= old_dv + add);
                true
            },
        },
    }
}

pub fn cfb_blocks(data: &[u8]) -> (r: Option<Vec<String>>)
    ensures
        r.deep_view() == cfb_blocks_spec(data@),
{
    let mut out: Vec<String> = Vec::new();
    assert(out.deep_view() =~= Seq::<Seq<char>>::empty());
    if !ole_step_exec(data, &mut out, "WordDocument") {
        return None;
    }
    if !ole_step_exec(data, &mut out, "Workbook") {
        return None;
    }
    if !ole_step_exec(data, &mut out, "Book") {
        return None;
    }
    if out.len() == 0 {
        None
    } else {
        Some(out)
    }
}

/// The readable text blocks of a legacy document: those of its compound
/// file streams, else those of the whole file; `None` when there are none.
pub open spec fn doc_blocks_spec(data: Seq<u8>) -> Option<Seq<Seq<char>>> {
    match cfb_blocks_spec(data) {
        Some(b) => Some(b),
        None => if text_blocks_spec(data).len() > 0 {
            Some(text_blocks_spec(data))
        } else {
            None
        },
    }
}

pub fn doc_blocks(data: &[u8]) -> (r: Option<Vec<String>>)
    ensures
        r.deep_view() == doc_blocks_spec(data@),
{
    if let Some(b) = cfb_blocks(data) {
        return Some(b);
    }
    let fallback = text_blocks(data);
    if fallback.len() == 0 {
        None
    } else {
        Some(fallback)
    }
}

/// A block suited to numbering: at least three characters, two of them
/// ideographs, and at most two fifths whitespace.
pub open spec fn clean_block(b: Seq<char>) -> bool {
    let n = b.len();
    let spaces = b.filter(|c: char| is_ws(c)).len();
    n >= 3 && cjk_count(b) >= 2 && spaces * 5 <= n * 2
}

/// The indices of the clean blocks, in increasing order.
pub open spec fn clean_indices_spec(blocks: Seq<Seq<char>>) -> Seq<usize>
    decreases blocks.len(),
{
    if blocks.len() == 0 {
        Seq::empty()
    } else {
        let init = clean_indices_spec(blocks.drop_last());
        if clean_block(blocks.last()) {
            init.push((blocks.len() - 1) as usize)
        } else {
            init
        }
    }
}

fn ws_count_exec(c: &[char]) -> (r: usize)
    ensures
        r == c@.filter(|x: char| is_ws(x)).len(),
{
    let mut n: usize = 0;
    let mut i: usize = 0;
    while i < c.len()
        invariant
            i <= c@.len(),
            n == c@.subrange(0, i as int).filter(|x: char| is_ws(x)).len(),
            n <= i,
        decreases c.len() - i,
    {
        proof {
            assert(c@.subrange(0, i + 1).drop_last() == c@.subrange(0, i as int));
            reveal_with_fuel(Seq::filter, 1);
        }
        if is_whitespace(c[i]) {
            n = n + 1;
        }
        i = i + 1;
    }
    assert(c@.subrange(0, c@.len() as int) == c@);
    n
}

pub fn clean_indices(blocks: &[String]) -> (r: Vec<usize>)
    ensures
        r@ == clean_indices_spec(blocks.deep_view()),
{
    let mut out: Vec<usize> = Vec::new();
    let mut i: usize = 0;
    while i < blocks.len()
        invariant
            i <= blocks@.len(),
            out@ == clean_indices_spec(blocks.deep_view().subrange(0, i as int)),
        decreases blocks.len() - i,
    {
        let ghost pre = blocks.deep_view().subrange(0, i + 1);
        assert(pre.drop_last() == blocks.deep_view().subrange(0, i as int));
        let c = chars_of(blocks[i].as_str());
        let n = c.len();
        let keep = if n < 3 {
            false
        } else {
            let cjk_n = cjk_count_exec(blocks[i].as_str());
            let spaces = ws_count_exec(c.as_slice());
            cjk_n >= 2 && (spaces as u128) * 5 <= (n as u128) * 2
        };
        if keep {
            out.push(i);
        }
        i = i + 1;
    }
    assert(blocks.deep_view().subrange(0, blocks@.len() as int) == blocks.deep_view());
    out
}

} // verus!
