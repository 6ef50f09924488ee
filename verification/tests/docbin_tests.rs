use inspection_stats::docbin::{
    clean_indices, collect_with_offs, decode_utf16le, doc_blocks, is_cjk, is_texty, merge_blocks,
    text_blocks,
};

fn utf16le(s: &str) -> Vec<u8> {
    s.encode_utf16().flat_map(|u| u.to_le_bytes()).collect()
}

#[test]
fn utf16_units_with_nul_and_surrogates() {
    let mut b = utf16le("中文");
    b.extend_from_slice(&[0, 0, 0x00, 0xD8]);
    assert_eq!(decode_utf16le(&b, 0), vec!['中', '文', ' ', '\u{FFFD}']);
    assert_eq!(decode_utf16le(&[1], 0), Vec::<char>::new());
    assert_eq!(decode_utf16le(&[0x41, 0x41, 0x00], 1), vec!['\u{41}']);
}

#[test]
fn character_classes() {
    assert!(is_texty('a') && is_texty('中') && is_texty('，') && is_texty('—'));
    assert!(!is_texty('\n') && !is_texty('\u{FFFD}'));
    assert!(is_cjk('中') && is_cjk('\u{3400}') && !is_cjk('a'));
}

#[test]
fn blocks_need_an_ideograph_and_two_characters() {
    let s: Vec<char> = "ab\u{1}中\u{1}中文 \u{1}xyz".chars().collect();
    let b = collect_with_offs(&s, 1, 2);
    assert_eq!(b, vec![(1 + 5 * 2, 1 + 8 * 2, "中文".to_string())]);
}

#[test]
fn overlapping_blocks_keep_the_more_ideographic_one() {
    let v = vec![
        (0usize, 10usize, "abc中".to_string()),
        (5, 12, "中文字".to_string()),
        (20, 30, "abc中".to_string()),
        (40, 50, "表格".to_string()),
    ];
    assert_eq!(merge_blocks(v), vec!["中文字".to_string(), "abc中".to_string(), "表格".to_string()]);
}

#[test]
fn utf16_documents_are_read_as_utf16() {
    // Code points U+4E01..U+4E14 have both UTF-16 bytes below 0x80, so the
    // GB18030 reading finds no ideographs at all.
    let b = utf16le("\u{1}丁七万丈三上下\u{1}丐丑专且\u{1}");
    assert_eq!(text_blocks(&b), vec!["丁七万丈三上下".to_string(), "丐丑专且".to_string()]);
}

#[test]
fn gbk_documents_are_read_as_gb18030() {
    // "食品" in GBK, then a control byte, then "合格".
    let b = [0xCA, 0xB3, 0xC6, 0xB7, 0x01, 0xBA, 0xCF, 0xB8, 0xF1];
    assert_eq!(doc_blocks(&b), Some(vec!["食品".to_string(), "合格".to_string()]));
}

#[test]
fn no_text_no_blocks() {
    assert_eq!(doc_blocks(&[0x01, 0x02, 0x03]), None);
}

#[test]
fn clean_block_indices() {
    let blocks: Vec<String> = vec!["食品".into(), "食品安全".into(), "食 品 安 全   x".into(), "abc中文".into(), "a中b".into()];
    assert_eq!(clean_indices(&blocks), vec![1, 3]);
}

#[test]
fn text_blocks_are_trimmed_text_with_ideographs() {
    let mut b: Vec<u8> = Vec::new();
    for c in " 天晨 矿泉水 \u{1}\u{1}ab\u{1} 巴马 ".encode_utf16() {
        b.extend_from_slice(&c.to_le_bytes());
    }
    let blocks = text_blocks(&b);
    assert!(!blocks.is_empty());
    for s in &blocks {
        assert!(!s.is_empty());
        assert_eq!(s.as_str(), s.trim());
        assert!(s.chars().all(is_texty));
        assert!(s.chars().any(|c| ('\u{4E00}'..='\u{9FFF}').contains(&c)));
    }
}
