use mymemo::codec::{decode_memos, encode_memos};
use mymemo::memo::{Memo, WindowState};

fn memo(id: &str, title: &str, content: &str, color: &str, ts: u64, w: Option<WindowState>) -> Memo {
    Memo {
        id: id.to_string(),
        title: title.to_string(),
        content: content.to_string(),
        color: color.to_string(),
        updated_at: ts,
        window: w,
    }
}

fn same_memo(a: &Memo, b: &Memo) -> bool {
    a.id == b.id && a.title == b.title && a.content == b.content && a.color == b.color
        && a.updated_at == b.updated_at && a.window == b.window
}

#[test]
fn encode_exact_text() {
    let memos = vec![memo("a1", "x", "", "yellow", 5, None)];
    let text = encode_memos(&memos);
    assert_eq!(text, "1;2;a11;x0;6;yellow5;N");
}

#[test]
fn encode_exact_text_with_window() {
    let w = WindowState { is_open: true, x: -3, y: 0, width: 300, height: 350, always_on_top: false };
    let memos = vec![memo("k", "t", "c", "blue", 42, Some(w))];
    let text = encode_memos(&memos);
    assert_eq!(text, "1;1;k1;t1;c4;blue42;WT-3;+0;+300;+350;F");
}

#[test]
fn encode_deterministic() {
    let memos = vec![memo("a", "b", "c", "d", 1, None), memo("e", "f", "g", "h", 2, None)];
    assert_eq!(encode_memos(&memos), encode_memos(&memos));
}

#[test]
fn round_trip_empty() {
    let memos: Vec<Memo> = vec![];
    let text = encode_memos(&memos);
    let back = decode_memos(&text).expect("decodes");
    assert!(back.is_empty());
}

#[test]
fn round_trip_full() {
    let w = WindowState {
        is_open: true,
        x: -120,
        y: 44,
        width: 300,
        height: 350,
        always_on_top: true,
    };
    let memos = vec![
        memo("a1", "첫 메모", "내용; with \n separators", "yellow", u64::MAX, Some(w)),
        memo("b2", "", "", "", 0, None),
        memo("c3", "title", "3;fake;tokens", "pink", 1699999999999, None),
    ];
    let text = encode_memos(&memos);
    let back = decode_memos(&text).expect("decodes");
    assert_eq!(back.len(), 3);
    for (a, b) in memos.iter().zip(back.iter()) {
        assert!(same_memo(a, b), "mismatch: {:?} vs {:?}", a, b);
    }
}

#[test]
fn round_trip_keeps_order() {
    let memos = vec![
        memo("n1", "a", "x", "c1", 3, None),
        memo("n2", "b", "y", "c2", 2, None),
        memo("n3", "c", "z", "c3", 1, None),
    ];
    let back = decode_memos(&encode_memos(&memos)).expect("decodes");
    let ids: Vec<&str> = back.iter().map(|m| m.id.as_str()).collect();
    assert_eq!(ids, vec!["n1", "n2", "n3"]);
}

#[test]
fn decode_rejects_garbage() {
    assert!(decode_memos("not a memo file").is_none());
    assert!(decode_memos("").is_none());
    assert!(decode_memos(";").is_none());
}

#[test]
fn decode_rejects_wrong_count() {
    // claims two notes, holds one
    assert!(decode_memos("2;2;a11;x0;6;yellow5;N").is_none());
}

#[test]
fn decode_rejects_trailing_text() {
    assert!(decode_memos("1;2;a11;x0;6;yellow5;Nleftover").is_none());
}

#[test]
fn decode_rejects_truncation() {
    let memos = vec![memo("a1", "title", "content", "yellow", 7, None)];
    let text = encode_memos(&memos);
    let cut: String = text.chars().take(text.chars().count() - 1).collect();
    assert!(decode_memos(&cut).is_none());
}

#[test]
fn decode_rejects_huge_number() {
    // one digit past u64::MAX
    assert!(decode_memos("99999999999999999999;").is_none());
}
