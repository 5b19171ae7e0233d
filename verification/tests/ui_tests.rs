use uefi_amt_provision::ui::{
    box_blank, box_bottom, box_center, box_kv, box_line, box_sep, box_top, margin, press_any_key, read_line,
    show_cursor, show_working, LineEcho,
};

fn s(v: Vec<char>) -> String {
    v.into_iter().collect()
}

#[test]
fn margins() {
    assert_eq!(margin(80), 9);
    assert_eq!(margin(62), 0);
    assert_eq!(margin(40), 0);
    assert_eq!(margin(100), 19);
}

#[test]
fn frame_lines() {
    let top = s(box_top(80));
    assert_eq!(top.chars().count(), 9 + 62);
    assert!(top.starts_with("         \u{2554}\u{2550}"));
    assert!(top.ends_with("\u{2550}\u{2557}"));
    assert!(s(box_bottom(62)).starts_with('\u{255A}'));
    assert!(s(box_bottom(62)).ends_with('\u{255D}'));
    assert!(s(box_sep(0)).starts_with('\u{2560}'));
    assert!(s(box_sep(0)).ends_with('\u{2563}'));
    let blank = s(box_blank(62));
    assert_eq!(blank, format!("\u{2551}{}\u{2551}", " ".repeat(60)));
}

#[test]
fn text_lines() {
    let line = s(box_line(62, "Hello"));
    assert_eq!(line, format!("\u{2551} Hello{} \u{2551}", " ".repeat(53)));
    let long = "x".repeat(70);
    let line = s(box_line(62, &long));
    assert_eq!(line, format!("\u{2551} {} \u{2551}", "x".repeat(58)));
    let centered = s(box_center(62, "abcd"));
    assert_eq!(centered, format!("\u{2551}{}abcd{}\u{2551}", " ".repeat(28), " ".repeat(28)));
    let centered = s(box_center(62, "abc"));
    assert_eq!(centered, format!("\u{2551}{}abc{}\u{2551}", " ".repeat(28), " ".repeat(29)));
}

#[test]
fn key_value_line() {
    let line = s(box_kv(62, "Control Mode", "Pre-Provisioning"));
    assert_eq!(line, format!("\u{2551} Control Mode{}Pre-Provisioning{} \u{2551}", " ".repeat(8), " ".repeat(22)));
    assert_eq!(line.chars().count(), 62);
    let line = s(box_kv(62, "A label longer than twenty", "v"));
    assert!(line.starts_with("\u{2551} A label longer than v"));
}

#[test]
fn working_and_key_boxes() {
    let lines = show_working(62, "Working...");
    assert_eq!(lines.len(), 5);
    assert!(s(lines[2].clone()).contains("Working..."));
    let foot = press_any_key(62);
    assert_eq!(foot.len(), 3);
    assert!(s(foot[1].clone()).contains("Press any key to continue..."));
    show_cursor();
}

#[test]
fn line_editing() {
    let mut buf = [0u8; 4];
    let mut len = 0;
    for ch in ['a', 'b', '\u{1}', 'c'] {
        let (n, _) = read_line(&mut buf, len, ch);
        len = n;
    }
    assert_eq!(&buf[..len], b"abc");
    let (n, echo) = read_line(&mut buf, len, '\u{8}');
    assert_eq!(n, 2);
    assert!(echo == LineEcho::Backspace);
    let (n, echo) = read_line(&mut buf, 0, '\u{7f}');
    assert_eq!(n, 0);
    assert!(echo == LineEcho::Nothing);
    let (n, echo) = read_line(&mut buf, 2, '\r');
    assert_eq!(n, 2);
    assert!(echo == LineEcho::Newline);
    let (n, echo) = read_line(&mut buf, 4, 'z');
    assert_eq!(n, 4);
    assert!(echo == LineEcho::Nothing);
    let (n, echo) = read_line(&mut buf, 1, 'Q');
    assert_eq!(n, 2);
    assert!(echo == LineEcho::Char('Q'));
    assert_eq!(buf[1], b'Q');
    let (_, echo) = read_line(&mut buf, 1, '\u{e9}');
    assert!(echo == LineEcho::Nothing);
}
