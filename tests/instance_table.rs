use pimsync::instances::{parse_instances, row_cells_of, split_text, text_lines, trim_text};

fn strings(v: &[&str]) -> Vec<String> {
    v.iter().map(|s| s.to_string()).collect()
}

#[test]
fn rows_after_the_header_are_split_and_trimmed() {
    let mut text = String::new();
    for i in 0..8 {
        text.push_str(&format!("header line {}\n", i));
    }
    text.push_str("| kavin.rocks | https://pipedapi.kavin.rocks | Germany |\r\n");
    text.push_str("  second |  https://api.example  \n");
    let rows = parse_instances(&text);
    assert_eq!(
        rows,
        vec![
            strings(&["", "kavin.rocks", "https://pipedapi.kavin.rocks", "Germany", ""]),
            strings(&["second", "https://api.example"]),
        ]
    );
}

#[test]
fn short_text_has_no_rows() {
    assert!(parse_instances("").is_empty());
    assert!(parse_instances("a\nb\nc\nd\ne\nf\ng\nh\n").is_empty());
    assert_eq!(parse_instances("a\nb\nc\nd\ne\nf\ng\nh\nrow"), vec![strings(&["row"])]);
}

#[test]
fn lines_follow_line_endings() {
    assert_eq!(text_lines("a\r\nb\n\nc"), strings(&["a", "b", "", "c"]));
    assert_eq!(text_lines("a\n"), strings(&["a"]));
    assert_eq!(text_lines("a\r"), strings(&["a\r"]));
    assert!(text_lines("").is_empty());
    assert_eq!(text_lines("\n"), strings(&[""]));
}

#[test]
fn split_and_trim() {
    assert_eq!(split_text("a|b||c", '|'), strings(&["a", "b", "", "c"]));
    assert_eq!(split_text("", '|'), strings(&[""]));
    assert_eq!(trim_text(" \t x y \u{3000}\n"), "x y".to_string());
    assert_eq!(trim_text("   "), "".to_string());
    assert_eq!(row_cells_of(" a | b "), strings(&["a", "b"]));
}
