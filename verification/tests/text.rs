use darkicewolf50_cloud::text::{chars_of, is_whitespace, join_spans, line_spans, string_of_range, word_spans};

fn lines_of(s: &str) -> Vec<String> {
    let cs = chars_of(s);
    let spans = line_spans(&cs);
    spans.iter().map(|&(a, b)| string_of_range(&cs, a, b)).collect()
}

#[test]
fn line_spans_match_str_lines() {
    for s in ["", "a", "a\n", "a\nb", "a\r\nb\r\n", "\n\n", "x\r", "a\rb\nc", "é\nü\r\n"] {
        let expected: Vec<String> = s.lines().map(|l| l.to_string()).collect();
        assert_eq!(lines_of(s), expected, "input {:?}", s);
    }
}

#[test]
fn word_spans_match_split_whitespace() {
    for s in ["", "  ", "a b", " a\tb \n c ", "x\u{2003}y\u{85}z", "one"] {
        let cs = chars_of(s);
        let spans = word_spans(&cs, 0, cs.len());
        let got: Vec<String> = spans.iter().map(|&(a, b)| string_of_range(&cs, a, b)).collect();
        let expected: Vec<String> = s.split_whitespace().map(|w| w.to_string()).collect();
        assert_eq!(got, expected, "input {:?}", s);
    }
}

#[test]
fn is_whitespace_matches_std() {
    for c in ['\t', '\n', '\u{b}', '\u{c}', '\r', ' ', '\u{85}', '\u{a0}', '\u{1680}', '\u{2000}', '\u{200a}', '\u{2028}', '\u{2029}', '\u{202f}', '\u{205f}', '\u{3000}', 'a', '\u{200b}', '\u{180e}', '\u{feff}', '0'] {
        assert_eq!(is_whitespace(c), c.is_whitespace(), "char {:?}", c);
    }
}

#[test]
fn join_spans_joins_from_index() {
    let cs = chars_of("a\nb\nc\nd");
    let spans = line_spans(&cs);
    assert_eq!(join_spans(&cs, &spans, 1, '\n'), "b\nc\nd");
    assert_eq!(join_spans(&cs, &spans, 4, '\n'), "");
    assert_eq!(join_spans(&cs, &spans, 9, '\n'), "");
}

#[test]
fn law_join_lines_example() {
    for s in ["a\nb\n", "a\nb", "", "\n", "x\n\ny"] {
        let cs = chars_of(s);
        let spans = line_spans(&cs);
        let joined = join_spans(&cs, &spans, 0, '\n');
        let expected = s.strip_suffix('\n').unwrap_or(s);
        assert_eq!(joined, expected);
    }
}

#[test]
fn law_words_of_trim_example() {
    let line = " \t #a  #b \u{2003}";
    let cs = chars_of(line);
    let all = word_spans(&cs, 0, cs.len());
    let trimmed = chars_of(line.trim());
    let inner = word_spans(&trimmed, 0, trimmed.len());
    let a: Vec<String> = all.iter().map(|&(x, y)| string_of_range(&cs, x, y)).collect();
    let b: Vec<String> = inner.iter().map(|&(x, y)| string_of_range(&trimmed, x, y)).collect();
    assert_eq!(a, b);
    assert_eq!(a, vec!["#a".to_string(), "#b".to_string()]);
}
