use envy::formatters::format_lines;
use envy::parser::{classify_line, parse_env_file, parse_inline_comment, Line};
use envy::sorter::sort_lines;

const ALPHABET: [char; 8] = ['a', ' ', '#', '"', '\'', '\\', '=', 'é'];

fn texts_up_to(length: usize) -> Vec<String> {
    let mut all = vec![String::new()];
    let mut last = vec![String::new()];
    for _ in 0..length {
        let mut next = Vec::new();
        for s in &last {
            for c in ALPHABET {
                let mut t = s.clone();
                t.push(c);
                next.push(t);
            }
        }
        all.extend(next.iter().cloned());
        last = next;
    }
    all
}

fn comment_by_std(line: &str) -> (&str, Option<&str>) {
    let mut in_quotes = false;
    let mut quote_char = ' ';
    let mut escaped = false;
    for (i, ch) in line.char_indices() {
        if escaped {
            escaped = false;
            continue;
        }
        if ch == '\\' {
            escaped = true;
            continue;
        }
        if ch == '"' || ch == '\'' {
            if !in_quotes {
                in_quotes = true;
                quote_char = ch;
            } else if ch == quote_char {
                in_quotes = false;
            }
        }
        if ch == '#' && !in_quotes {
            return (line[..i].trim_end(), Some(line[i..].trim()));
        }
    }
    (line, None)
}

fn classify_by_std(raw: &str, number: usize) -> Line {
    let trimmed = raw.trim();
    if trimmed.is_empty() {
        return Line::Empty;
    }
    if trimmed.starts_with('#') {
        return Line::Comment(trimmed.to_string());
    }
    let (content, comment) = comment_by_std(trimmed);
    match content.split_once('=') {
        Some((key, value)) => {
            if key.trim().is_empty() || (value.trim().is_empty() && comment.is_none()) {
                Line::Invalid { content: trimmed.to_string(), line: number }
            } else {
                Line::KeyValue {
                    key: key.to_string(),
                    value: value.to_string(),
                    line: number,
                    inline_comment: comment.map(|c| c.to_string()),
                    references: Vec::new(),
                    has_export: trimmed.starts_with("export "),
                }
            }
        }
        None => Line::Invalid { content: trimmed.to_string(), line: number },
    }
}

fn format_by_std(lines: &[Line], keep_last: bool) -> String {
    let mut ordered: Vec<&Line> = lines.iter().collect();
    if keep_last {
        ordered.reverse();
    }
    let mut seen: Vec<String> = Vec::new();
    let mut out: Vec<String> = Vec::new();
    for line in ordered {
        match line {
            Line::Comment(text) => out.push(format!("{}\n", text)),
            Line::Empty => out.push("\n".to_string()),
            Line::Invalid { .. } => {}
            Line::KeyValue { key, value, inline_comment, has_export, .. } => {
                let key = if *has_export {
                    key.strip_prefix("export ").unwrap_or(key).to_string()
                } else {
                    key.clone()
                };
                if seen.contains(&key) {
                    continue;
                }
                if key.contains(char::is_whitespace)
                    || (value.contains(char::is_whitespace) && inline_comment.is_none())
                {
                    out.push(format!("{}={}\n", key.trim(), value.trim()));
                    seen.push(key.trim().to_string());
                } else {
                    match inline_comment {
                        Some(c) => out.push(format!("{}={} {}\n", key, value, c)),
                        None => out.push(format!("{}={}\n", key, value)),
                    }
                    seen.push(key);
                }
            }
        }
    }
    if keep_last {
        out.reverse();
    }
    out.concat()
}

#[test]
fn inline_comments_agree_with_a_scan_by_std() {
    for text in texts_up_to(5) {
        assert_eq!(parse_inline_comment(&text), comment_by_std(&text), "{:?}", text);
    }
}

#[test]
fn classification_agrees_with_std_string_functions() {
    for text in texts_up_to(5) {
        assert_eq!(classify_line(&text, 3), classify_by_std(&text, 3), "{:?}", text);
        let export = format!("export {}", text);
        assert_eq!(classify_line(&export, 1), classify_by_std(&export, 1), "{:?}", export);
    }
}

#[test]
fn line_splitting_agrees_with_std_lines() {
    let pieces = ["", "a", "\n", "\r\n", "\r", "b=1", " ", "\n\n"];
    for a in pieces {
        for b in pieces {
            for c in pieces {
                for d in pieces {
                    let text = format!("{}{}{}{}", a, b, c, d);
                    let lines = parse_env_file(&text).unwrap();
                    let expected: Vec<Line> =
                        text.lines().enumerate().map(|(i, l)| classify_by_std(l, i + 1)).collect();
                    assert_eq!(lines, expected, "{:?}", text);
                }
            }
        }
    }
}

#[test]
fn formatting_agrees_with_a_run_by_std() {
    let pieces = [
        "A=1", "A=2", "A =3", " A= 4 # c", "export A=5", "export  A=6", "B=x y", "B=x y #c",
        "# c", "", "nope", "A= # c", "export =7", "=8",
    ];
    for a in pieces {
        for b in pieces {
            for c in pieces {
                let text = format!("{}\n{}\n{}\n", a, b, c);
                let lines = parse_env_file(&text).unwrap();
                for (dupes, keep_last) in [("keep-first", false), ("keep-last", true)] {
                    for dry_run in [false, true] {
                        assert_eq!(
                            format_lines(&lines, dupes, dry_run).text,
                            format_by_std(&lines, keep_last),
                            "{:?} {}",
                            text,
                            dupes
                        );
                    }
                }
            }
        }
    }
}

#[test]
fn alphabetical_sorting_agrees_with_std_sort() {
    let keys = ["B", "A", "b", "A_1", "A", "AB", "", "é", "_", "B"];
    let mut lines = Vec::new();
    for (i, k) in keys.iter().enumerate() {
        lines.push(Line::KeyValue {
            key: k.to_string(),
            value: i.to_string(),
            line: i + 1,
            inline_comment: None,
            references: Vec::new(),
            has_export: false,
        });
        lines.push(Line::Empty);
    }
    let mut pairs: Vec<(String, String)> =
        keys.iter().enumerate().map(|(i, k)| (k.to_string(), i.to_string())).collect();
    pairs.sort_by(|a, b| a.0.cmp(&b.0));
    let mut expected = String::new();
    for (k, v) in pairs {
        expected.push_str(&format!("{}={}\n", k, v));
    }
    expected.push('\n');
    assert_eq!(sort_lines(&lines, "alpha"), expected);
}
