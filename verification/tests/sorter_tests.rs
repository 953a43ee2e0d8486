use envy::parser::parse_env_file;
use envy::sorter::{push_group, sort, sort_lines};

#[test]
fn alpha_orders_by_full_key() {
    assert_eq!(sort("B_X=1\nA_Y=2\n", "alpha").unwrap(), "A_Y=2\nB_X=1\n\n");
}

#[test]
fn group_makes_one_block_per_prefix() {
    let out = sort("B_X=1\nA_Y=2\n", "group").unwrap();
    assert_eq!(out, "# B\nB_X=1\n\n# A\nA_Y=2\n\n");
    assert_eq!(out.matches("# A\nA_Y=2\n\n").count(), 1);
    assert_eq!(out.matches("# B\nB_X=1\n\n").count(), 1);
}

#[test]
fn any_other_method_groups() {
    assert_eq!(sort("B_X=1\n", "").unwrap(), "# B\nB_X=1\n\n");
    assert_eq!(sort("B_X=1\n", "ALPHA").unwrap(), "# B\nB_X=1\n\n");
}

#[test]
fn alpha_is_stable_and_by_code_point() {
    let out = sort("b=1\nB=2\na=3\nB=4\nAB=5\nA=6\n_=7\n", "alpha").unwrap();
    assert_eq!(out, "A=6\nAB=5\nB=2\nB=4\n_=7\na=3\nb=1\n\n");
}

#[test]
fn alpha_agrees_with_std_string_order() {
    let keys = ["é", "z", "Z", "a_b", "a", "", "a_", "ab", "\u{10000}", "\u{FFFF}", "~", " x"];
    let mut text = String::new();
    for k in keys.iter() {
        text.push_str(&format!("{}=v\n", k));
    }
    let lines: Vec<envy::parser::Line> = keys
        .iter()
        .enumerate()
        .map(|(i, k)| envy::parser::Line::KeyValue {
            key: k.to_string(),
            value: "v".to_string(),
            line: i + 1,
            inline_comment: None,
            references: Vec::new(),
            has_export: false,
        })
        .collect();
    let mut sorted: Vec<&str> = keys.to_vec();
    sorted.sort();
    let mut expected = String::new();
    for k in sorted {
        expected.push_str(&format!("{}=v\n", k));
    }
    expected.push('\n');
    assert_eq!(sort_lines(&lines, "alpha"), expected);
}

#[test]
fn sorting_drops_everything_but_assignments() {
    let out = sort("# c\n\nJUST_TEXT\nB=1 # note\nA=2\n", "alpha").unwrap();
    assert_eq!(out, "A=2\nB=1\n\n");
}

#[test]
fn sorting_nothing() {
    assert_eq!(sort("", "alpha").unwrap(), "\n");
    assert_eq!(sort("", "group").unwrap(), "");
    assert_eq!(sort("# only\n", "group").unwrap(), "");
}

#[test]
fn keys_without_underscore_go_to_misc() {
    let out = sort("PORT=1\nDB_HOST=h\nHOST=2\nDB_A=a\n", "group").unwrap();
    assert_eq!(out, "# MISC\nHOST=2\nPORT=1\n\n# DB\nDB_A=a\nDB_HOST=h\n\n");
}

#[test]
fn group_headers_are_upper_case() {
    let out = sort("db_host=h\nDB_PORT=1\nstraße_x=1\n", "group").unwrap();
    assert_eq!(out, "# DB\ndb_host=h\n\n# DB\nDB_PORT=1\n\n# STRASSE\nstraße_x=1\n\n");
}

#[test]
fn leading_underscore_gives_an_empty_group_name() {
    assert_eq!(sort("_X=1\n", "group").unwrap(), "# \n_X=1\n\n");
}

#[test]
fn keys_are_sorted_as_written() {
    let out = sort("export B=1\nA =2\n", "alpha").unwrap();
    assert_eq!(out, "A =2\nexport B=1\n\n");
}

#[test]
fn push_group_renders_header_entries_and_blank_line() {
    let mut out = String::from("x");
    let entries = vec![
        ("B_2".to_string(), "two".to_string()),
        ("B_1".to_string(), "one".to_string()),
    ];
    push_group(&mut out, "Bee", &entries);
    assert_eq!(out, "x# Bee\nB_1=one\nB_2=two\n\n");
    let lines = parse_env_file("B_2=two\nB_1=one\n").unwrap();
    assert_eq!(sort_lines(&lines, "group"), "# B\nB_1=one\nB_2=two\n\n");
}
