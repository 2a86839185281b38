use rust_digger::common::{valid_option_name, valid_option_value};
use rust_digger::crates::Crate;
use rust_digger::msrv::{count_versions, vectorize, VersionField};
use rust_digger::rustfmt::{
    count_by_option, count_by_pair, count_texts, crates_with_option, crates_with_setting,
    options_by_count, parse_rustfmt, rustfmt_entries, rustfmt_entry, rustfmt_file_text, split_text, values_for,
};

fn s(t: &str) -> String {
    t.to_string()
}

#[test]
fn split_like_str_split() {
    assert_eq!(split_text("a,b,,c", ','), vec![s("a"), s("b"), s(""), s("c")]);
    assert_eq!(split_text("", ','), vec![s("")]);
    assert_eq!(split_text(",", ','), vec![s(""), s("")]);
    assert_eq!(split_text("x\ny\n", '\n'), vec![s("x"), s("y"), s("")]);
}

#[test]
fn parse_collected_settings() {
    let content = "max_width,100,foo\n\nbad,line\nedition,\"2021\",bar\na,b,c,d\nhard_tabs,true,baz\n";
    let rows = parse_rustfmt(content);
    assert_eq!(
        rows,
        vec![
            (s("max_width"), s("100"), s("foo")),
            (s("edition"), s("\"2021\""), s("bar")),
            (s("hard_tabs"), s("true"), s("baz")),
        ]
    );
}

#[test]
fn written_settings_read_back() {
    let lines = vec![
        rustfmt_entry("edition", "\"2021\"", "foo"),
        rustfmt_entry("max_width", "100", "bar"),
        rustfmt_entry("empty", "\"\"", "baz"),
    ];
    assert_eq!(lines[0], "edition,2021,foo");
    assert_eq!(lines[2], "empty,,baz");
    let text = rustfmt_file_text(&lines);
    assert_eq!(text, "edition,2021,foo\nmax_width,100,bar\nempty,,baz\n");
    assert_eq!(
        parse_rustfmt(&text),
        vec![
            (s("edition"), s("2021"), s("foo")),
            (s("max_width"), s("100"), s("bar")),
            (s("empty"), s(""), s("baz")),
        ]
    );
}

fn sample() -> Vec<(String, String, String)> {
    vec![
        (s("edition"), s("2021"), s("a")),
        (s("max_width"), s("100"), s("b")),
        (s("edition"), s("2018"), s("c")),
        (s("edition"), s("2021"), s("d")),
        (s("hard_tabs"), s("true"), s("e")),
    ]
}

#[test]
fn counts_of_options() {
    let rows = sample();
    let counts = count_by_option(&rows);
    assert_eq!(counts.get("edition"), Some(&3));
    assert_eq!(counts.get("max_width"), Some(&1));
    assert_eq!(counts.get("nope"), None);
    let by_count = options_by_count(&counts);
    assert_eq!(by_count[0], (s("edition"), 3));
    assert_eq!(by_count.len(), 3);
    assert!(by_count[1].1 == 1 && by_count[2].1 == 1);
    let values = values_for(&rows, "edition");
    assert_eq!(values, vec![s("2021"), s("2018"), s("2021")]);
    let tally = count_texts(&values);
    assert_eq!(tally.get("2021"), Some(&2));
}

#[test]
fn counts_of_pairs() {
    let rows = sample();
    let pairs = count_by_pair(&rows);
    assert_eq!(
        pairs,
        vec![
            (s("edition"), s("2018"), 1),
            (s("edition"), s("2021"), 2),
            (s("hard_tabs"), s("true"), 1),
            (s("max_width"), s("100"), 1),
        ]
    );
}

#[test]
fn crates_of_settings() {
    let rows = sample();
    assert_eq!(crates_with_option(&rows, "edition"), vec![s("a"), s("c"), s("d")]);
    assert_eq!(crates_with_setting(&rows, "edition", "2021"), vec![s("a"), s("d")]);
    assert!(crates_with_setting(&rows, "edition", "2015").is_empty());
}

#[test]
fn option_patterns() {
    assert!(valid_option_name("max_width"));
    assert!(!valid_option_name("Max"));
    assert!(!valid_option_name(""));
    assert!(!valid_option_name("a-b"));
    assert!(valid_option_value("Unix_2021"));
    assert!(!valid_option_value("1.5"));
    assert!(!valid_option_value(""));
}

#[test]
fn versions_counted_and_vectorized() {
    let mut a = Crate::new();
    a.cargo.package.edition = Some(s("2021"));
    let mut b = Crate::new();
    b.cargo.package.edition = Some(s("2018"));
    let c = Crate::new();
    let mut d = Crate::new();
    d.cargo.package.edition = Some(s("2021"));
    let mut e = Crate::new();
    e.cargo.package.edition = Some(s(""));
    let crates = vec![a, b, c, d, e];
    let counts = count_versions(&crates, VersionField::Edition);
    assert_eq!(counts.get("2021"), Some(&2));
    assert_eq!(counts.get("na"), Some(&1));
    let rows = vectorize(&counts);
    assert_eq!(
        rows,
        vec![
            (s("na"), s("na"), 1),
            (s("2021"), s("2021"), 2),
            (s("2018"), s("2018"), 1),
            (s(""), s("na"), 1),
        ]
    );
    let rust_versions = count_versions(&crates, VersionField::RustVersion);
    assert_eq!(rust_versions.get("na"), Some(&5));
}

#[test]
fn split_pieces_join_back() {
    for text in ["a,b,,c", "", ",", "no separator", ",leading", "trailing,"] {
        assert_eq!(split_text(text, ',').join(","), text);
    }
}

#[test]
fn option_counts_add_up_to_settings() {
    let rows = sample();
    let by_count = options_by_count(&count_by_option(&rows));
    let total: u32 = by_count.iter().map(|(_, c)| *c).sum();
    assert_eq!(total as usize, rows.len());
    let values = values_for(&rows, "edition");
    let tally = count_texts(&values);
    let value_total: u32 = options_by_count(&tally).iter().map(|(_, c)| *c).sum();
    assert_eq!(value_total as usize, values.len());
}

#[test]
fn rustfmt_toml_read_into_lines() {
    let content = "edition = \"2021\"\nhard_tabs = true\nmax_width = 100\n";
    assert_eq!(
        rustfmt_entries(content, "foo"),
        Some(vec![s("edition,2021,foo"), s("hard_tabs,true,foo"), s("max_width,100,foo")])
    );
    assert_eq!(rustfmt_entries("", "foo"), Some(vec![]));
    assert_eq!(rustfmt_entries("max_width = ", "foo"), None);
    assert_eq!(rustfmt_entries("this is not toml", "foo"), None);
}
