use ruster::headers::{
    make_header, normalize, parse_header, parse_headers, split_entry, Header,
};

fn lines(texts: &[&str]) -> Vec<String> {
    texts.iter().map(|t| t.to_string()).collect()
}

fn header(name: &str, value: &str) -> Header {
    Header { name: name.to_string(), value: value.to_string() }
}

#[test]
fn no_list_gives_no_headers() {
    assert_eq!(parse_headers(None), vec![]);
    assert_eq!(parse_headers(Some(vec![])), vec![]);
}

#[test]
fn key_and_value_are_trimmed_and_lowercased() {
    assert_eq!(parse_header("X-Token: ABC"), Some(header("x-token", "abc")));
    assert_eq!(parse_header("  Accept \t:\t text/HTML  "), Some(header("accept", "text/html")));
    assert_eq!(parse_header("a:b"), Some(header("a", "b")));
    assert_eq!(parse_header("\u{a0}Name\u{2003}:\u{3000}Value\n"), Some(header("name", "value")));
}

#[test]
fn value_keeps_inner_white_space() {
    assert_eq!(parse_header("User-Agent: My  Agent 1.0"), Some(header("user-agent", "my  agent 1.0")));
    assert_eq!(parse_header("x: a\tb"), Some(header("x", "a\tb")));
}

#[test]
fn entries_without_exactly_one_colon_are_skipped() {
    assert_eq!(parse_header("no colon"), None);
    assert_eq!(parse_header(""), None);
    assert_eq!(parse_header("Host: example.com:8080"), None);
    assert_eq!(parse_header("a:b:c"), None);
    assert_eq!(parse_header("::"), None);
}

#[test]
fn empty_value_is_accepted_and_empty_name_is_not() {
    assert_eq!(parse_header("x-empty:"), Some(header("x-empty", "")));
    assert_eq!(parse_header("x-empty:   "), Some(header("x-empty", "")));
    assert_eq!(parse_header(": value"), None);
    assert_eq!(parse_header("   : value"), None);
}

#[test]
fn names_that_http_refuses_are_skipped() {
    assert_eq!(parse_header("bad name: v"), None);
    assert_eq!(parse_header("bad/name: v"), None);
    assert_eq!(parse_header("bad(name): v"), None);
    assert_eq!(parse_header("näme: v"), None);
    assert_eq!(parse_header("x{y}: v"), None);
    assert_eq!(parse_header("na\"me: v"), None);
    assert_eq!(parse_header("!#$%&'*+-.^_`|~09az: v"), Some(header("!#$%&'*+-.^_`|~09az", "v")));
}

#[test]
fn name_length_limit_is_65535() {
    let longest = "a".repeat(65535);
    let too_long = "a".repeat(65536);
    assert_eq!(parse_header(&format!("{}: v", longest)), Some(header(&longest, "v")));
    assert_eq!(parse_header(&format!("{}: v", too_long)), None);
    let sixty_four = "B".repeat(64);
    let sixty_five = "B".repeat(65);
    assert_eq!(parse_header(&format!("{}: v", sixty_four)), Some(header(&"b".repeat(64), "v")));
    assert_eq!(parse_header(&format!("{}: v", sixty_five)), Some(header(&"b".repeat(65), "v")));
    assert_eq!(parse_header(&format!("{} x: v", sixty_five)), None);
}

#[test]
fn values_that_http_refuses_are_skipped() {
    assert_eq!(parse_header("x: a\u{7f}b"), None);
    assert_eq!(parse_header("x: a\u{1}b"), None);
    assert_eq!(parse_header("x: a\nb"), None);
    assert_eq!(parse_header("x: a\u{0}b"), None);
    assert_eq!(parse_header("x: café"), Some(header("x", "café")));
    assert_eq!(parse_header("x: ~ !"), Some(header("x", "~ !")));
    assert_eq!(parse_header("x: a\u{80}b"), Some(header("x", "a\u{80}b")));
}

#[test]
fn lowercase_follows_unicode() {
    assert_eq!(parse_header("x: ÀÉÎ Σ"), Some(header("x", "àéî σ")));
    assert_eq!(parse_header("x: ΟΔΟΣ"), Some(header("x", "οδος")));
}

#[test]
fn first_occurrence_of_a_name_wins() {
    let headers = parse_headers(Some(lines(&[
        "X-Token: first",
        "Accept: text/html",
        "x-token: second",
        " X-TOKEN : third",
    ])));
    assert_eq!(headers, vec![header("x-token", "first"), header("accept", "text/html")]);
}

#[test]
fn malformed_entries_do_not_stop_the_rest() {
    let headers = parse_headers(Some(lines(&[
        "broken",
        "a: 1",
        "b: 2: 3",
        "bad name: x",
        "c: 3",
        "a: 4",
        "d: bad\u{7f}",
    ])));
    assert_eq!(headers, vec![header("a", "1"), header("c", "3")]);
}

#[test]
fn skipped_entry_does_not_claim_its_name() {
    let headers = parse_headers(Some(lines(&["a: bad\u{1}", "a: good"])));
    assert_eq!(headers, vec![header("a", "good")]);
}

#[test]
fn parsed_headers_are_accepted_by_the_http_types() {
    let headers = parse_headers(Some(lines(&["X-One: 1", "X-Two: two words", "x-three:"])));
    assert_eq!(headers.len(), 3);
    for h in headers.iter() {
        assert!(h.name.parse::<reqwest::header::HeaderName>().is_ok());
        assert!(h.value.parse::<reqwest::header::HeaderValue>().is_ok());
    }
}

#[test]
fn split_entry_keeps_the_sides_as_they_stand() {
    assert_eq!(split_entry(" Key : Value "), Some((" Key ".to_string(), " Value ".to_string())));
    assert_eq!(split_entry(":"), Some(("".to_string(), "".to_string())));
    assert_eq!(split_entry("a:"), Some(("a".to_string(), "".to_string())));
    assert_eq!(split_entry(":b"), Some(("".to_string(), "b".to_string())));
    assert_eq!(split_entry("é:ü"), Some(("é".to_string(), "ü".to_string())));
    assert_eq!(split_entry(""), None);
    assert_eq!(split_entry("ab"), None);
    assert_eq!(split_entry("a:b:c"), None);
    assert_eq!(split_entry("a::"), None);
}

#[test]
fn normalize_trims_and_lowercases() {
    assert_eq!(normalize("  MiXed Case\t"), "mixed case");
    assert_eq!(normalize(""), "");
    assert_eq!(normalize(" \t\n "), "");
    assert_eq!(normalize("a"), "a");
    assert_eq!(normalize("\u{2028}X Y\u{85}"), "x y");
    assert_eq!(normalize("İ"), "i\u{307}");
    for text in ["  Hello World  ", "ÄÖÜ", "\tTab", "none", " a b ", "ΣΑΣ "] {
        assert_eq!(normalize(text), text.trim().to_lowercase());
    }
}

#[test]
fn make_header_takes_what_http_accepts() {
    assert_eq!(make_header("x-a".to_string(), "v".to_string()), Some(header("x-a", "v")));
    assert_eq!(make_header("X-A".to_string(), "V".to_string()), Some(header("X-A", "V")));
    assert_eq!(make_header("".to_string(), "v".to_string()), None);
    assert_eq!(make_header("x a".to_string(), "v".to_string()), None);
    assert_eq!(make_header("x:a".to_string(), "v".to_string()), None);
    assert_eq!(make_header("x-a".to_string(), "v\r\n".to_string()), None);
    assert_eq!(make_header("x-a".to_string(), "\u{7f}".to_string()), None);
    assert_eq!(make_header("x-a".to_string(), "\t ".to_string()), Some(header("x-a", "\t ")));
}

#[test]
fn every_ascii_character_is_judged_as_http_judges_it() {
    let allowed = "!#$%&'*+-.^_`|~";
    for code in 0u8..128 {
        let c = code as char;
        let in_name = c.is_ascii_alphanumeric() || allowed.contains(c);
        let in_value = c == '\t' || (code >= 32 && code != 127);
        let made = make_header(c.to_string(), "v".to_string());
        assert_eq!(made.is_some(), in_name);
        let made = make_header("n".to_string(), c.to_string());
        assert_eq!(made.is_some(), in_value);
    }
}
