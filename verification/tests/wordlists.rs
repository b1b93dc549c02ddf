use ruster::wordlist::{get_wordlist, get_wordlist_with_ext, keep_line, parse_uas};

fn lines(texts: &[&str]) -> Vec<String> {
    texts.iter().map(|t| t.to_string()).collect()
}

#[test]
fn blank_and_comment_lines_are_ignored() {
    assert!(keep_line("admin"));
    assert!(keep_line(" #not a comment"));
    assert!(keep_line(" "));
    assert!(keep_line("a#b"));
    assert!(!keep_line(""));
    assert!(!keep_line("#"));
    assert!(!keep_line("# comment"));
    assert_eq!(
        get_wordlist(&lines(&["# list", "admin", "", "login", "#x", "é", " "])),
        lines(&["admin", "login", "é", " "])
    );
    assert_eq!(get_wordlist(&lines(&[])), lines(&[]));
    assert_eq!(get_wordlist(&lines(&["", "#", "#a"])), lines(&[]));
}

#[test]
fn extension_expansion_is_extension_major() {
    let out = get_wordlist_with_ext(
        lines(&["admin", "login"]),
        Some(lines(&["%.php", "%.bak"])),
        false,
        "http://example.com",
    );
    assert_eq!(out, lines(&["admin.php", "login.php", "admin.bak", "login.bak"]));
}

#[test]
fn extension_expansion_has_every_combination() {
    let words = lines(&["a", "b", "c"]);
    let extensions = lines(&["%", "%.x", "pre-%-post", "%%"]);
    let out = get_wordlist_with_ext(words.clone(), Some(extensions.clone()), false, "t");
    assert_eq!(out.len(), 12);
    for (e, extension) in extensions.iter().enumerate() {
        for (w, word) in words.iter().enumerate() {
            assert_eq!(out[e * words.len() + w], extension.replace("%", word));
        }
    }
}

#[test]
fn extension_lines_are_filtered_too() {
    let out = get_wordlist_with_ext(
        lines(&["#c", "admin", ""]),
        Some(lines(&["", "# extensions", "%.php"])),
        false,
        "t",
    );
    assert_eq!(out, lines(&["admin.php"]));
}

#[test]
fn extension_without_marker_is_kept_as_it_is() {
    let out = get_wordlist_with_ext(lines(&["admin", "login"]), Some(lines(&["fixed"])), false, "t");
    assert_eq!(out, lines(&["fixed", "fixed"]));
}

#[test]
fn empty_extension_list_gives_no_words() {
    let out = get_wordlist_with_ext(lines(&["admin", "login"]), Some(lines(&[])), false, "t");
    assert_eq!(out, lines(&[]));
    let out = get_wordlist_with_ext(lines(&[]), Some(lines(&["%.php"])), true, "t");
    assert_eq!(out, lines(&[]));
}

#[test]
fn without_extensions_the_words_pass_through() {
    let out = get_wordlist_with_ext(lines(&["admin", "#no", "login"]), None, false, "example.com");
    assert_eq!(out, lines(&["admin", "login"]));
}

#[test]
fn subdomains_flag_appends_the_target() {
    let out = get_wordlist_with_ext(lines(&["api", "dev"]), None, true, "example.com");
    assert_eq!(out, lines(&["api.example.com", "dev.example.com"]));
    let out =
        get_wordlist_with_ext(lines(&["api", "dev"]), Some(lines(&["%-v2"])), true, "example.com");
    assert_eq!(out, lines(&["api-v2.example.com", "dev-v2.example.com"]));
}

#[test]
fn user_agents_are_filtered_like_words() {
    assert_eq!(parse_uas(None), lines(&[]));
    assert_eq!(parse_uas(Some(lines(&[]))), lines(&[]));
    assert_eq!(
        parse_uas(Some(lines(&["# agents", "Mozilla/5.0", "", "curl/8.0"]))),
        lines(&["Mozilla/5.0", "curl/8.0"])
    );
}
