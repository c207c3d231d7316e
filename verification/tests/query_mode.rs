use repo_link::search::query_mode::{classify, identifier_tokens, is_identifier_token, QueryMode};

#[test]
fn explicit_exact_wins() {
    assert_eq!(classify("search index", true), QueryMode::Exact);
}

#[test]
fn identifier_shapes() {
    for q in [
        "snake_case merge",
        "dashed-name",
        "rpl-3jj",
        "Foo/bar",
        "a::b",
        "issue #273",
        "camelCaseThing",
        "HTTP500 error",
    ] {
        assert_eq!(classify(q, false), QueryMode::Identifier, "q={q}");
    }
}

#[test]
fn natural_prose() {
    for q in [
        "how does retry work",
        "search the index",
        "fix the booking carousel",
        "retry safe event processing",
    ] {
        assert_eq!(classify(q, false), QueryMode::Natural, "q={q}");
    }
}

#[test]
fn mixed_identifier_and_prose_is_identifier() {
    assert_eq!(
        classify("fix the rpl-3jj deadlock", false),
        QueryMode::Identifier
    );
}

#[test]
fn identifier_tokens_keep_their_order() {
    assert_eq!(
        identifier_tokens("fix snake_case and a::b now"),
        vec!["snake_case".to_string(), "a::b".to_string()]
    );
    assert!(identifier_tokens("plain words only").is_empty());
}

#[test]
fn case_and_space_are_those_of_unicode() {
    // A lower-case scalar before an upper-case one makes an identifier, beyond ASCII too.
    assert!(is_identifier_token("éÉé"));
    assert!(!is_identifier_token("été"));
    assert_eq!(
        identifier_tokens("été\u{2003}a_b"),
        vec!["a_b".to_string()]
    );
}

#[test]
fn exact_wins_over_identifier_shape() {
    assert_eq!(classify("rpl-3jj", true), QueryMode::Exact);
}

#[test]
fn identifier_mode_has_a_token() {
    for q in ["fix the rpl-3jj deadlock", "a::b", "HTTP500 error"] {
        assert_eq!(classify(q, false), QueryMode::Identifier);
        assert!(!identifier_tokens(q).is_empty());
    }
}

#[test]
fn identifier_tokens_are_stable() {
    let query = "fix the rpl-3jj  deadlock in a::b, see HTTP500 a::b";
    let tokens = identifier_tokens(query);
    assert_eq!(tokens, vec!["rpl-3jj", "a::b,", "HTTP500", "a::b"]);
    assert_eq!(identifier_tokens(&tokens.join(" ")), tokens);
    assert_eq!(identifier_tokens(&tokens.join("\n")), tokens);
}

#[test]
fn ascii_capitals_and_small_letters() {
    for c in (0u8..=127).map(char::from) {
        let mark = matches!(c, '_' | '/' | '#' | '-');
        let capital = ('A'..='Z').contains(&c);
        let small = ('a'..='z').contains(&c);
        let digit = ('0'..='9').contains(&c);
        assert_eq!(is_identifier_token(&format!("a{c}")), mark || capital, "c={c:?}");
        assert_eq!(
            is_identifier_token(&format!("{c}A")),
            mark || capital || small || digit,
            "c={c:?}"
        );
    }
}
