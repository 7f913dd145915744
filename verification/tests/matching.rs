use regex_matcher::direct;
use regex_matcher::matcher;
use regex_matcher::matcher::Matcher;
use regex_matcher::parse::pattern_ok;
use regex_matcher::parse::Single;
use regex_matcher::parse::Token;
use regex_matcher::parse::Tokenize;

#[test]
fn same_results() {
    for (regexp, text) in [
        ("^abacus$", "abacus"),
        (".*frog", "aaaaafrog"),
        ("nomatch", "wat"),
    ] {
        let a = direct::match_regexp(regexp, text);
        let b = matcher::match_regexp(regexp, text);
        assert_eq!(
            a, b,
            "example failed: {text} =~ /{regexp}/; direct={a}, matcher={b}"
        );
    }
}

fn both(regexp: &str, text: &str) -> bool {
    let a = direct::match_regexp(regexp, text);
    let b = matcher::match_regexp(regexp, text);
    assert_eq!(a, b, "matchers disagree on {text} =~ /{regexp}/");
    a
}

#[test]
fn empty_pattern_matches_everything() {
    assert!(both("", ""));
    assert!(both("", "anything"));
}

#[test]
fn anchoring() {
    assert!(both("^abc$", "abc"));
    assert!(!both("^abc$", "xabc"));
    assert!(!both("^abc$", "abcx"));
    assert!(both("^ab", "abcd"));
    assert!(!both("^ab", "cab"));
    assert!(both("cd$", "abcd"));
    assert!(!both("cd$", "cdx"));
}

#[test]
fn anchors_on_empty_text() {
    assert!(both("^$", ""));
    assert!(!both("^$", "a"));
    assert!(both("$", ""));
    assert!(both("$", "abc"));
    assert!(both("^", "anything"));
}

#[test]
fn wildcard_needs_one_character() {
    assert!(both("a.c", "abc"));
    assert!(!both("a.c", "ac"));
    assert!(both("a.c", "a.c"));
}

#[test]
fn repetition_includes_zero() {
    assert!(both("ab*c", "ac"));
    assert!(both("ab*c", "abbbc"));
    assert!(both("a.*c", "axyzc"));
    assert!(both("^.*$", ""));
    assert!(!both("ab*c", "axc"));
}

#[test]
fn unanchored_search_scans_offsets() {
    assert!(both("frog", "aaaafrogzzz"));
    assert!(both("o", "frog"));
    assert!(!both("frog", "aaaafroz"));
}

#[test]
fn no_match() {
    assert!(!both("nomatch", "wat"));
}

#[test]
fn star_is_not_an_atom_on_its_own() {
    // A leading `*` has no atom before it and stands for itself.
    assert!(both("*", "ab*cd"));
    assert!(!both("*", "abcd"));
    assert!(both("^*a$", "*a"));
}

#[test]
fn ill_placed_anchors_are_rejected() {
    assert!(!pattern_ok("a$b"));
    assert!(!pattern_ok("a^b"));
    assert!(!pattern_ok("$$"));
    assert!(pattern_ok("^abc$"));
    assert!(pattern_ok("^"));
    assert!(pattern_ok("$"));
    assert!(pattern_ok("ab*"));
    assert!(!"a$b".tokenize().well_formed());
    assert!("^a.b*$".tokenize().well_formed());
}

#[test]
fn tokenize_is_repeatable() {
    let first = "^a.b*$".tokenize();
    let second = "^a.b*$".tokenize();
    assert_eq!(first, second);
}

#[test]
fn tokenize_emits_the_expected_symbols() {
    let tokens = "^a.b*$".tokenize();
    assert_eq!(tokens.len(), 5);
    assert_eq!(tokens.get(0), Token::Start);
    assert_eq!(tokens.get(1), Token::Single(Single::Literal('a')));
    assert_eq!(tokens.get(2), Token::Single(Single::Any));
    assert_eq!(tokens.get(3), Token::ZeroOrMore(Single::Literal('b')));
    assert_eq!(tokens.get(4), Token::End);
    assert_eq!(
        "c*".tokenize().into_vec(),
        vec![Token::ZeroOrMore(Single::Literal('c'))]
    );
    assert_eq!(".".tokenize().into_vec(), vec![Token::Single(Single::Any)]);
}

#[test]
fn kinds_from_characters() {
    assert_eq!(Single::from('.'), Single::Any);
    assert_eq!(Single::from('x'), Single::Literal('x'));
}

#[test]
fn one_matcher_serves_many_texts() {
    let m = Matcher::new("ab".tokenize());
    assert!(m.is_match("xxabyy"));
    assert!(m.is_match("ab"));
    assert!(!m.is_match("a"));
}
