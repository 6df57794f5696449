use fregex::framework::CompileFlags;
use fregex::matchers::LiteralMatcher;
use fregex::matchers::LongestMatcher;
use fregex::multimatchers::wumanber::WuManber;
use fregex::parser::Parser;
use fregex::parser::ParseResult;
use fregex::preprocessor::Preprocessor;
use fregex::preprocessor::Suggestion;
use fregex::regex_parser::ParseResult as CharResult;
use fregex::regex_parser::RegexParser;
use fregex::types::Error;
use fregex::types::Match;

#[test]
fn classifier_picks_the_cheapest_strategy() {
    let cases: &[(&str, Suggestion)] = &[
        ("pattern", Suggestion::Literal),
        ("\\.rs", Suggestion::Literal),
        ("p..ce", Suggestion::Longest),
        ("[^s]yy*", Suggestion::Longest),
        ("C[a-z]*a", Suggestion::Longest),
        ("ba(se)+", Suggestion::Prefix),
        ("a\nb+", Suggestion::Prefix),
        ("(text)? not even prefix", Suggestion::Nothing),
        ("\\$\\(\\)\\$", Suggestion::Nothing),
    ];
    for (pattern, expected) in cases {
        let suggestion = Preprocessor::new(pattern).determine_type().unwrap();
        assert!(suggestion == *expected, "wrong suggestion for {:?}", pattern);
    }
}

#[test]
fn classifier_rejects_invalid_patterns() {
    let result = Preprocessor::new("ba(se").determine_type();
    assert!(matches!(result, Err(Error::Syntax(_))));
}

#[test]
fn classifier_is_deterministic() {
    for pattern in ["pattern", "p..ce", "ba(se)+", "(x)y", "a\nb+"] {
        let first = Preprocessor::new(pattern).determine_type().unwrap();
        let second = Preprocessor::new(pattern).determine_type().unwrap();
        assert!(first == second);
    }
}

#[test]
fn match_exposes_its_parts() {
    let m = Match::new(3, 7, "abcd");
    assert_eq!(m.start(), 3);
    assert_eq!(m.end(), 7);
    assert_eq!(m.as_str(), "abcd");

    let bare = Match::from(2, 5);
    assert_eq!(bare.start(), 2);
    assert_eq!(bare.end(), 5);
    assert_eq!(bare.as_str(), "");
}

#[test]
fn wu_manber_finds_the_leftmost_pattern() {
    let wm = WuManber::new(&["alpha", "beta"], 2).unwrap();
    let (m, id) = wm.find("alpha beta gamma delta").unwrap();
    assert_eq!((m.start(), m.end(), id), (0, 5, 0));
    assert_eq!(m.as_str(), "alpha");

    let (m, id) = wm.find("xx beta yy alpha").unwrap();
    assert_eq!((m.start(), m.end(), id), (3, 7, 1));
    assert_eq!(m.as_str(), "beta");

    assert!(wm.find("gamma delta").is_none());
}

#[test]
fn wu_manber_respects_list_order_on_ties() {
    let wm = WuManber::new(&["abcd", "ab"], 2).unwrap();
    let (m, id) = wm.find("xx abcd").unwrap();
    // Both patterns start at offset 3; the one listed first wins.
    assert_eq!((m.start(), m.end(), id), (3, 7, 0));
}

#[test]
fn wu_manber_rejects_degenerate_input() {
    assert!(matches!(WuManber::new(&[], 2), Err(Error::Argument(_))));
    assert!(matches!(WuManber::new(&["a", "bc"], 2), Err(Error::Argument(_))));
    assert!(matches!(WuManber::new(&["abc"], 0), Err(Error::Argument(_))));
    assert!(matches!(WuManber::new(&["abc"], 4), Err(Error::Argument(_))));
}

#[test]
fn wu_manber_blocks_of_three() {
    let wm = WuManber::new(&["gamma", "delta"], 3).unwrap();
    let (m, id) = wm.find("alpha beta gamma delta").unwrap();
    assert_eq!((m.start(), m.end(), id), (11, 16, 0));
}

#[test]
fn parser_flags_change_the_reading() {
    let extended = CompileFlags { extended: true, ignore_case: false };
    let basic = CompileFlags { extended: false, ignore_case: false };

    assert!(Parser::new("abc", extended).determine_type() == ParseResult::UseLiteral);
    assert!(Parser::new("p..ce", extended).determine_type() == ParseResult::UseLongest);
    assert!(Parser::new("a*b", extended).determine_type() == ParseResult::UseNothing);
    // A plus is only special in the extended flavour.
    assert!(Parser::new("plus+", extended).determine_type() == ParseResult::UseNothing);
    assert!(Parser::new("plus+", basic).determine_type() == ParseResult::UseLiteral);
}

#[test]
fn regex_parser_reads_one_character_at_a_time() {
    let mut p = RegexParser::new(true);
    assert!(p.parse('\\') == CharResult::Nothing);
    assert!(p.parse('n') == CharResult::Character('\n'));
    assert!(p.parse('a') == CharResult::Character('a'));
    assert!(p.parse('*') == CharResult::Special('*'));
    assert!(p.parse('+') == CharResult::Special('+'));
    assert!(p.parse('\\') == CharResult::Nothing);
    assert!(p.parse('\\') == CharResult::Character('\\'));
    assert!(p.parse('\\') == CharResult::Nothing);
    assert!(p.parse('x') == CharResult::BadPattern);
    assert!(p.parse('\n') == CharResult::Character('\n'));

    let mut b = RegexParser::new(false);
    assert!(b.parse('+') == CharResult::Character('+'));
    assert!(b.parse('.') == CharResult::Special('.'));
}

#[test]
fn literal_and_longest_agree_on_plain_patterns() {
    // Round trip: a pattern without metacharacters behaves the same through
    // the verbatim search, the longest-fragment matcher, and the full engine.
    let cases: &[(&str, &str)] = &[
        ("pattern", "text with pattern"),
        ("many", "many many many many"),
        ("zebra", "no such animal here"),
    ];
    for (pattern, text) in cases {
        let lit = LiteralMatcher::new(pattern).find_bytes(text.as_bytes());
        let lon = LongestMatcher::new(pattern).unwrap().find_bytes(text.as_bytes());
        let engine = regex::Regex::new(pattern).unwrap().find(text).map(|m| (m.start(), m.end()));
        assert_eq!(lit, lon, "literal and longest disagree on {:?}", pattern);
        assert_eq!(lit, engine, "heuristic and engine disagree on {:?}", pattern);
    }
}
