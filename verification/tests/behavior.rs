use fregex::matcher::Regex;
use fregex::multimatcher::MultiRegex;
use fregex::types::Error;
use fregex::RegexMatcher;

fn first_offsets<M: RegexMatcher>(matcher: &M, text: &str) -> Option<(usize, usize)> {
    matcher.find(text).map(|m| (m.start(), m.end()))
}

#[test]
fn find_matches_the_engine_on_every_strategy() {
    // One pattern per strategy, checked byte for byte against the engine.
    let cases: &[(&str, &str)] = &[
        ("pattern", "text with pattern"),      // literal
        ("p..ce", "piece peace pounce"),       // longest
        ("ba(se)+", "multiple ba ba but only one is base"),  // prefix
        ("(text)? not even prefix", "has text not even prefix"),  // nothing
    ];
    for (pattern, text) in cases {
        let ours = Regex::new(pattern).unwrap().find(text);
        let truth = regex::Regex::new(pattern).unwrap().find(text);
        match (ours, truth) {
            (Some(a), Some(b)) => {
                assert_eq!(a.start(), b.start(), "start differs for {:?}", pattern);
                assert_eq!(a.end(), b.end(), "end differs for {:?}", pattern);
                assert_eq!(a.as_str(), b.as_str(), "text differs for {:?}", pattern);
            },
            (None, None) => {},
            _ => panic!("presence differs for {:?}", pattern),
        }
    }
}

#[test]
fn find_is_idempotent() {
    let regex = Regex::new("p..ce").unwrap();
    let first = regex.find("piece peace pounce").unwrap();
    let second = regex.find("piece peace pounce").unwrap();
    assert_eq!(first.start(), second.start());
    assert_eq!(first.end(), second.end());
    assert_eq!(first.as_str(), second.as_str());

    let multi = MultiRegex::new(&["alpha", "beta"]).unwrap();
    let first = multi.find("alpha beta gamma delta").unwrap();
    let second = multi.find("alpha beta gamma delta").unwrap();
    assert_eq!((first.start(), first.end()), (second.start(), second.end()));
}

#[test]
fn leftmost_wins_whatever_the_list_order() {
    let one = MultiRegex::new(&["alpha", "beta"]).unwrap();
    let two = MultiRegex::new(&["beta", "alpha"]).unwrap();
    let a = one.find("alpha beta gamma delta").unwrap();
    let b = two.find("alpha beta gamma delta").unwrap();
    assert_eq!((a.start(), a.end()), (0, 5));
    assert_eq!((b.start(), b.end()), (0, 5));

    let three = MultiRegex::new(&["delta", "beta"]).unwrap();
    let c = three.find("alpha beta gamma delta").unwrap();
    assert_eq!((c.start(), c.end()), (6, 10));
}

#[test]
fn matched_text_borrows_the_right_bytes() {
    let regex = Regex::new("pattern").unwrap();
    let m = regex.find("text with pattern").unwrap();
    assert_eq!((m.start(), m.end()), (10, 17));
    assert_eq!(m.as_str(), "pattern");

    let regex = Regex::new("ba(se)+").unwrap();
    let m = regex.find("multiple ba ba but only one is base").unwrap();
    assert_eq!(m.as_str(), "base");

    let regex = Regex::new("\\$\\(\\)\\$").unwrap();
    let m = regex.find("text with $()$ chars").unwrap();
    assert_eq!(m.as_str(), "$()$");
}

#[test]
fn is_match_agrees_with_find() {
    let regex = Regex::new("p..ce").unwrap();
    assert!(regex.is_match("piece peace pounce"));
    assert!(!regex.is_match("no such word"));

    let multi = MultiRegex::new(&["alpha", "beta"]).unwrap();
    assert!(multi.is_match("nothing alpha nothing"));
    assert!(!multi.is_match("gamma delta"));
}

#[test]
fn construction_errors_are_reported() {
    // A pattern the engine rejects surfaces as a syntax error.
    assert!(matches!(Regex::new("ba(se"), Err(Error::Syntax(_))));
    assert!(matches!(MultiRegex::new(&["fine", "ba(se"]), Err(Error::Syntax(_))));

    // No pattern at all is an argument error.
    assert!(matches!(MultiRegex::new(&[]), Err(Error::Argument(_))));

    // An all-literal set with a pattern shorter than one block is degenerate.
    assert!(matches!(MultiRegex::new(&["ab", "c"]), Err(Error::Argument(_))));
}

#[test]
fn multiline_repetition_uses_the_line_window() {
    // Unbounded repetition on a multiline-capable pattern: the candidate's
    // whole line is handed to the engine for verification.
    let regex = Regex::new("[^s]yy*").unwrap();
    let m = regex.find("text with \nyd").unwrap();
    assert_eq!((m.start(), m.end()), (10, 12));
    assert_eq!(m.as_str(), "\ny");
}

#[test]
fn empty_pattern_matches_at_the_start() {
    let regex = Regex::new("").unwrap();
    let m = regex.find("anything").unwrap();
    assert_eq!((m.start(), m.end()), (0, 0));
    assert_eq!(m.as_str(), "");
}

#[test]
fn trait_dispatch_reaches_both_matchers() {
    let single = Regex::new("pattern").unwrap();
    let multi = MultiRegex::new(&["pattern", "not present"]).unwrap();
    assert_eq!(first_offsets(&single, "text with pattern"), Some((10, 17)));
    assert_eq!(first_offsets(&multi, "text with pattern"), Some((10, 17)));
    assert_eq!(first_offsets(&single, "nothing here"), None);
}
