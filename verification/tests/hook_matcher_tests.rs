use jcode_tools::hooks::HookMatcher;

#[test]
fn exact_match() {
    let m = HookMatcher::parse("bash");
    assert!(m.matches("bash"));
    assert!(!m.matches("jsbash"));
}

#[test]
fn alternation_match() {
    let m = HookMatcher::parse("bash|jsbash|grep");
    assert!(m.matches("bash"));
    assert!(m.matches("jsbash"));
    assert!(m.matches("grep"));
    assert!(!m.matches("read"));
}

#[test]
fn wildcard_match() {
    let m = HookMatcher::parse("*");
    assert!(m.matches("anything"));
    assert!(m.matches("bash"));
}

#[test]
fn empty_is_wildcard() {
    let m = HookMatcher::parse("   ");
    assert!(m.matches("x"));
}

#[test]
fn whitespace_trimmed_in_alternation() {
    let m = HookMatcher::parse(" bash | jsbash ");
    assert!(m.matches("bash"));
    assert!(m.matches("jsbash"));
}

#[test]
fn a_star_in_a_list_matches_everything() {
    let m = HookMatcher::parse("bash|*");
    assert!(m.matches("read"));
    assert_eq!(m.raw(), "bash|*");
}

#[test]
fn empty_pieces_match_nothing() {
    let m = HookMatcher::parse("|bash||");
    assert!(m.matches("bash"));
    assert!(!m.matches(""));
}

#[test]
fn an_alternation_matches_what_either_half_matches() {
    for (a, b) in [
        ("bash", " grep "),
        ("bash|ls", "cat"),
        (" * ", "bash"),
        ("|", "bash|"),
    ] {
        let both = HookMatcher::parse(&format!("{a}|{b}"));
        let (left, right) = (HookMatcher::parse(a), HookMatcher::parse(b));
        for tool in ["bash", "grep", "ls", "cat", "*", "", "|"] {
            assert_eq!(
                both.matches(tool),
                left.matches(tool) || right.matches(tool),
                "{a}|{b} on {tool}"
            );
        }
    }
}
