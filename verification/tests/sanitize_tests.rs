use music_organizer::sanitize::sanitize;

#[test]
fn forbidden_characters_are_stripped() {
    assert_eq!(sanitize("AC/DC"), "ACDC");
    assert_eq!(sanitize("a<b>c:d\"e/f\\g|h?i*j"), "abcdefghij");
    assert_eq!(sanitize("plain name"), "plain name");
}

#[test]
fn edge_dots_become_underscores() {
    assert_eq!(sanitize(".hidden"), "_hidden");
    assert_eq!(sanitize("name."), "name_");
    assert_eq!(sanitize("."), "_");
    assert_eq!(sanitize(".."), "__");
}

#[test]
fn all_forbidden_input_gets_a_placeholder() {
    assert_eq!(sanitize("///"), "_");
    assert_eq!(sanitize("?*"), "_");
}

#[test]
fn empty_input_stays_empty() {
    assert_eq!(sanitize(""), "");
}

#[test]
fn sanitizing_twice_changes_nothing() {
    for s in [
        "AC/DC",
        ".hidden.",
        "///",
        "",
        "normal",
        "a.b.c.",
        "<<<>.",
        "Grea?test* Hits.",
    ] {
        let once = sanitize(s);
        let twice = sanitize(&once);
        assert_eq!(once, twice);
    }
}

#[test]
fn output_never_holds_forbidden_characters() {
    for s in ["x<y", "a|b?c", "tr*ck:1/2\\3\"4"] {
        let out = sanitize(s);
        for c in ['<', '>', ':', '"', '/', '\\', '|', '?', '*'] {
            assert!(!out.contains(c));
        }
        assert!(!out.starts_with('.'));
        assert!(!out.ends_with('.'));
    }
}
