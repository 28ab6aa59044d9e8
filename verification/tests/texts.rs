use harbor_migrator::text::{chars_of, decimal_text, owned, replace, split_after, string_of, trim_end};

#[test]
fn characters_and_back() {
    let cs = chars_of("aüb");
    assert_eq!(cs, ['a', 'ü', 'b']);
    assert_eq!(string_of(&cs, 0, 3), "aüb");
    assert_eq!(string_of(&cs, 1, 2), "ü");
    assert_eq!(string_of(&cs, 2, 2), "");
    assert_eq!(owned("aüb"), "aüb");
}

#[test]
fn trim_end_matches_the_standard_function() {
    for s in ["", "/", "a", "a/", "a//", "/a/", "a/b"] {
        assert_eq!(trim_end(s, '/'), s.trim_end_matches('/'));
    }
}

#[test]
fn replace_matches_the_standard_function() {
    for s in ["", "aa", "aaa", "aaaa", "abab", "baab", "xaaax"] {
        assert_eq!(replace(s, "aa", "b"), s.replace("aa", "b"));
        assert_eq!(replace(s, "a", "aa"), s.replace("a", "aa"));
        assert_eq!(replace(s, "abc", ""), s.replace("abc", ""));
    }
}

#[test]
fn split_after_matches_the_standard_function() {
    for s in ["", "/", "a", "a/b", "a/b/c", "/a", "a/"] {
        assert_eq!(
            split_after(s, '/'),
            s.split_once('/').map(|(_, rest)| rest.to_string())
        );
    }
}

#[test]
fn decimal_matches_the_standard_function() {
    for n in [0, 1, 9, 10, 99, 100, 101, 1_000_000, usize::MAX] {
        assert_eq!(decimal_text(n), n.to_string());
    }
}
