use courseforge::slug::{slugify, unique_slug_in};

#[test]
fn slugify_lowercases_and_hyphenates_words() {
    assert_eq!(slugify("Hello World"), "hello-world");
}

#[test]
fn slugify_strips_punctuation_and_collapses_separators() {
    assert_eq!(slugify("Intro to Rust: Part 1!"), "intro-to-rust-part-1");
    assert_eq!(slugify("  spaced   out  "), "spaced-out");
    assert_eq!(slugify("foo/bar_baz"), "foo-bar-baz");
}

#[test]
fn slugify_falls_back_when_no_alphanumerics() {
    assert_eq!(slugify(""), "course");
    assert_eq!(slugify("   "), "course");
    assert_eq!(slugify("!!!"), "course");
}

#[test]
fn unique_slug_in_returns_base_when_no_collision() {
    let taken: Vec<String> = Vec::new();
    assert_eq!(unique_slug_in(&taken, "Hello World"), "hello-world");
}

#[test]
fn unique_slug_in_appends_numeric_suffix_on_collision() {
    let mut taken: Vec<String> = vec!["hello-world".to_string()];
    assert_eq!(unique_slug_in(&taken, "Hello World"), "hello-world-2");

    taken.push("hello-world-2".to_string());
    assert_eq!(unique_slug_in(&taken, "Hello World"), "hello-world-3");
}

#[test]
fn slugify_is_idempotent_on_its_own_output() {
    for title in ["Hello World", "  A--B  ", "Ünïcode Title 9", "!!!", "x"] {
        let once = slugify(title);
        assert_eq!(slugify(&once), once);
    }
}
