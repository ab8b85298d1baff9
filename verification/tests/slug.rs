use music_blog::domain::{slug_from_lowercase, slugify, validate_slug, AppState, Post};
use music_blog::error::Error;

fn validation_message(r: Result<(), Error>) -> String {
    match r {
        Err(Error::ValidationError(m)) => m,
        _ => panic!("expected a validation error"),
    }
}

#[test]
fn slugify_takes_three_lowercased_words() {
    assert_eq!(slugify("Hello World Foo Bar"), "hello-world-foo");
}

#[test]
fn slugify_drops_other_characters() {
    assert_eq!(slugify("Rock & Roll!"), "rock-roll");
    assert_eq!(slugify("C++ is fun"), "c-is-fun");
}

#[test]
fn slugify_collapses_and_trims_dashes() {
    assert_eq!(slugify("--a--b--"), "a-b");
    assert_eq!(slugify("  -Hi-  there "), "hi-there");
}

#[test]
fn slugify_falls_back_to_post() {
    assert_eq!(slugify(""), "post");
    assert_eq!(slugify("!!! ???"), "post");
    assert_eq!(slugify("   "), "post");
}

#[test]
fn slugify_lowercases_unicode_first() {
    assert_eq!(slugify("ÄBC Déf"), "bc-df");
    // The Kelvin sign lowercases to an ASCII `k`.
    assert_eq!(slugify("\u{212A}ey"), "key");
}

#[test]
fn slugify_cuts_long_titles_at_fifty() {
    // "a"x48 + "-bc" has 51 characters; cut at 50 it ends with "-b".
    let title = format!("{} bc", "a".repeat(48));
    assert_eq!(slugify(&title), format!("{}-b", "a".repeat(48)));
    // Cut at 50 the x's stay.
    let title2 = format!("{} c", "x".repeat(50));
    assert_eq!(slugify(&title2), "x".repeat(50));
    // "y"x49 + "-c" cut at 50 ends with '-', which is dropped.
    let title3 = format!("{} c", "y".repeat(49));
    assert_eq!(slugify(&title3), "y".repeat(49));
}

#[test]
fn slugify_results_pass_validation_when_long_enough() {
    for title in ["My First Post", "ab", "Hello, world!", "x", "", "Ümlaut über alles"] {
        let s = slugify(title);
        assert!(!s.is_empty() && s.len() <= 50);
        assert_eq!(validate_slug(&s).is_ok(), s.len() >= 3, "{}", s);
    }
}

#[test]
fn slugs_are_lowercase_and_their_own_slug() {
    for title in ["My First Post", "ÄBC Déf", "\u{212A}ey", "Rock & Roll!", "A--B  C D", ""] {
        let s = slugify(title);
        assert!(s.chars().all(|c| c.is_ascii_lowercase() || c.is_ascii_digit() || c == '-'), "{}", s);
        assert!(!s.starts_with('-') && !s.ends_with('-') && !s.contains("--"), "{}", s);
        assert_eq!(slugify(&s), s);
    }
}

#[test]
fn slug_from_already_lowercased_text() {
    assert_eq!(slug_from_lowercase("hello world foo bar"), "hello-world-foo");
    // Capitals are kept as they are: lowercasing is the caller's part.
    assert_eq!(slug_from_lowercase("Hello World"), "Hello-World");
    assert_eq!(slug_from_lowercase("  --  "), "post");
}

#[test]
fn validate_slug_rules_in_order() {
    assert!(validate_slug("abc").is_ok());
    assert!(validate_slug("my-first-post").is_ok());
    assert_eq!(validation_message(validate_slug("")), "Slug empty");
    assert_eq!(validation_message(validate_slug("ab")), "Slug length error");
    assert_eq!(validation_message(validate_slug(&"a".repeat(51))), "Slug length error");
    assert_eq!(validation_message(validate_slug("-abc")), "Slug start/end contains '-'");
    assert_eq!(validation_message(validate_slug("abc-")), "Slug start/end contains '-'");
    assert_eq!(validation_message(validate_slug("a--b")), "Slug contains '--'");
    assert_eq!(validation_message(validate_slug("ab c")), "Slug grammar is not correct");
    // Length counts bytes: two 2-byte characters make 4 bytes.
    assert_eq!(validation_message(validate_slug("éé")), "Slug grammar is not correct");
    assert_eq!(validation_message(validate_slug("é")), "Slug length error");
}

fn post(id: u32, slug: &str) -> Post {
    Post {
        id,
        slug: slug.to_string(),
        text: String::new(),
        title: String::new(),
        filename: None,
        file_data: None,
    }
}

#[test]
fn find_post_by_slug_gives_the_first() {
    let mut state = AppState::new();
    assert!(state.find_post_by_slug("abc").is_none());
    state.posts.push(post(1, "abc"));
    state.posts.push(post(2, "def"));
    state.posts.push(post(3, "abc"));
    assert_eq!(state.find_post_by_slug("abc").unwrap().id, 1);
    assert_eq!(state.find_post_by_slug("def").unwrap().id, 2);
    assert!(state.find_post_by_slug("ab").is_none());
}

#[test]
fn navigation_lists_posts_and_marks_current() {
    let mut state = AppState::new();
    for i in 1..=11 {
        state.posts.push(post(i, &format!("p{}", i)));
    }
    let nav = state.generate_navigation("/post/p11");
    assert_eq!(nav.len(), 11);
    assert_eq!(nav[0].title, "POST 1");
    assert_eq!(nav[0].url, "/post/p1");
    assert!(!nav[0].is_current);
    assert_eq!(nav[10].title, "POST 11");
    assert_eq!(nav[10].url, "/post/p11");
    assert!(nav[10].is_current);
    assert!(state.generate_navigation("/").iter().all(|n| !n.is_current));
}
