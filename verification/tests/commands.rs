use papyrust::commands::slug;
use papyrust::config::{default_language, default_publisher, TrimSize};

#[test]
fn slug_lowercases_and_dashes() {
    assert_eq!(slug("The Long Road"), "the-long-road");
}

#[test]
fn slug_collapses_runs_and_trims_dashes() {
    assert_eq!(slug("  Hello,  World!! "), "hello-world");
    assert_eq!(slug("--a--b--"), "a-b");
}

#[test]
fn slug_drops_non_ascii_letters() {
    assert_eq!(slug("Café Noir 2"), "caf-noir-2");
}

#[test]
fn slug_of_nothing_usable_is_book() {
    assert_eq!(slug(""), "book");
    assert_eq!(slug("!!! ???"), "book");
}

#[test]
fn slug_is_file_system_safe() {
    for title in ["A/B\\C", "..", "x\ny", "ÄÖÜ", "-Lead-Trail-"] {
        let s = slug(title);
        assert!(!s.is_empty());
        assert!(s.chars().all(|c| c.is_ascii_lowercase() || c.is_ascii_digit() || c == '-'));
        assert!(!s.starts_with('-') && !s.ends_with('-'));
        assert!(!s.contains("--"));
    }
}

#[test]
fn trim_slugs_match_book_toml_spelling() {
    assert_eq!(TrimSize::FiveByEight.slug(), "5x8");
    assert_eq!(TrimSize::FiveFiveByEightFive.slug(), "5.5x8.5");
    assert_eq!(TrimSize::SixByNine.slug(), "6x9");
}

#[test]
fn config_defaults() {
    assert_eq!(default_language(), "en-US");
    assert_eq!(default_publisher(), "Self-Published");
}

#[test]
fn slugging_a_slug_changes_nothing() {
    for title in ["The Long Road", "  Hello,  World!! ", "", "ÄÖÜ", "a-b-c"] {
        let once = slug(title);
        assert_eq!(slug(&once), once);
    }
}
