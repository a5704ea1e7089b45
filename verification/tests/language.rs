use clipforge::language::{picker_index, picker_options, picker_preference, Language, LanguagePreference};

#[test]
fn parses_tags_in_all_common_shapes() {
    for tag in ["de", "DE", "de-DE", "de_AT", "de_DE.UTF-8", "de-CH@euro"] {
        assert_eq!(Language::from_tag(tag), Some(Language::German), "{tag}");
    }
    for tag in ["en", "en-US", "en_GB.UTF-8"] {
        assert_eq!(Language::from_tag(tag), Some(Language::English), "{tag}");
    }
    assert_eq!(Language::from_tag("fr-FR"), None);
    assert_eq!(Language::from_tag(""), None);
}

#[test]
fn codes_are_unique_and_lowercase() {
    let codes: Vec<_> = Language::all().iter().map(|l| l.code()).collect();
    assert_eq!(codes, ["en", "de"]);
    for l in Language::all() {
        assert_eq!(Language::from_tag(l.code()), Some(l));
    }
}

#[test]
fn system_never_panics_and_fixed_wins() {
    let _ = Language::system();
    assert_eq!(LanguagePreference::Fixed(Language::German).resolve(), Language::German);
}

#[test]
fn first_known_locale_wins_and_english_is_the_fallback() {
    let tags = vec!["fr-FR".to_owned(), "de-AT".to_owned(), "en-US".to_owned()];
    assert_eq!(Language::from_locales(&tags), Language::German);
    assert_eq!(Language::from_locales(&vec!["ja".to_owned()]), Language::English);
    assert_eq!(Language::from_locales(&Vec::new()), Language::English);
}

#[test]
fn native_names_and_defaults() {
    assert_eq!(Language::German.native_name(), "Deutsch");
    assert_eq!(Language::English.native_name(), "English");
    assert_eq!(Language::default(), Language::English);
    assert_eq!(LanguagePreference::default(), LanguagePreference::System);
    assert_eq!(Language::from_tag("d"), None);
    assert_eq!(Language::from_tag("deu"), None);
}

#[test]
fn index_and_preference_round_trip() {
    for pref in [
        LanguagePreference::System,
        LanguagePreference::Fixed(Language::English),
        LanguagePreference::Fixed(Language::German),
    ] {
        assert_eq!(picker_preference(picker_index(pref)), pref);
    }
    assert_eq!(picker_preference(-1), LanguagePreference::System);
    assert_eq!(picker_preference(99), LanguagePreference::System);
}

#[test]
fn picker_lists_system_then_native_names() {
    let opts = picker_options("Systemsprache");
    assert_eq!(opts, ["Systemsprache", "English", "Deutsch"]);
}

#[test]
fn picker_rows_follow_the_menu() {
    assert_eq!(picker_index(LanguagePreference::System), 0);
    assert_eq!(picker_index(LanguagePreference::Fixed(Language::English)), 1);
    assert_eq!(picker_index(LanguagePreference::Fixed(Language::German)), 2);
    assert_eq!(picker_preference(0), LanguagePreference::System);
    assert_eq!(picker_preference(2), LanguagePreference::Fixed(Language::German));
    assert_eq!(picker_preference(3), LanguagePreference::System);
}
