use sound_fx::model::{SoundEffect, SoundFxApp};

fn strings(v: &[&str]) -> Vec<String> {
    v.iter().map(|s| s.to_string()).collect()
}

fn sound(id: u128, name: &str, tags: &[&str]) -> SoundEffect {
    SoundEffect { id, name: name.to_owned(), tags: strings(tags), folder_id: None, favorite: false }
}

#[test]
fn normalize_tag_trims_and_lowercases() {
    assert_eq!(SoundFxApp::normalize_tag("  MeMe \t"), Some("meme".to_owned()));
    assert_eq!(SoundFxApp::normalize_tag("Émoji"), Some("Émoji".to_owned()));
    assert_eq!(SoundFxApp::normalize_tag("   "), None);
    assert_eq!(SoundFxApp::normalize_tag(""), None);
}

#[test]
fn parse_tags_splits_dedups_and_skips_empty() {
    assert_eq!(
        SoundFxApp::parse_tags("Meme, short;; LOUD\nmeme ,"),
        strings(&["meme", "short", "loud"])
    );
    assert!(SoundFxApp::parse_tags(" , ;\n").is_empty());
    assert!(SoundFxApp::parse_tags("").is_empty());
}

#[test]
fn join_tags_uses_comma_space() {
    assert_eq!(SoundFxApp::join_tags(&strings(&["a", "b", "c"])), "a, b, c");
    assert_eq!(SoundFxApp::join_tags(&strings(&["solo"])), "solo");
    assert_eq!(SoundFxApp::join_tags(&[]), "");
}

#[test]
fn parse_join_roundtrip_on_examples() {
    for text in ["Meme, short;; LOUD\nmeme ,", "", "  x  ", "a,b,a,B", ";;;"] {
        let tags = SoundFxApp::parse_tags(text);
        assert_eq!(SoundFxApp::parse_tags(&SoundFxApp::join_tags(&tags)), tags);
    }
}

#[test]
fn apply_tag_adds_and_removes() {
    let mut input = "Meme; short".to_owned();
    SoundFxApp::apply_tag_to_input(&mut input, " Loud ", false);
    assert_eq!(input, "meme, short, loud");
    SoundFxApp::apply_tag_to_input(&mut input, "SHORT", true);
    assert_eq!(input, "meme, loud");
    SoundFxApp::apply_tag_to_input(&mut input, "meme", false);
    assert_eq!(input, "meme, loud");
    let mut untouched = "Weird;;".to_owned();
    SoundFxApp::apply_tag_to_input(&mut untouched, "   ", false);
    assert_eq!(untouched, "Weird;;");
}

#[test]
fn toggling_tag_twice_restores_list() {
    let mut input = "meme, short".to_owned();
    SoundFxApp::apply_tag_to_input(&mut input, "cat", false);
    assert_eq!(input, "meme, short, cat");
    SoundFxApp::apply_tag_to_input(&mut input, "cat", true);
    assert_eq!(input, "meme, short");
}

#[test]
fn query_matching_is_trimmed_and_ascii_case_insensitive() {
    assert!(SoundFxApp::library_query_matches("Big Airhorn", "  AIR "));
    assert!(SoundFxApp::library_query_matches("anything", "   "));
    assert!(!SoundFxApp::library_query_matches("Bruh", "airhorn"));
}

#[test]
fn sound_query_checks_name_and_tags() {
    let s = sound(1, "Bruh", &["Meme", "short"]);
    assert!(SoundFxApp::library_sound_query_matches(&s, "bru"));
    assert!(SoundFxApp::library_sound_query_matches(&s, " MEM"));
    assert!(SoundFxApp::library_sound_query_matches(&s, ""));
    assert!(!SoundFxApp::library_sound_query_matches(&s, "cat"));
}

#[test]
fn distinct_tags_sorted_one_per_lowercase_form() {
    let mut app = SoundFxApp::new();
    app.sounds = vec![sound(1, "a", &["zeta", "Meme"]), sound(2, "b", &["alpha", "meme", "Zeta"])];
    let tags = app.distinct_sound_tags();
    let lower: Vec<String> = tags.iter().map(|t| t.to_ascii_lowercase()).collect();
    assert_eq!(lower, strings(&["alpha", "meme", "zeta"]));
    assert!(tags.iter().all(|t| ["zeta", "Meme", "alpha", "meme", "Zeta"].contains(&t.as_str())));
}

#[test]
fn reconcile_drops_filters_without_sounds() {
    let mut app = SoundFxApp::new();
    app.sounds = vec![sound(1, "a", &["Meme"]), sound(2, "b", &["loud"])];
    app.library_audio_tag_filters = strings(&["MEME", "gone", "loud"]);
    app.reconcile_library_audio_tag_filter();
    assert_eq!(app.library_audio_tag_filters, strings(&["MEME", "loud"]));
}

#[test]
fn tag_filters_need_every_filter() {
    let tags = strings(&["a", "B"]);
    assert!(SoundFxApp::sound_tag_matches_filters(&tags, &strings(&["b", "A"])));
    assert!(!SoundFxApp::sound_tag_matches_filters(&tags, &strings(&["c"])));
    assert!(!SoundFxApp::sound_tag_matches_filters(&[], &strings(&["a"])));
    assert!(SoundFxApp::sound_tag_matches_filters(&[], &[]));
}
