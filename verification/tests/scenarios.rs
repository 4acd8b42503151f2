use sound_fx::model::SoundFxApp;
use sound_fx::naming::next_default_sound_name;

#[test]
fn default_timeline_name_uses_first_available_number() {
    assert_eq!(
        next_default_sound_name(&["Sound 1", "other", "sound 2"]),
        "Sound 3"
    );
}

#[test]
fn video_preview_filter_is_valid() {
    let preview_fps = 20;
    let filter = SoundFxApp::video_preview_filter(preview_fps);
    assert_eq!(
        filter,
        "fps=20,scale='min(720,iw)':'min(430,ih)':force_original_aspect_ratio=decrease"
    );
}

#[test]
fn tag_filter_requires_every_selected_tag() {
    let tags = vec!["meme".to_owned(), "short".to_owned(), "funny".to_owned()];

    assert!(SoundFxApp::sound_tag_matches_filters(&tags, &[]));
    assert!(SoundFxApp::sound_tag_matches_filters(
        &tags,
        &["MEME".to_owned(), "short".to_owned()]
    ));
    assert!(!SoundFxApp::sound_tag_matches_filters(
        &tags,
        &["meme".to_owned(), "music".to_owned()]
    ));
}
