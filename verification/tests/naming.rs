use sound_fx::model::SoundFxApp;
use sound_fx::naming::next_default_sound_name;

#[test]
fn first_default_name_is_sound_one() {
    assert_eq!(next_default_sound_name(&[]), "Sound 1");
    assert_eq!(next_default_sound_name(&["Other", "Sound"]), "Sound 1");
}

#[test]
fn default_name_fills_first_gap_ignoring_case() {
    assert_eq!(next_default_sound_name(&["SOUND 1", "sound 3"]), "Sound 2");
    assert_eq!(next_default_sound_name(&["Sound 1", "Sound 2", "Sound 3"]), "Sound 4");
}

#[test]
fn default_name_counts_past_nine() {
    let names: Vec<String> = (1..=10).map(|k| format!("Sound {k}")).collect();
    let refs: Vec<&str> = names.iter().map(|s| s.as_str()).collect();
    assert_eq!(next_default_sound_name(&refs), "Sound 11");
}

#[test]
fn default_name_is_never_taken() {
    let names = ["Sound 2", "sound 1", "Sound 4", "x"];
    let name = next_default_sound_name(&names);
    assert!(names.iter().all(|n| !n.eq_ignore_ascii_case(&name)));
}

#[test]
fn preview_filter_formats_fps() {
    assert_eq!(
        SoundFxApp::video_preview_filter(0),
        "fps=0,scale='min(720,iw)':'min(430,ih)':force_original_aspect_ratio=decrease"
    );
    assert!(SoundFxApp::video_preview_filter(120).starts_with("fps=120,"));
}
