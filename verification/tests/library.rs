use sound_fx::model::{Folder, SoundEffect, SoundFxApp, VideoAsset};

fn folder(id: u128, name: &str, parent_id: Option<u128>) -> Folder {
    Folder { id, name: name.to_owned(), parent_id }
}

fn sound(id: u128, name: &str, tags: &[&str], folder_id: Option<u128>, favorite: bool) -> SoundEffect {
    SoundEffect {
        id,
        name: name.to_owned(),
        tags: tags.iter().map(|t| t.to_string()).collect(),
        folder_id,
        favorite,
    }
}

fn video(id: u128, name: &str, favorite: bool) -> VideoAsset {
    VideoAsset { id, name: name.to_owned(), favorite }
}

/// Folders: 1 "Memes" > 2 "cats" > 3 "Loud"; 4 "Ambient" at the top.
fn sample_app() -> SoundFxApp {
    let mut app = SoundFxApp::new();
    app.folders = vec![
        folder(1, "Memes", None),
        folder(2, "cats", Some(1)),
        folder(3, "Loud", Some(2)),
        folder(4, "Ambient", None),
    ];
    app.sounds = vec![
        sound(10, "Bruh", &["meme", "short"], Some(1), false),
        sound(11, "Meow", &["cat"], Some(2), true),
        sound(12, "Scream", &["loud"], Some(3), false),
        sound(13, "Rain", &["calm"], Some(4), false),
        sound(14, "Airhorn", &["Meme"], None, true),
    ];
    app
}

fn ids(sounds: &[SoundEffect]) -> Vec<u128> {
    sounds.iter().map(|s| s.id).collect()
}

fn sorted(mut v: Vec<u128>) -> Vec<u128> {
    v.sort();
    v
}

#[test]
fn branch_ids_cover_descendants_only() {
    let app = sample_app();
    assert_eq!(sorted(app.folder_branch_ids(1)), vec![1, 2, 3]);
    assert_eq!(sorted(app.folder_branch_ids(2)), vec![2, 3]);
    assert_eq!(sorted(app.folder_branch_ids(4)), vec![4]);
    assert_eq!(app.folder_branch_ids(99), vec![99]);
}

#[test]
fn sound_counts_direct_and_total() {
    let app = sample_app();
    assert_eq!(app.direct_sound_count_for_folder(1), 1);
    assert_eq!(app.total_sound_count_for_folder(1), 3);
    assert_eq!(app.total_sound_count_for_folder(2), 2);
    assert_eq!(app.direct_sound_count_for_folder(4), 1);
    assert_eq!(app.total_sound_count_for_folder(99), 0);
}

#[test]
fn total_count_is_at_least_direct_count() {
    let app = sample_app();
    for id in [1u128, 2, 3, 4, 99] {
        assert!(app.direct_sound_count_for_folder(id) <= app.total_sound_count_for_folder(id));
    }
}

#[test]
fn folder_path_label_joins_ancestors() {
    let app = sample_app();
    assert_eq!(app.folder_path_label(3), "Memes / cats / Loud");
    assert_eq!(app.folder_path_label(4), "Ambient");
    assert_eq!(app.folder_path_label(99), "");
}

#[test]
fn child_folders_sorted_case_insensitively() {
    let mut app = sample_app();
    app.folders.push(folder(5, "beta", None));
    app.folders.push(folder(6, "Beta", None));
    let names: Vec<String> = app.sorted_child_folders(None).into_iter().map(|f| f.name).collect();
    assert_eq!(names, vec!["Ambient", "Beta", "beta", "Memes"]);
    let children: Vec<u128> = app.sorted_child_folders(Some(1)).into_iter().map(|f| f.id).collect();
    assert_eq!(children, vec![2]);
}

#[test]
fn folders_with_children_collapse_by_default() {
    let app = sample_app();
    assert_eq!(sorted(app.default_library_collapsed_folders()), vec![1, 2]);
}

#[test]
fn search_activity_ignores_blank_query() {
    let mut app = sample_app();
    assert!(!app.library_search_active());
    app.library_audio_query = "   ".to_owned();
    assert!(!app.library_search_active());
    app.library_audio_query = " bru ".to_owned();
    assert!(app.library_search_active());
}

#[test]
fn folder_name_query_is_trimmed_and_case_insensitive() {
    let f = folder(1, "Memes", None);
    assert!(SoundFxApp::folder_name_matches_query(&f, "  MEM "));
    assert!(SoundFxApp::folder_name_matches_query(&f, ""));
    assert!(!SoundFxApp::folder_name_matches_query(&f, "cat"));
}

#[test]
fn direct_sounds_list_favorites_first() {
    let mut app = sample_app();
    app.sounds.push(sound(15, "Honk", &[], Some(1), true));
    assert_eq!(ids(&app.direct_sounds_for_folder(Some(1))), vec![15, 10]);
    assert_eq!(ids(&app.direct_sounds_for_folder(None)), vec![14]);
}

#[test]
fn filtered_sounds_follow_scope_and_filters() {
    let mut app = sample_app();
    assert_eq!(ids(&app.filtered_library_sounds_for_folder(Some(1), true)), vec![11, 10, 12]);
    assert_eq!(ids(&app.filtered_library_sounds_for_folder(Some(1), false)), vec![10]);
    assert_eq!(ids(&app.filtered_library_sounds_for_folder(None, true)), vec![11, 14, 10, 12, 13]);
    app.library_favorites_only_audio = true;
    assert_eq!(ids(&app.filtered_library_sounds_for_folder(None, true)), vec![11, 14]);
    app.library_favorites_only_audio = false;
    app.library_audio_tag_filters = vec!["MEME".to_owned()];
    assert_eq!(ids(&app.filtered_library_sounds_for_folder(None, true)), vec![14, 10]);
}

#[test]
fn filtered_indices_match_filtered_sounds() {
    let mut app = sample_app();
    app.library_audio_query = "a".to_owned();
    for (folder_id, deep) in [(None, true), (Some(1), true), (Some(2), false), (Some(4), true)] {
        let listed = ids(&app.filtered_library_sounds_for_folder(folder_id, deep));
        let at: Vec<u128> = app
            .filtered_library_sound_indices_for_folder(folder_id, deep)
            .into_iter()
            .map(|i| app.sounds[i].id)
            .collect();
        assert_eq!(listed, at);
    }
}

#[test]
fn import_picker_hides_sounds_of_target() {
    let mut app = sample_app();
    app.folder_import_select_mode = Some(1);
    assert_eq!(ids(&app.filtered_library_sounds_for_folder(Some(4), false)), vec![11, 14, 12, 13]);
}

#[test]
fn search_spans_whole_library() {
    let mut app = sample_app();
    app.library_current_folder = Some(4);
    assert_eq!(ids(&app.filtered_library_sounds()), vec![13]);
    assert_eq!(app.filtered_library_sound_indices(), vec![3]);
    app.library_audio_query = "meme".to_owned();
    assert_eq!(ids(&app.filtered_library_sounds()), vec![14, 10]);
    assert_eq!(app.filtered_library_sound_indices(), vec![4, 0]);
}

#[test]
fn folder_search_keeps_branches_with_hits() {
    let mut app = sample_app();
    assert!(app.folder_matches_library_search(99));
    app.library_audio_query = "scream".to_owned();
    assert!(app.folder_matches_library_search(1));
    assert!(app.folder_matches_library_search(3));
    assert!(!app.folder_matches_library_search(4));
    assert!(!app.folder_matches_library_search(99));
    app.library_audio_query = "amb".to_owned();
    assert!(app.folder_matches_library_search(4));
    assert!(!app.folder_matches_library_search(1));
}

#[test]
fn visible_children_filtered_by_search() {
    let mut app = sample_app();
    let all: Vec<u128> = app.visible_child_folders(None).into_iter().map(|f| f.id).collect();
    assert_eq!(all, vec![4, 1]);
    app.library_audio_query = "loud".to_owned();
    let hits: Vec<u128> = app.visible_child_folders(None).into_iter().map(|f| f.id).collect();
    assert_eq!(hits, vec![1]);
}

#[test]
fn videos_filtered_favorites_first() {
    let mut app = sample_app();
    app.video_assets = vec![video(1, "Clip A", false), video(2, "clip b", true), video(3, "Other", false)];
    let all: Vec<u128> = app.filtered_library_videos().into_iter().map(|v| v.id).collect();
    assert_eq!(all, vec![2, 1, 3]);
    app.library_video_query = "CLIP".to_owned();
    let q: Vec<u128> = app.filtered_library_videos().into_iter().map(|v| v.id).collect();
    assert_eq!(q, vec![2, 1]);
    app.library_favorites_only_video = true;
    let fav: Vec<u128> = app.filtered_library_videos().into_iter().map(|v| v.id).collect();
    assert_eq!(fav, vec![2]);
}
