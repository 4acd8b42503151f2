use sound_fx::model::{Folder, SoundEffect, SoundFxApp, TrimTimelineState, VideoAsset};

fn folder(id: u128, name: &str, parent_id: Option<u128>) -> Folder {
    Folder { id, name: name.to_owned(), parent_id }
}

fn sound(id: u128, folder_id: Option<u128>) -> SoundEffect {
    SoundEffect { id, name: format!("s{id}"), tags: Vec::new(), folder_id, favorite: false }
}

/// Folders: 1 > 2 > 3, and 4 at the top; sounds 10 in 3, 11 in 4, 12 at the top.
fn sample_app() -> SoundFxApp {
    let mut app = SoundFxApp::new();
    app.folders = vec![
        folder(1, "One", None),
        folder(2, "Two", Some(1)),
        folder(3, "Three", Some(2)),
        folder(4, "Four", None),
    ];
    app.sounds = vec![sound(10, Some(3)), sound(11, Some(4)), sound(12, None)];
    app
}

fn folder_ids(app: &SoundFxApp) -> Vec<u128> {
    app.folders.iter().map(|f| f.id).collect()
}

fn sound_ids(app: &SoundFxApp) -> Vec<u128> {
    app.sounds.iter().map(|s| s.id).collect()
}

#[test]
fn reset_tree_collapses_parents() {
    let mut app = sample_app();
    app.library_current_folder = Some(3);
    app.editing_folder_id = Some(2);
    app.library_folder_create_open = true;
    app.reset_library_tree_state();
    assert!(app.library_current_folder.is_none());
    assert!(app.editing_folder_id.is_none());
    assert!(!app.library_folder_create_open);
    let mut collapsed = app.library_collapsed_folders.clone();
    collapsed.sort();
    assert_eq!(collapsed, vec![1, 2]);
}

#[test]
fn create_folder_record_adds_folder_and_expands_parent() {
    let mut app = sample_app();
    app.library_collapsed_folders = vec![1, 2];
    let id = app.create_folder_record("New".to_owned(), Some(2));
    let last = app.folders.last().unwrap();
    assert_eq!((last.id, last.name.as_str(), last.parent_id), (id, "New", Some(2)));
    assert_eq!(app.folders.len(), 5);
    assert_eq!(app.library_collapsed_folders, vec![1]);
}

#[test]
fn create_folder_opens_it() {
    let mut app = sample_app();
    app.new_folder_name = "Draft".to_owned();
    app.folder_name_warning = true;
    app.create_folder("Draft".to_owned(), None);
    let last = app.folders.last().unwrap();
    assert_eq!(app.library_current_folder, Some(last.id));
    assert_eq!(last.parent_id, None);
    assert!(app.new_folder_name.is_empty());
    assert!(!app.folder_name_warning);
}

#[test]
fn delete_branch_removes_folders_and_sounds() {
    let mut app = sample_app();
    app.library_current_folder = Some(3);
    app.folder_import_select_mode = Some(2);
    app.library_collapsed_folders = vec![1, 2, 4];
    app.delete_folder_branch(2);
    assert_eq!(folder_ids(&app), vec![1, 4]);
    assert_eq!(sound_ids(&app), vec![11, 12]);
    assert_eq!(app.library_collapsed_folders, vec![1, 4]);
    assert!(app.library_current_folder.is_none());
    assert!(app.folder_import_select_mode.is_none());
}

#[test]
fn deleted_branch_leaves_no_trace() {
    let mut app = sample_app();
    let branch = app.folder_branch_ids(1);
    app.delete_folder_branch(1);
    assert!(app.folders.iter().all(|f| !branch.contains(&f.id)));
    assert!(app.sounds.iter().all(|s| s.folder_id.map_or(true, |f| !branch.contains(&f))));
}

#[test]
fn current_folder_cleared_when_missing() {
    let mut app = sample_app();
    app.library_current_folder = Some(4);
    app.ensure_current_folder_exists();
    assert_eq!(app.library_current_folder, Some(4));
    app.library_current_folder = Some(77);
    app.ensure_current_folder_exists();
    assert_eq!(app.library_current_folder, None);
}

#[test]
fn preview_stops_only_when_hidden() {
    let mut app = sample_app();
    app.pending_preview_sound = Some(10);
    assert!(!app.stop_library_preview_if_hidden_by_folder(4, Some(10)));
    assert_eq!(app.pending_preview_sound, Some(10));
    assert!(!app.stop_library_preview_if_hidden_by_folder(1, None));
    assert!(!app.stop_library_preview_if_hidden_by_folder(1, Some(12)));
    assert!(app.stop_library_preview_if_hidden_by_folder(1, Some(10)));
    assert!(app.pending_preview_sound.is_none());
}

#[test]
fn tree_actions_select_and_toggle() {
    let mut app = sample_app();
    app.library_audio_query = "query".to_owned();
    let effects = app.apply_folder_tree_actions(Some(4), None, None, None, false, Some(1), false, Some(10));
    assert_eq!(app.library_current_folder, Some(4));
    assert!(app.library_audio_query.is_empty());
    assert_eq!(app.library_collapsed_folders, vec![1]);
    assert!(effects.stop_audio);
    assert!(!effects.save_folders && !effects.save_library);

    let effects = app.apply_folder_tree_actions(None, None, None, None, false, Some(1), true, Some(11));
    assert!(app.library_collapsed_folders.is_empty());
    assert!(app.library_current_folder.is_none());
    assert!(effects.stop_audio);
}

#[test]
fn tree_actions_delete_asks_when_sounds_would_go() {
    let mut app = sample_app();
    let effects = app.apply_folder_tree_actions(None, Some(1), None, None, false, None, false, None);
    assert_eq!(app.show_delete_folder_confirm, Some(1));
    assert_eq!(app.folders.len(), 4);
    assert!(!effects.save_folders && !effects.save_library);

    app.folders.push(folder(5, "Empty", None));
    let effects = app.apply_folder_tree_actions(None, Some(5), None, None, false, None, false, None);
    assert_eq!(folder_ids(&app), vec![1, 2, 3, 4]);
    assert!(effects.save_folders && effects.save_library);
}

#[test]
fn tree_actions_rename() {
    let mut app = sample_app();
    let effects = app.apply_folder_tree_actions(None, None, Some(2), None, false, None, false, None);
    assert_eq!(app.editing_folder_id, Some(2));
    assert_eq!(app.folder_rename_name, "Two");
    assert!(!effects.save_folders);

    let effects =
        app.apply_folder_tree_actions(None, None, None, Some((2, "Deux".to_owned())), true, None, false, None);
    assert_eq!(app.folders[1].name, "Deux");
    assert!(app.editing_folder_id.is_none());
    assert!(effects.save_folders && !effects.save_library);

    let effects =
        app.apply_folder_tree_actions(None, None, None, Some((99, "Nope".to_owned())), false, None, false, None);
    assert!(!effects.save_folders);
}

#[test]
fn tree_actions_stop_timeline_playback_when_hiding_preview() {
    let mut app = sample_app();
    app.trim_timeline_state = Some(TrimTimelineState {
        sound_id: 10,
        enabled: true,
        snap_enabled: true,
        selected_clip_id: None,
        selected_clip_ids: Vec::new(),
        rows: SoundFxApp::default_trim_timeline_rows(),
        timeline_is_playing: true,
    });
    app.library_current_folder = Some(2);
    let effects = app.apply_folder_tree_actions(None, None, None, None, false, None, true, Some(10));
    assert!(effects.stop_audio);
    assert!(!app.trim_timeline_state.as_ref().unwrap().timeline_is_playing);
}

#[test]
fn favorite_toggles_first_match() {
    let mut app = sample_app();
    app.sounds.push(sound(11, None));
    assert!(app.toggle_sound_favorite(11));
    assert!(app.sounds[1].favorite);
    assert!(!app.sounds[3].favorite);
    assert!(app.pending_save);
    assert!(!app.toggle_sound_favorite(99));
}

#[test]
fn favorite_toggled_twice_restores() {
    let mut app = sample_app();
    let before: Vec<bool> = app.sounds.iter().map(|s| s.favorite).collect();
    app.toggle_sound_favorite(12);
    app.toggle_sound_favorite(12);
    let after: Vec<bool> = app.sounds.iter().map(|s| s.favorite).collect();
    assert_eq!(before, after);
}

#[test]
fn video_favorite_toggles() {
    let mut app = sample_app();
    app.video_assets = vec![VideoAsset { id: 1, name: "a".to_owned(), favorite: false }];
    assert!(app.toggle_video_favorite(1));
    assert!(app.video_assets[0].favorite);
    assert!(!app.toggle_video_favorite(2));
}
