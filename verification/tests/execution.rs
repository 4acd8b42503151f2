use sound_fx::editor::{clone_trim_timeline_state, TrimSnapshot};
use sound_fx::importing::{FolderRef, ImportEntry, ImportStep};
use sound_fx::jobs::LibraryImportMessage;
use sound_fx::model::{Folder, SoundEffect, SoundFxApp, TrimTimelineClip, TrimTimelineRow, TrimTimelineState};

fn file(token: usize, name: &str, audio: bool) -> ImportEntry {
    ImportEntry {
        token,
        file_name: Some(name.to_owned()),
        sort_key: name.as_bytes().to_vec(),
        is_dir: false,
        is_file: true,
        supported_audio: audio,
        hidden_or_system: false,
        readable: true,
        children: Vec::new(),
    }
}

fn dir(token: usize, name: &str, children: Vec<ImportEntry>) -> ImportEntry {
    ImportEntry {
        token,
        file_name: Some(name.to_owned()),
        sort_key: name.as_bytes().to_vec(),
        is_dir: true,
        is_file: false,
        supported_audio: false,
        hidden_or_system: false,
        readable: true,
        children,
    }
}

fn strings(v: &[&str]) -> Vec<String> {
    v.iter().map(|s| s.to_string()).collect()
}

/// pack/ { sub/ { b.wav }, a.mp3 }, c.ogg, n.txt
fn sample_entries() -> Vec<ImportEntry> {
    vec![
        dir(0, "pack", vec![dir(1, "sub", vec![file(2, "b.wav", true)]), file(3, "a.mp3", true)]),
        file(4, "c.ogg", true),
        file(5, "n.txt", false),
    ]
}

fn progress(m: &LibraryImportMessage) -> (u128, usize, usize, String) {
    match m {
        LibraryImportMessage::Progress { job_id, completed, total, current_label } => {
            (*job_id, *completed, *total, current_label.clone())
        }
        LibraryImportMessage::Finished { .. } => panic!("not a progress report"),
    }
}

#[test]
fn import_plan_runs_into_records_and_progress() {
    let entries = sample_entries();
    let plan = SoundFxApp::run_library_import_job(&entries, Some(77));
    assert_eq!(plan.total, 3);
    assert_eq!(plan.ignored, 1);
    let names = strings(&["pack", "sub", "b", "a", "c", "n"]);
    let labels = strings(&["pack", "sub", "b.wav", "a.mp3", "c.ogg", "n.txt"]);
    assert!(SoundFxApp::plan_tokens_in_range(&plan.steps, names.len()));
    let (result, messages) =
        SoundFxApp::run_import_plan(&plan.steps, &names, &labels, Some(77), plan.ignored, 9, plan.total);
    assert_eq!(result.target_folder_id, Some(77));
    assert_eq!(result.ignored_count, 1);
    let folders = &result.imported_folders;
    assert_eq!(folders.len(), 2);
    assert_eq!(folders[0].name, "pack");
    assert_eq!(folders[0].parent_id, Some(77));
    assert_eq!(folders[1].name, "sub");
    assert_eq!(folders[1].parent_id, Some(folders[0].id));
    assert_ne!(folders[0].id, folders[1].id);
    let sounds = &result.imported_sounds;
    let described: Vec<(String, Option<u128>)> = sounds.iter().map(|s| (s.name.clone(), s.folder_id)).collect();
    assert_eq!(
        described,
        vec![
            ("b".to_owned(), Some(folders[1].id)),
            ("a".to_owned(), Some(folders[0].id)),
            ("c".to_owned(), Some(77)),
        ]
    );
    assert!(sounds.iter().all(|s| s.tags.is_empty() && !s.favorite));
    let reports: Vec<(u128, usize, usize, String)> = messages.iter().map(progress).collect();
    assert_eq!(
        reports,
        vec![
            (9, 0, 3, "Preparing import...".to_owned()),
            (9, 1, 3, "b.wav".to_owned()),
            (9, 2, 3, "a.mp3".to_owned()),
            (9, 3, 3, "c.ogg".to_owned()),
        ]
    );
}

#[test]
fn empty_import_plan_reports_only_start() {
    let plan = SoundFxApp::run_library_import_job(&Vec::new(), None);
    let (result, messages) = SoundFxApp::run_import_plan(&plan.steps, &Vec::new(), &Vec::new(), None, 0, 4, 0);
    assert!(result.imported_folders.is_empty());
    assert!(result.imported_sounds.is_empty());
    assert_eq!(messages.len(), 1);
    assert_eq!(progress(&messages[0]), (4, 0, 0, "Preparing import...".to_owned()));
}

#[test]
fn plan_tokens_checked_against_handles() {
    let steps = vec![
        ImportStep::CreateFolder { name: "x".to_owned(), parent: FolderRef::Existing(None) },
        ImportStep::ImportFile { token: 3, folder: FolderRef::New(0) },
    ];
    assert!(SoundFxApp::plan_tokens_in_range(&steps, 4));
    assert!(!SoundFxApp::plan_tokens_in_range(&steps, 3));
    assert!(SoundFxApp::plan_tokens_in_range(&Vec::new(), 0));
}

#[test]
fn import_fits_small_trees() {
    assert!(SoundFxApp::import_fits(&sample_entries()));
    assert!(SoundFxApp::import_fits(&Vec::new()));
}

#[test]
fn imported_folders_expand_their_parents() {
    let mut app = SoundFxApp::new();
    app.folders = vec![Folder { id: 1, name: "root".to_owned(), parent_id: None }];
    app.library_collapsed_folders = vec![1, 2, 8];
    app.add_imported_folders(vec![
        Folder { id: 2, name: "a".to_owned(), parent_id: Some(1) },
        Folder { id: 3, name: "b".to_owned(), parent_id: Some(2) },
    ]);
    let ids: Vec<u128> = app.folders.iter().map(|f| f.id).collect();
    assert_eq!(ids, vec![1, 2, 3]);
    assert_eq!(app.library_collapsed_folders, vec![8]);
}

#[test]
fn committing_editor_tags_saves_parsed_tags() {
    let mut app = SoundFxApp::new();
    app.sounds = vec![
        SoundEffect { id: 1, name: "one".to_owned(), tags: strings(&["old"]), folder_id: Some(4), favorite: true },
        SoundEffect { id: 2, name: "two".to_owned(), tags: Vec::new(), folder_id: None, favorite: false },
    ];
    app.editor_tags_input = "Meme, short;; LOUD\nmeme ,".to_owned();
    app.commit_editor_tags(0);
    assert_eq!(app.sounds[0].tags, strings(&["meme", "short", "loud"]));
    assert_eq!(app.sounds[0].name, "one");
    assert_eq!(app.sounds[0].folder_id, Some(4));
    assert!(app.sounds[0].favorite);
    assert!(app.sounds[1].tags.is_empty());
    assert!(app.pending_save);
}

#[test]
fn tag_filter_chip_toggles() {
    let mut app = SoundFxApp::new();
    app.library_audio_tag_filters = strings(&["Meme", "loud"]);
    app.toggle_library_audio_tag_filter("meme", true);
    assert_eq!(app.library_audio_tag_filters, strings(&["loud"]));
    app.toggle_library_audio_tag_filter("short", false);
    assert_eq!(app.library_audio_tag_filters, strings(&["loud", "short"]));
}

fn snap(sound_id: u128, data: u32) -> TrimSnapshot<u32> {
    TrimSnapshot { sound_id, data }
}

fn datas(stack: &[TrimSnapshot<u32>]) -> Vec<(u128, u32)> {
    stack.iter().map(|s| (s.sound_id, s.data)).collect()
}

#[test]
fn finishing_undo_moves_replaced_settings() {
    let mut undo = vec![snap(1, 5)];
    let mut redo = vec![snap(1, 9)];
    SoundFxApp::finish_trim_undo_redo(&mut undo, &mut redo, false, snap(1, 7), true);
    assert_eq!(datas(&undo), vec![(1, 5)]);
    assert_eq!(datas(&redo), vec![(1, 9), (1, 7)]);
    SoundFxApp::finish_trim_undo_redo(&mut undo, &mut redo, true, snap(1, 3), true);
    assert_eq!(datas(&undo), vec![(1, 5), (1, 3)]);
    SoundFxApp::finish_trim_undo_redo(&mut undo, &mut redo, true, snap(1, 4), false);
    assert_eq!(datas(&undo), vec![(1, 5), (1, 3)]);
    assert_eq!(datas(&redo), vec![(1, 9), (1, 7)]);
}

#[test]
fn trim_undo_then_redo_round_trip() {
    let mut app = SoundFxApp::new();
    app.sounds = vec![SoundEffect { id: 1, name: "one".to_owned(), tags: Vec::new(), folder_id: None, favorite: false }];
    app.selected = Some(1);
    let mut undo = vec![snap(1, 5), snap(2, 6)];
    let mut redo = Vec::new();
    let mut current = 7;
    let (is_redo, s) = app.handle_trim_undo_redo(&mut undo, &mut redo, false, false, true).unwrap();
    assert!(!is_redo);
    let replaced = snap(1, current);
    current = s.data;
    SoundFxApp::finish_trim_undo_redo(&mut undo, &mut redo, is_redo, replaced, true);
    assert_eq!(current, 5);
    let (is_redo, s) = app.handle_trim_undo_redo(&mut undo, &mut redo, false, true, false).unwrap();
    assert!(is_redo);
    let replaced = snap(1, current);
    current = s.data;
    SoundFxApp::finish_trim_undo_redo(&mut undo, &mut redo, is_redo, replaced, true);
    assert_eq!(current, 7);
    assert_eq!(datas(&undo), vec![(2, 6), (1, 5)]);
    assert!(redo.is_empty());
}

fn row(clips: &[(u128, u128)]) -> TrimTimelineRow {
    TrimTimelineRow {
        clips: clips.iter().map(|&(id, source_sound_id)| TrimTimelineClip { id, source_sound_id }).collect(),
        muted: false,
    }
}

fn timeline(rows: Vec<TrimTimelineRow>, selected: Option<u128>) -> TrimTimelineState {
    TrimTimelineState {
        sound_id: 1,
        enabled: true,
        snap_enabled: true,
        selected_clip_id: selected,
        selected_clip_ids: vec![5],
        rows,
        timeline_is_playing: false,
    }
}

fn clip_ids(state: &TrimTimelineState) -> Vec<Vec<u128>> {
    state.rows.iter().map(|r| r.clips.iter().map(|c| c.id).collect()).collect()
}

#[test]
fn finished_clip_deletions_leave_timeline_with_undo() {
    let mut app = SoundFxApp::new();
    app.trim_timeline_state =
        Some(timeline(vec![row(&[(5, 1), (6, 1)]), row(&[(7, 1)]), row(&[]), row(&[])], Some(5)));
    app.trim_timeline_clip_delete_animating = vec![5, 7, 9];
    let mut undo: Vec<TrimTimelineState> = Vec::new();
    let mut redo = vec![timeline(vec![row(&[])], None)];
    let removed = app.trim_timeline_finish_clip_deletions(&vec![5, 9, 42], &mut undo, &mut redo);
    assert!(removed);
    assert_eq!(app.trim_timeline_clip_delete_animating, vec![7]);
    let state = app.trim_timeline_state.as_ref().unwrap();
    assert_eq!(clip_ids(state), vec![vec![6], vec![7], vec![]]);
    assert_eq!(state.selected_clip_id, None);
    assert_eq!(state.selected_clip_ids, vec![5]);
    assert_eq!(undo.len(), 1);
    assert_eq!(clip_ids(&undo[0]), vec![vec![5, 6], vec![7], vec![], vec![]]);
    assert_eq!(undo[0].selected_clip_id, Some(5));
    assert!(redo.is_empty());
}

#[test]
fn finished_deletion_of_missing_clip_only_deselects() {
    let mut app = SoundFxApp::new();
    app.trim_timeline_state = Some(timeline(vec![row(&[(6, 1)]), row(&[]), row(&[])], Some(9)));
    app.trim_timeline_clip_delete_animating = vec![9];
    let mut undo: Vec<TrimTimelineState> = Vec::new();
    let mut redo: Vec<TrimTimelineState> = Vec::new();
    assert!(!app.trim_timeline_finish_clip_deletions(&vec![9], &mut undo, &mut redo));
    let state = app.trim_timeline_state.as_ref().unwrap();
    assert_eq!(clip_ids(state), vec![vec![6], vec![], vec![]]);
    assert_eq!(state.selected_clip_id, None);
    assert_eq!(undo.len(), 1);
    assert_eq!(undo[0].selected_clip_id, Some(9));
    assert!(app.trim_timeline_clip_delete_animating.is_empty());
}

#[test]
fn unfinished_deletions_change_nothing() {
    let mut app = SoundFxApp::new();
    app.trim_timeline_state = Some(timeline(vec![row(&[(6, 1)]), row(&[]), row(&[])], Some(6)));
    app.trim_timeline_clip_delete_animating = vec![6];
    let mut undo: Vec<TrimTimelineState> = Vec::new();
    let mut redo = vec![timeline(vec![row(&[])], None)];
    assert!(!app.trim_timeline_finish_clip_deletions(&vec![8], &mut undo, &mut redo));
    assert_eq!(app.trim_timeline_clip_delete_animating, vec![6]);
    assert_eq!(clip_ids(app.trim_timeline_state.as_ref().unwrap()), vec![vec![6], vec![], vec![]]);
    assert!(undo.is_empty());
    assert_eq!(redo.len(), 1);
}

#[test]
fn finishing_deletions_without_timeline_keeps_animations() {
    let mut app = SoundFxApp::new();
    app.trim_timeline_clip_delete_animating = vec![6];
    let mut undo: Vec<TrimTimelineState> = Vec::new();
    let mut redo: Vec<TrimTimelineState> = Vec::new();
    assert!(!app.trim_timeline_finish_clip_deletions(&vec![6], &mut undo, &mut redo));
    assert_eq!(app.trim_timeline_clip_delete_animating, vec![6]);
    assert!(app.trim_timeline_state.is_none());
    assert!(undo.is_empty());
}

#[test]
fn cloned_timeline_state_is_equal() {
    let st = timeline(vec![row(&[(5, 1), (6, 2)]), row(&[(7, 3)])], Some(6));
    let copy = clone_trim_timeline_state(&st);
    assert_eq!(clip_ids(&copy), clip_ids(&st));
    assert_eq!(copy.selected_clip_id, Some(6));
    assert_eq!(copy.selected_clip_ids, vec![5]);
    assert_eq!(copy.rows[0].clips[1].source_sound_id, 2);
    assert!(copy.enabled && copy.snap_enabled && !copy.timeline_is_playing);
}

#[test]
fn duplicate_pairs_follow_panel_actions() {
    let pairs: Vec<(u128, u128)> = vec![(1, 2), (3, 4), (5, 6)];
    assert_eq!(SoundFxApp::duplicate_pairs_after_actions(&pairs, Some(2), Some(0)), vec![2]);
    assert_eq!(SoundFxApp::duplicate_pairs_after_actions(&pairs, None, Some(1)), vec![0, 2]);
    assert_eq!(SoundFxApp::duplicate_pairs_after_actions(&pairs, None, None), vec![0, 1, 2]);
    let shared: Vec<(u128, u128)> = vec![(1, 2), (2, 3), (4, 5), (6, 2)];
    assert_eq!(SoundFxApp::duplicate_pairs_after_actions(&shared, Some(2), Some(1)), vec![2]);
    assert_eq!(SoundFxApp::duplicate_pairs_after_actions(&shared, Some(9), Some(7)), vec![0, 1, 2, 3]);
}

#[test]
fn timeline_undo_and_redo_swap_states() {
    let mut app = SoundFxApp::new();
    let mut undo: Vec<TrimTimelineState> = Vec::new();
    let mut redo: Vec<TrimTimelineState> = Vec::new();
    assert!(!app.trim_timeline_undo_redo(&mut undo, &mut redo, false));
    app.trim_timeline_state = Some(timeline(vec![row(&[(5, 1)]), row(&[]), row(&[])], Some(5)));
    let before = clone_trim_timeline_state(app.trim_timeline_state.as_ref().unwrap());
    app.trim_timeline_click_clip(5, true);
    app.push_trim_timeline_undo_snapshot(&mut undo, &mut redo, before);
    assert_eq!(undo.len(), 1);
    assert!(app.trim_timeline_undo_redo(&mut undo, &mut redo, false));
    let st = app.trim_timeline_state.as_ref().unwrap();
    assert_eq!(st.selected_clip_ids, vec![5]);
    assert_eq!(st.selected_clip_id, Some(5));
    assert!(undo.is_empty());
    assert_eq!(redo.len(), 1);
    assert!(redo[0].selected_clip_ids.is_empty());
    assert!(app.trim_timeline_undo_redo(&mut undo, &mut redo, true));
    let st = app.trim_timeline_state.as_ref().unwrap();
    assert!(st.selected_clip_ids.is_empty());
    assert_eq!(st.selected_clip_id, None);
    assert_eq!(undo.len(), 1);
    assert!(redo.is_empty());
    assert!(!app.trim_timeline_undo_redo(&mut undo, &mut redo, true));
}

#[test]
fn undo_without_timeline_restores_one() {
    let mut app = SoundFxApp::new();
    let mut undo = vec![timeline(vec![row(&[(5, 1)])], None)];
    let mut redo: Vec<TrimTimelineState> = Vec::new();
    assert!(app.trim_timeline_undo_redo(&mut undo, &mut redo, false));
    assert_eq!(clip_ids(app.trim_timeline_state.as_ref().unwrap()), vec![vec![5]]);
    assert!(undo.is_empty() && redo.is_empty());
}

#[test]
fn removing_rows_keeps_first_and_clears_selection() {
    let mut app = SoundFxApp::new();
    assert!(!app.trim_timeline_remove_row(1));
    app.trim_timeline_state = Some(timeline(vec![row(&[(5, 1)]), row(&[(6, 1)]), row(&[(7, 1)]), row(&[])], Some(6)));
    assert!(!app.trim_timeline_remove_row(0));
    assert!(!app.trim_timeline_remove_row(4));
    assert!(app.trim_timeline_remove_row(2));
    let st = app.trim_timeline_state.as_ref().unwrap();
    assert_eq!(clip_ids(st), vec![vec![5], vec![6], vec![]]);
    assert_eq!(st.selected_clip_id, Some(6));
    assert!(app.trim_timeline_remove_row(1));
    let st = app.trim_timeline_state.as_ref().unwrap();
    assert_eq!(clip_ids(st), vec![vec![5], vec![]]);
    assert_eq!(st.selected_clip_id, None);
    assert_eq!(st.selected_clip_ids, vec![5]);
}

#[test]
fn muting_a_row_toggles_it() {
    let mut app = SoundFxApp::new();
    assert!(!app.trim_timeline_toggle_row_mute(0));
    app.trim_timeline_state = Some(timeline(vec![row(&[(5, 1)]), row(&[])], None));
    assert!(app.trim_timeline_toggle_row_mute(1));
    let mutes: Vec<bool> = app.trim_timeline_state.as_ref().unwrap().rows.iter().map(|r| r.muted).collect();
    assert_eq!(mutes, vec![false, true]);
    assert!(app.trim_timeline_toggle_row_mute(1));
    assert!(!app.trim_timeline_state.as_ref().unwrap().rows[1].muted);
    assert!(!app.trim_timeline_toggle_row_mute(2));
}

#[test]
fn clicking_clips_edits_the_selection() {
    let mut app = SoundFxApp::new();
    assert!(!app.trim_timeline_click_clip(5, false));
    app.trim_timeline_state = Some(timeline(vec![row(&[(5, 1), (6, 1), (7, 1)])], None));
    assert!(app.trim_timeline_click_clip(6, false));
    let st = app.trim_timeline_state.as_ref().unwrap();
    assert_eq!((st.selected_clip_ids.clone(), st.selected_clip_id), (vec![6], Some(6)));
    app.trim_timeline_click_clip(7, true);
    let st = app.trim_timeline_state.as_ref().unwrap();
    assert_eq!((st.selected_clip_ids.clone(), st.selected_clip_id), (vec![6, 7], Some(6)));
    app.trim_timeline_click_clip(6, true);
    let st = app.trim_timeline_state.as_ref().unwrap();
    assert_eq!((st.selected_clip_ids.clone(), st.selected_clip_id), (vec![7], Some(7)));
    app.trim_timeline_click_clip(7, true);
    let st = app.trim_timeline_state.as_ref().unwrap();
    assert_eq!((st.selected_clip_ids.clone(), st.selected_clip_id), (vec![], None));
}
