use sound_fx::editor::{take_last_trim_snapshot, TrimSnapshot, TRIM_HISTORY_LIMIT};
use sound_fx::model::{
    AppView, SoundEffect, SoundFxApp, TrimTimelineClip, TrimTimelineRow, TrimTimelineState,
};

fn sound(id: u128, tags: &[&str]) -> SoundEffect {
    SoundEffect {
        id,
        name: format!("Sound {id}"),
        tags: tags.iter().map(|t| t.to_string()).collect(),
        folder_id: None,
        favorite: false,
    }
}

fn row(clips: &[(u128, u128)]) -> TrimTimelineRow {
    TrimTimelineRow {
        clips: clips
            .iter()
            .map(|&(id, source_sound_id)| TrimTimelineClip { id, source_sound_id })
            .collect(),
        muted: false,
    }
}

fn state(sound_id: u128, enabled: bool, rows: Vec<TrimTimelineRow>) -> TrimTimelineState {
    TrimTimelineState {
        sound_id,
        enabled,
        snap_enabled: true,
        selected_clip_id: None,
        selected_clip_ids: Vec::new(),
        rows,
        timeline_is_playing: false,
    }
}

fn clip_counts(rows: &[TrimTimelineRow]) -> Vec<usize> {
    rows.iter().map(|r| r.clips.len()).collect()
}

#[test]
fn stop_preview_stops_timeline_and_previews() {
    let mut app = SoundFxApp::new();
    let mut st = state(1, true, SoundFxApp::default_trim_timeline_rows());
    st.timeline_is_playing = true;
    app.trim_timeline_state = Some(st);
    app.myinstants_preview_audio_url = Some("https://example.invalid/a.mp3".to_owned());
    app.pending_preview_sound = Some(3);
    app.trim_timeline_scrub_resume_pending = true;
    app.stop_preview();
    assert!(!app.trim_timeline_state.as_ref().unwrap().timeline_is_playing);
    assert!(app.myinstants_preview_audio_url.is_none());
    assert!(app.pending_preview_sound.is_none());
    assert!(!app.trim_timeline_scrub_resume_pending);
}

#[test]
fn clear_status_removes_message() {
    let mut app = SoundFxApp::new();
    app.status = Some("busy".to_owned());
    app.clear_status();
    assert!(app.status.is_none());
}

#[test]
fn selected_index_finds_first_match() {
    let mut app = SoundFxApp::new();
    app.sounds = vec![sound(1, &[]), sound(2, &[]), sound(2, &[])];
    assert_eq!(app.selected_sound_index(), None);
    app.selected = Some(2);
    assert_eq!(app.selected_sound_index(), Some(1));
    app.selected = Some(9);
    assert_eq!(app.selected_sound_index(), None);
}

#[test]
fn history_keeps_at_most_limit_entries() {
    let mut stack: Vec<u32> = Vec::new();
    for i in 0..(TRIM_HISTORY_LIMIT as u32 + 5) {
        SoundFxApp::push_trim_history_entry(&mut stack, i);
    }
    assert_eq!(stack.len(), TRIM_HISTORY_LIMIT);
    assert_eq!(stack[0], 5);
    assert_eq!(*stack.last().unwrap(), TRIM_HISTORY_LIMIT as u32 + 4);
}

#[test]
fn clearing_history_drops_one_sound() {
    let mut undo = vec![
        TrimSnapshot { sound_id: 1, data: 'a' },
        TrimSnapshot { sound_id: 2, data: 'b' },
        TrimSnapshot { sound_id: 1, data: 'c' },
    ];
    let mut redo = vec![TrimSnapshot { sound_id: 1, data: 'd' }];
    SoundFxApp::clear_trim_history_for_sound(&mut undo, &mut redo, 1);
    assert_eq!(undo.len(), 1);
    assert_eq!(undo[0].data, 'b');
    assert!(redo.is_empty());
}

#[test]
fn undo_snapshot_only_when_changed() {
    let mut undo = vec![TrimSnapshot { sound_id: 1, data: 0u8 }];
    let mut redo = vec![TrimSnapshot { sound_id: 1, data: 9u8 }];
    SoundFxApp::push_trim_undo_snapshot(&mut undo, &mut redo, TrimSnapshot { sound_id: 1, data: 1 }, false);
    assert_eq!(undo.len(), 1);
    assert_eq!(redo.len(), 1);
    SoundFxApp::push_trim_undo_snapshot(&mut undo, &mut redo, TrimSnapshot { sound_id: 1, data: 1 }, true);
    assert_eq!(undo.len(), 2);
    assert!(redo.is_empty());
}

#[test]
fn timeline_undo_snapshot_clears_redo() {
    let mut app = SoundFxApp::new();
    let before = state(1, true, vec![row(&[(5, 1)]), row(&[]), row(&[])]);
    app.trim_timeline_state = Some(state(1, true, vec![row(&[(5, 1)]), row(&[]), row(&[])]));
    let mut undo: Vec<TrimTimelineState> = vec![state(9, false, vec![])];
    let mut redo: Vec<TrimTimelineState> = vec![state(7, false, vec![]), state(8, false, vec![])];
    app.push_trim_timeline_undo_snapshot(&mut undo, &mut redo, before);
    assert_eq!((undo.len(), redo.len()), (1, 2));
    app.trim_timeline_state.as_mut().unwrap().rows[0].muted = true;
    let before = state(1, true, vec![row(&[(5, 1)]), row(&[]), row(&[])]);
    app.push_trim_timeline_undo_snapshot(&mut undo, &mut redo, before);
    assert_eq!((undo.len(), redo.len()), (2, 0));
    assert!(!undo[1].rows[0].muted);
    let mut ints: Vec<i32> = vec![1, 2];
    let mut int_redo: Vec<i32> = vec![5];
    SoundFxApp::push_trim_timeline_undo_snapshot_changed(&mut ints, &mut int_redo, 3);
    assert_eq!((ints, int_redo), (vec![1, 2, 3], vec![]));
}

#[test]
fn default_timeline_has_three_empty_rows() {
    let st = SoundFxApp::default_trim_timeline_state(42);
    assert_eq!(st.sound_id, 42);
    assert!(!st.enabled && st.snap_enabled && !st.timeline_is_playing);
    assert!(st.selected_clip_id.is_none());
    assert_eq!(clip_counts(&st.rows), vec![0, 0, 0]);
}

#[test]
fn normalize_rows_pads_and_trims() {
    let mut rows = vec![row(&[(1, 1)])];
    SoundFxApp::normalize_trim_timeline_rows(&mut rows);
    assert_eq!(clip_counts(&rows), vec![1, 0, 0]);

    let mut rows = vec![row(&[]), row(&[(1, 1)]), row(&[(2, 1)])];
    SoundFxApp::normalize_trim_timeline_rows(&mut rows);
    assert_eq!(clip_counts(&rows), vec![0, 1, 1, 0]);

    let mut rows = vec![row(&[(1, 1)]), row(&[]), row(&[]), row(&[]), row(&[])];
    SoundFxApp::normalize_trim_timeline_rows(&mut rows);
    assert_eq!(clip_counts(&rows), vec![1, 0, 0]);
}

#[test]
fn normalizing_rows_twice_changes_nothing() {
    let mut rows = vec![row(&[]), row(&[(1, 1)]), row(&[]), row(&[(2, 1)]), row(&[]), row(&[])];
    SoundFxApp::normalize_trim_timeline_rows(&mut rows);
    let once = clip_counts(&rows);
    SoundFxApp::normalize_trim_timeline_rows(&mut rows);
    assert_eq!(clip_counts(&rows), once);
}

#[test]
fn selected_clip_is_located() {
    let mut st = state(1, true, vec![row(&[(5, 1), (6, 1)]), row(&[(7, 2)]), row(&[])]);
    assert!(SoundFxApp::trim_timeline_selected_clip_from_state(&st).is_none());
    st.selected_clip_id = Some(7);
    let (r, c, clip) = SoundFxApp::trim_timeline_selected_clip_from_state(&st).unwrap();
    assert_eq!((r, c, clip.id, clip.source_sound_id), (1, 0, 7, 2));
    st.selected_clip_id = Some(99);
    assert!(SoundFxApp::trim_timeline_selected_clip_from_state(&st).is_none());
}

#[test]
fn selected_clip_snapshot_needs_enabled_timeline_of_sound() {
    let mut app = SoundFxApp::new();
    let mut st = state(1, false, vec![row(&[(5, 1)]), row(&[]), row(&[])]);
    st.selected_clip_id = Some(5);
    app.trim_timeline_state = Some(st);
    assert!(app.trim_timeline_selected_clip_snapshot(1).is_none());
    app.trim_timeline_state.as_mut().unwrap().enabled = true;
    assert!(app.trim_timeline_selected_clip_snapshot(2).is_none());
    assert_eq!(app.trim_timeline_selected_clip_snapshot(1).unwrap().2.id, 5);
}

#[test]
fn timeline_mode_sound_and_drag_capture() {
    let mut app = SoundFxApp::new();
    assert_eq!(app.timeline_mode_active_sound_id(), None);
    app.trim_timeline_state = Some(state(4, false, SoundFxApp::default_trim_timeline_rows()));
    assert_eq!(app.timeline_mode_active_sound_id(), None);
    app.trim_timeline_state.as_mut().unwrap().enabled = true;
    assert_eq!(app.timeline_mode_active_sound_id(), Some(4));
    assert!(!app.trim_timeline_drag_capture_active());
    app.pending_sound_drag = Some(9);
    assert!(app.trim_timeline_drag_capture_active());
}

#[test]
fn delete_animation_starts_once() {
    let mut app = SoundFxApp::new();
    assert!(app.trim_timeline_begin_clip_delete_animation(3));
    assert!(!app.trim_timeline_begin_clip_delete_animation(3));
    assert_eq!(app.trim_timeline_clip_delete_animating, vec![3]);
}

#[test]
fn delete_selected_clip_needs_present_selection() {
    let mut app = SoundFxApp::new();
    let mut st = state(1, true, vec![row(&[(5, 1)]), row(&[]), row(&[])]);
    st.selected_clip_id = Some(6);
    app.trim_timeline_state = Some(st);
    assert!(!app.trim_timeline_delete_selected_clip(1));
    app.trim_timeline_state.as_mut().unwrap().selected_clip_id = Some(5);
    assert!(!app.trim_timeline_delete_selected_clip(2));
    assert!(app.trim_timeline_delete_selected_clip(1));
    assert_eq!(app.trim_timeline_clip_delete_animating, vec![5]);
}

#[test]
fn anchor_prefers_existing_sounds() {
    let mut app = SoundFxApp::new();
    assert_eq!(app.resolve_trim_timeline_anchor_sound_id(7), 7);
    app.sounds = vec![sound(1, &[]), sound(2, &[]), sound(3, &[])];
    assert_eq!(app.resolve_trim_timeline_anchor_sound_id(2), 2);
    assert_eq!(app.resolve_trim_timeline_anchor_sound_id(9), 1);
    app.selected = Some(3);
    assert_eq!(app.resolve_trim_timeline_anchor_sound_id(9), 3);
    app.trim_timeline_state = Some(state(8, true, vec![row(&[(50, 8), (51, 2)]), row(&[]), row(&[])]));
    assert_eq!(app.resolve_trim_timeline_anchor_sound_id(9), 2);
    app.trim_timeline_state.as_mut().unwrap().sound_id = 1;
    assert_eq!(app.resolve_trim_timeline_anchor_sound_id(9), 1);
}

#[test]
fn sync_creates_or_keeps_timeline() {
    let mut app = SoundFxApp::new();
    app.sounds = vec![sound(1, &[]), sound(2, &[])];
    assert_eq!(app.sync_trim_timeline_state_for(2), 2);
    let st = app.trim_timeline_state.as_ref().unwrap();
    assert_eq!(st.sound_id, 2);
    assert!(!st.enabled);
    assert_eq!(clip_counts(&st.rows), vec![0, 0, 0]);
    app.trim_timeline_state.as_mut().unwrap().rows = vec![row(&[(1, 1)])];
    assert_eq!(app.sync_trim_timeline_state_for(1), 1);
    let st = app.trim_timeline_state.as_ref().unwrap();
    assert_eq!(st.sound_id, 1);
    assert_eq!(clip_counts(&st.rows), vec![1, 0, 0]);
}

#[test]
fn toggle_timeline_opens_editor_and_closes_again() {
    let mut app = SoundFxApp::new();
    app.sounds = vec![sound(1, &[]), sound(2, &[])];
    app.selected = Some(2);
    app.pending_preview_sound = Some(1);
    assert!(app.toggle_timeline_mode());
    assert_eq!(app.app_view, AppView::Editor);
    let st = app.trim_timeline_state.as_ref().unwrap();
    assert!(st.enabled);
    assert_eq!(st.sound_id, 2);
    assert!(app.pending_preview_sound.is_none());
    app.trim_timeline_drop_target_row = Some(1);
    assert!(!app.toggle_timeline_mode());
    assert!(!app.trim_timeline_state.as_ref().unwrap().enabled);
    assert!(app.trim_timeline_drop_target_row.is_none());
}

#[test]
fn tags_input_follows_selection() {
    let mut app = SoundFxApp::new();
    app.sounds = vec![sound(1, &["meme", "loud"]), sound(2, &[])];
    app.editor_tags_input = "stale".to_owned();
    app.sync_editor_tags_input();
    assert_eq!(app.editor_tags_input, "");
    assert_eq!(app.editor_tags_input_sound_id, None);
    app.selected = Some(1);
    app.sync_editor_tags_input();
    assert_eq!(app.editor_tags_input, "meme, loud");
    assert_eq!(app.editor_tags_input_sound_id, Some(1));
    app.editor_tags_input = "edited".to_owned();
    app.sync_editor_tags_input();
    assert_eq!(app.editor_tags_input, "edited");
}

#[test]
fn delete_selected_then_finish_selects_neighbour() {
    let mut app = SoundFxApp::new();
    app.sounds = vec![sound(1, &[]), sound(2, &[]), sound(3, &[])];
    assert!(app.delete_selected().is_none());
    app.selected = Some(3);
    let (index, removed) = app.delete_selected().unwrap();
    assert_eq!((index, removed.id), (2, 3));
    app.finish_delete_selected(index, Ok(()));
    assert_eq!(app.selected, Some(2));
    assert!(app.pending_save);

    app.selected = Some(1);
    let (index, _) = app.delete_selected().unwrap();
    app.finish_delete_selected(index, Ok(()));
    assert_eq!(app.selected, Some(2));

    app.finish_delete_selected(0, Err("cannot remove file".to_owned()));
    assert_eq!(app.status.as_deref(), Some("cannot remove file"));
}

#[test]
fn pending_export_waits_for_deselection_and_save() {
    let mut app = SoundFxApp::new();
    assert_eq!(app.maybe_start_pending_processed_export(true), None);
    app.pending_processed_export_sound = Some(4);
    app.selected = Some(4);
    assert_eq!(app.maybe_start_pending_processed_export(true), None);
    app.selected = None;
    app.pending_save = true;
    assert_eq!(app.maybe_start_pending_processed_export(false), None);
    assert_eq!(app.maybe_start_pending_processed_export(true), Some(4));
    assert!(app.pending_processed_export_sound.is_none());
}

#[test]
fn paste_row_prefers_free_preferred_row() {
    let mut st = state(1, true, vec![row(&[]), row(&[]), row(&[])]);
    assert_eq!(SoundFxApp::trim_timeline_pick_paste_row(&mut st, 1, &vec![false, false, false]), 1);
    assert_eq!(SoundFxApp::trim_timeline_pick_paste_row(&mut st, 9, &vec![false, false, false]), 2);
    assert_eq!(st.rows.len(), 3);
}

#[test]
fn paste_row_takes_nearest_free_row_upper_first() {
    let mut st = state(1, true, vec![row(&[]), row(&[]), row(&[]), row(&[]), row(&[])]);
    assert_eq!(SoundFxApp::trim_timeline_pick_paste_row(&mut st, 2, &vec![false, true, true, true, false]), 0);
    assert_eq!(SoundFxApp::trim_timeline_pick_paste_row(&mut st, 2, &vec![true, true, true, false, true]), 3);
    assert_eq!(st.rows.len(), 5);
}

#[test]
fn paste_row_adds_row_when_all_busy() {
    let mut st = state(1, true, vec![row(&[(1, 1)]), row(&[(2, 1)])]);
    assert_eq!(SoundFxApp::trim_timeline_pick_paste_row(&mut st, 0, &vec![true, true]), 2);
    assert_eq!(clip_counts(&st.rows), vec![1, 1, 0]);
}

fn snap(sound_id: u128, data: u32) -> TrimSnapshot<u32> {
    TrimSnapshot { sound_id, data }
}

fn datas(stack: &[TrimSnapshot<u32>]) -> Vec<(u128, u32)> {
    stack.iter().map(|s| (s.sound_id, s.data)).collect()
}

#[test]
fn take_last_snapshot_of_sound() {
    let mut stack = vec![snap(1, 10), snap(2, 20), snap(1, 11), snap(2, 21)];
    let taken = take_last_trim_snapshot(&mut stack, 1).unwrap();
    assert_eq!((taken.sound_id, taken.data), (1, 11));
    assert_eq!(datas(&stack), vec![(1, 10), (2, 20), (2, 21)]);
    assert!(take_last_trim_snapshot(&mut stack, 3).is_none());
    assert_eq!(stack.len(), 3);
}

#[test]
fn undo_redo_takes_from_matching_stack() {
    let mut app = SoundFxApp::new();
    app.sounds = vec![sound(1, &[]), sound(2, &[])];
    let mut undo = vec![snap(1, 10), snap(2, 20)];
    let mut redo = vec![snap(1, 30)];
    assert!(app.handle_trim_undo_redo(&mut undo, &mut redo, false, false, true).is_none());
    app.selected = Some(1);
    assert!(app.handle_trim_undo_redo(&mut undo, &mut redo, true, false, true).is_none());
    assert!(app.handle_trim_undo_redo(&mut undo, &mut redo, false, false, false).is_none());
    let (is_redo, s) = app.handle_trim_undo_redo(&mut undo, &mut redo, false, true, true).unwrap();
    assert!(is_redo);
    assert_eq!(s.data, 30);
    assert!(redo.is_empty());
    assert!(app.handle_trim_undo_redo(&mut undo, &mut redo, false, true, true).is_none());
    let (is_redo, s) = app.handle_trim_undo_redo(&mut undo, &mut redo, false, false, true).unwrap();
    assert!(!is_redo);
    assert_eq!(s.data, 10);
    assert_eq!(datas(&undo), vec![(2, 20)]);
}

#[test]
fn undo_then_redo_restores_histories() {
    let mut app = SoundFxApp::new();
    app.sounds = vec![sound(1, &[])];
    app.selected = Some(1);
    let mut undo = vec![snap(1, 5), snap(1, 6)];
    let mut redo = vec![snap(1, 9)];
    let (undo_before, redo_before) = (datas(&undo), datas(&redo));
    let current = 7;
    let (_, restored) = app.handle_trim_undo_redo(&mut undo, &mut redo, false, false, true).unwrap();
    SoundFxApp::push_trim_history_entry(&mut redo, snap(1, current));
    let (_, back) = app.handle_trim_undo_redo(&mut undo, &mut redo, false, true, false).unwrap();
    assert_eq!(back.data, current);
    SoundFxApp::push_trim_history_entry(&mut undo, snap(1, restored.data));
    assert_eq!(datas(&undo), undo_before);
    assert_eq!(datas(&redo), redo_before);
}
