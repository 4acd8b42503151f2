use sound_fx::drops::{DropOutcome, DroppedFile};
use sound_fx::model::{AppView, LibraryTab, SoundFxApp};

fn dropped(path: &str) -> Option<DroppedFile> {
    Some(DroppedFile { path: path.to_owned(), normalized: format!("/abs/{path}") })
}

fn import_of(outcome: DropOutcome) -> (Vec<String>, Option<u128>, bool) {
    match outcome {
        DropOutcome::Import { paths, target_folder_id, in_background } => (paths, target_folder_id, in_background),
        DropOutcome::Ignored => panic!("drop ignored"),
        DropOutcome::Disarmed => panic!("drop disarmed"),
    }
}

#[test]
fn library_drop_zone_needs_sound_tab_without_modal() {
    let mut app = SoundFxApp::new();
    assert!(app.external_library_drop_active(false, true));
    assert!(!app.external_library_drop_active(true, true));
    assert!(!app.external_library_drop_active(false, false));
    app.library_tab = LibraryTab::Videos;
    assert!(!app.external_library_drop_active(false, true));
}

#[test]
fn drop_elsewhere_disarms() {
    let mut app = SoundFxApp::new();
    app.library_tab = LibraryTab::Videos;
    app.editor_drop_armed = true;
    assert!(matches!(app.handle_dropped_files(false, vec![dropped("a.wav")], None, true), DropOutcome::Disarmed));
    assert!(!app.editor_drop_armed);

    let mut app = SoundFxApp::new();
    app.app_view = AppView::Editor;
    app.editor_drop_armed = true;
    assert!(matches!(app.handle_dropped_files(true, vec![dropped("a.wav")], None, true), DropOutcome::Disarmed));
    assert!(!app.editor_drop_armed);
}

#[test]
fn library_drop_imports_in_background_into_target() {
    let mut app = SoundFxApp::new();
    app.library_drop_target_folder = Some(3);
    app.library_drop_target_root = true;
    let (paths, target, background) =
        import_of(app.handle_dropped_files(false, vec![dropped("a.wav"), None, dropped("b.mp3")], Some(Some(3)), false));
    assert_eq!(paths, vec!["a.wav".to_owned(), "b.mp3".to_owned()]);
    assert_eq!(target, Some(3));
    assert!(background);
    assert!(app.library_drop_target_folder.is_none());
    assert!(!app.library_drop_target_root);
}

#[test]
fn library_drop_outside_targets_is_ignored() {
    let mut app = SoundFxApp::new();
    assert!(matches!(app.handle_dropped_files(false, vec![dropped("a.wav")], None, true), DropOutcome::Ignored));
    assert!(matches!(app.handle_dropped_files(false, Vec::new(), Some(None), false), DropOutcome::Ignored));
}

#[test]
fn editor_drop_imports_at_top_level() {
    let mut app = SoundFxApp::new();
    app.app_view = AppView::Editor;
    assert!(matches!(app.handle_dropped_files(false, vec![dropped("a.wav")], Some(Some(3)), false), DropOutcome::Ignored));
    let (paths, target, background) =
        import_of(app.handle_dropped_files(false, vec![dropped("a.wav")], Some(Some(3)), true));
    assert_eq!(paths, vec!["a.wav".to_owned()]);
    assert_eq!(target, None);
    assert!(!background);

    app.editor_drop_armed = true;
    let (paths, _, _) = import_of(app.handle_dropped_files(false, vec![dropped("c.wav")], None, false));
    assert_eq!(paths, vec!["c.wav".to_owned()]);
    assert!(!app.editor_drop_armed);
}

#[test]
fn own_drag_is_ignored_once() {
    let mut app = SoundFxApp::new();
    app.app_view = AppView::Editor;
    app.ignored_drop_path = Some("/abs/mine.wav".to_owned());
    let (paths, _, _) = import_of(app.handle_dropped_files(
        false,
        vec![dropped("mine.wav"), dropped("other.wav"), dropped("mine.wav")],
        None,
        true,
    ));
    assert_eq!(paths, vec!["other.wav".to_owned(), "mine.wav".to_owned()]);
    assert!(app.ignored_drop_path.is_none());

    app.ignored_drop_path = Some("/abs/mine.wav".to_owned());
    assert!(matches!(app.handle_dropped_files(false, vec![dropped("mine.wav")], None, true), DropOutcome::Ignored));
    assert!(app.ignored_drop_path.is_none());
}

#[test]
fn hovering_arms_drop_over_targets_only() {
    let mut app = SoundFxApp::new();
    assert!(app.handle_external_file_hover(false, true, false, Some(Some(2)), false));
    assert!(app.editor_drop_armed);
    assert!(!app.handle_external_file_hover(false, true, false, None, true));
    assert!(!app.editor_drop_armed);

    app.app_view = AppView::Editor;
    assert!(app.handle_external_file_hover(false, true, false, None, true));
    assert!(app.editor_drop_armed);
    assert!(!app.handle_external_file_hover(false, false, true, None, false));
    assert!(app.editor_drop_armed);
    assert!(!app.handle_external_file_hover(false, false, false, None, false));
    assert!(!app.editor_drop_armed);

    app.editor_drop_armed = true;
    assert!(!app.handle_external_file_hover(true, true, false, None, true));
    assert!(!app.editor_drop_armed);
}
