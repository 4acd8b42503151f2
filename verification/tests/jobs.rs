use sound_fx::jobs::{
    LibraryImportMessage, LibraryImportResult, ProcessedExportMessage, TrimCommitMessage,
};
use sound_fx::model::{ActiveLibraryImport, Folder, SoundEffect, SoundFxApp};

fn sound(id: u128, name: &str, folder_id: Option<u128>) -> SoundEffect {
    SoundEffect { id, name: name.to_owned(), tags: Vec::new(), folder_id, favorite: false }
}

fn ids(app: &SoundFxApp) -> Vec<u128> {
    app.sounds.iter().map(|s| s.id).collect()
}

fn running_job(job_id: u128, target: Option<u128>) -> ActiveLibraryImport {
    ActiveLibraryImport {
        job_id,
        target_folder_id: target,
        completed: 0,
        total: 3,
        current_label: "Preparing import...".to_owned(),
    }
}

#[test]
fn trim_commit_replaces_sound() {
    let mut app = SoundFxApp::new();
    app.sounds = vec![sound(1, "a", None), sound(2, "b", None)];
    app.selected = Some(2);
    app.trim_commit_inflight = vec![2, 5];
    app.trim_timeline_state = Some(SoundFxApp::default_trim_timeline_state(2));
    let effects = app.poll_trim_commit_jobs(TrimCommitMessage::Finished {
        sound_id: 2,
        keep_old: false,
        result: Ok(sound(2, "b trimmed", None)),
    });
    assert!(effects.changed && effects.save_library && !effects.save_folders);
    assert_eq!(app.sounds[1].name, "b trimmed");
    assert_eq!(app.selected, Some(2));
    assert_eq!(app.trim_commit_inflight, vec![5]);
    assert!(app.trim_timeline_state.is_none());
}

#[test]
fn trim_commit_keeping_old_adds_in_front() {
    let mut app = SoundFxApp::new();
    app.sounds = vec![sound(1, "a", None)];
    let effects = app.poll_trim_commit_jobs(TrimCommitMessage::Finished {
        sound_id: 1,
        keep_old: true,
        result: Ok(sound(9, "a copy", None)),
    });
    assert!(effects.changed);
    assert_eq!(ids(&app), vec![9, 1]);
    assert_eq!(app.selected, Some(9));
}

#[test]
fn trim_commit_failure_is_shown() {
    let mut app = SoundFxApp::new();
    app.trim_commit_inflight = vec![1];
    let effects = app.poll_trim_commit_jobs(TrimCommitMessage::Finished {
        sound_id: 1,
        keep_old: false,
        result: Err("ffmpeg failed".to_owned()),
    });
    assert!(!effects.changed && !effects.save_library);
    assert_eq!(app.status.as_deref(), Some("ffmpeg failed"));
    assert!(app.trim_commit_inflight.is_empty());
}

#[test]
fn processed_export_error_shown_while_selected() {
    let mut app = SoundFxApp::new();
    app.processed_export_inflight = vec!["a.wav".to_owned(), "b.wav".to_owned()];
    app.poll_processed_export_jobs(ProcessedExportMessage::Finished {
        export_path: "a.wav".to_owned(),
        result: Err("disk full".to_owned()),
    });
    assert_eq!(app.processed_export_inflight, vec!["b.wav".to_owned()]);
    assert!(app.status.is_none());
    app.selected = Some(1);
    app.poll_processed_export_jobs(ProcessedExportMessage::Finished {
        export_path: "b.wav".to_owned(),
        result: Err("disk full".to_owned()),
    });
    assert!(app.processed_export_inflight.is_empty());
    assert_eq!(app.status.as_deref(), Some("disk full"));
}

#[test]
fn import_progress_updates_matching_job_only() {
    let mut app = SoundFxApp::new();
    app.library_import_job = Some(running_job(7, None));
    let effects = app.poll_library_import_jobs(LibraryImportMessage::Progress {
        job_id: 8,
        completed: 1,
        total: 3,
        current_label: "x.wav".to_owned(),
    });
    assert!(!effects.changed);
    assert_eq!(app.library_import_job.as_ref().unwrap().completed, 0);
    let effects = app.poll_library_import_jobs(LibraryImportMessage::Progress {
        job_id: 7,
        completed: 2,
        total: 3,
        current_label: "y.wav".to_owned(),
    });
    assert!(effects.changed);
    let job = app.library_import_job.as_ref().unwrap();
    assert_eq!((job.completed, job.total, job.current_label.as_str()), (2, 3, "y.wav"));
}

#[test]
fn import_finished_adds_sounds_and_folders() {
    let mut app = SoundFxApp::new();
    app.folders = vec![Folder { id: 1, name: "Target".to_owned(), parent_id: None }];
    app.sounds = vec![sound(5, "old", None)];
    app.library_audio_tag_filters = vec!["meme".to_owned()];
    app.library_import_job = Some(running_job(7, Some(1)));
    let effects = app.poll_library_import_jobs(LibraryImportMessage::Finished {
        job_id: 7,
        result: Ok(LibraryImportResult {
            target_folder_id: Some(1),
            imported_sounds: vec![sound(20, "new a", Some(1)), sound(21, "new b", Some(30))],
            imported_folders: vec![Folder { id: 30, name: "Sub".to_owned(), parent_id: Some(1) }],
            ignored_count: 0,
        }),
    });
    assert!(effects.changed && effects.save_library && effects.save_folders);
    assert_eq!(ids(&app), vec![20, 21, 5]);
    assert_eq!(app.selected, Some(20));
    assert_eq!(app.library_current_folder, Some(1));
    assert!(app.library_audio_tag_filters.is_empty());
    assert!(app.library_import_job.is_none());
    assert_eq!(app.folders.len(), 2);
    assert_eq!(app.status.as_deref(), Some("Imported 2 sound(s)"));
}

#[test]
fn import_into_vanished_folder_goes_to_top_level() {
    let mut app = SoundFxApp::new();
    app.library_import_job = Some(running_job(7, Some(1)));
    app.poll_library_import_jobs(LibraryImportMessage::Finished {
        job_id: 7,
        result: Ok(LibraryImportResult {
            target_folder_id: Some(1),
            imported_sounds: vec![sound(20, "a", Some(1))],
            imported_folders: vec![Folder { id: 30, name: "Sub".to_owned(), parent_id: Some(1) }],
            ignored_count: 0,
        }),
    });
    assert_eq!(app.sounds[0].folder_id, None);
    assert_eq!(app.folders[0].parent_id, None);
    assert_eq!(app.library_current_folder, None);
}

#[test]
fn import_finding_nothing_reports_it() {
    let mut app = SoundFxApp::new();
    app.library_import_job = Some(running_job(7, None));
    let effects = app.poll_library_import_jobs(LibraryImportMessage::Finished {
        job_id: 7,
        result: Ok(LibraryImportResult {
            target_folder_id: None,
            imported_sounds: Vec::new(),
            imported_folders: Vec::new(),
            ignored_count: 2,
        }),
    });
    assert!(!effects.changed && !effects.save_library && !effects.save_folders);
    assert_eq!(app.status.as_deref(), Some("No supported audio files were found"));
    assert!(app.library_import_job.is_none());
}

#[test]
fn import_failure_and_stale_messages() {
    let mut app = SoundFxApp::new();
    app.library_import_job = Some(running_job(7, None));
    app.poll_library_import_jobs(LibraryImportMessage::Finished { job_id: 6, result: Err("old".to_owned()) });
    assert!(app.library_import_job.is_some());
    assert!(app.status.is_none());
    app.poll_library_import_jobs(LibraryImportMessage::Finished { job_id: 7, result: Err("denied".to_owned()) });
    assert!(app.library_import_job.is_none());
    assert_eq!(app.status.as_deref(), Some("denied"));
}

#[test]
fn trim_commit_starts_for_selected_sound() {
    let mut app = SoundFxApp::new();
    app.sounds = vec![sound(1, "a", None), sound(2, "b", None)];
    app.selected = Some(2);
    let request = app.start_trim_commit_job(false, Some(2)).unwrap();
    assert_eq!(request.sound.id, 2);
    assert!(!request.keep_old);
    assert!(request.stop_audio);
    assert!(request.timeline_output_name.is_none());
    assert_eq!(app.trim_commit_inflight, vec![2]);
    assert_eq!(app.trim_timeline_state.as_ref().unwrap().sound_id, 2);
    assert!(app.start_trim_commit_job(true, None).is_none());
    assert_eq!(app.trim_commit_inflight, vec![2]);
}

#[test]
fn trim_commit_of_missing_sound_does_nothing() {
    let mut app = SoundFxApp::new();
    assert!(app.start_trim_commit_job(false, None).is_none());
    assert!(app.trim_commit_inflight.is_empty());
}

#[test]
fn trim_commit_mixes_open_timeline() {
    let mut app = SoundFxApp::new();
    app.sounds = vec![sound(1, "Sound 1", None), sound(2, "b", None)];
    app.selected = Some(2);
    let mut state = SoundFxApp::default_trim_timeline_state(1);
    state.enabled = true;
    state.timeline_is_playing = true;
    app.trim_timeline_state = Some(state);
    app.pending_preview_sound = Some(1);
    let request = app.start_trim_commit_job(true, None).unwrap();
    assert_eq!(request.sound.id, 1);
    assert!(request.keep_old && request.stop_audio);
    assert_eq!(request.timeline_output_name.as_deref(), Some("Sound 2"));
    assert!(!app.trim_timeline_state.as_ref().unwrap().timeline_is_playing);
    assert!(app.pending_preview_sound.is_none());

    app.trim_commit_inflight.clear();
    app.trim_commit_output_name = "  My mix ".to_owned();
    let request = app.start_trim_commit_job(false, None).unwrap();
    assert_eq!(request.timeline_output_name.as_deref(), Some("My mix"));
}

#[test]
fn commit_result_clears_in_flight_mark() {
    let mut app = SoundFxApp::new();
    app.sounds = vec![sound(1, "a", None)];
    app.selected = Some(1);
    app.trim_commit_inflight = vec![7];
    let request = app.start_trim_commit_job(false, None).unwrap();
    assert_eq!(app.trim_commit_inflight, vec![7, 1]);
    app.poll_trim_commit_jobs(TrimCommitMessage::Finished {
        sound_id: request.sound.id,
        keep_old: false,
        result: Err("cancelled".to_owned()),
    });
    assert_eq!(app.trim_commit_inflight, vec![7]);
}
