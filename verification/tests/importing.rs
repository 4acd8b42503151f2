use sound_fx::importing::{FolderRef, ImportEntry, ImportStep};
use sound_fx::model::{Folder, SoundEffect, SoundFxApp};

fn file(token: usize, name: &str, audio: bool) -> ImportEntry {
    ImportEntry {
        token,
        file_name: Some(name.to_owned()),
        sort_key: name.as_bytes().to_vec(),
        is_dir: false,
        is_file: true,
        supported_audio: audio,
        hidden_or_system: false,
        readable: true,
        children: Vec::new(),
    }
}

fn dir(token: usize, name: &str, children: Vec<ImportEntry>) -> ImportEntry {
    ImportEntry {
        token,
        file_name: Some(name.to_owned()),
        sort_key: name.as_bytes().to_vec(),
        is_dir: true,
        is_file: false,
        supported_audio: false,
        hidden_or_system: false,
        readable: true,
        children,
    }
}

fn sound(id: u128) -> SoundEffect {
    SoundEffect { id, name: format!("s{id}"), tags: Vec::new(), folder_id: None, favorite: false }
}

/// pack/ { a.mp3, notes.txt, sub/ { b.wav }, empty/ { readme.md } }
fn sample_tree() -> ImportEntry {
    dir(
        1,
        "pack",
        vec![
            dir(2, "sub", vec![file(3, "b.wav", true)]),
            dir(4, "empty", vec![file(5, "readme.md", false)]),
            file(6, "a.mp3", true),
            file(7, "notes.txt", false),
        ],
    )
}

fn describe(steps: &[ImportStep]) -> Vec<String> {
    fn target(f: &FolderRef) -> String {
        match f {
            FolderRef::Existing(None) => "top".to_owned(),
            FolderRef::Existing(Some(id)) => format!("folder {id}"),
            FolderRef::New(k) => format!("new {k}"),
        }
    }
    steps
        .iter()
        .map(|s| match s {
            ImportStep::CreateFolder { name, parent } => format!("mkdir {name} in {}", target(parent)),
            ImportStep::ImportFile { token, folder } => format!("file {token} in {}", target(folder)),
        })
        .collect()
}

#[test]
fn skip_rules_for_import_paths() {
    assert!(SoundFxApp::should_skip_import_path(None, false));
    assert!(SoundFxApp::should_skip_import_path(Some("$RECYCLE.BIN"), false));
    assert!(SoundFxApp::should_skip_import_path(Some("System Volume Information"), false));
    assert!(SoundFxApp::should_skip_import_path(Some("MSOCache"), false));
    assert!(SoundFxApp::should_skip_import_path(Some("song.mp3"), true));
    assert!(!SoundFxApp::should_skip_import_path(Some("song.mp3"), false));
    assert!(!SoundFxApp::should_skip_import_path(Some(""), false));
}

#[test]
fn audio_detection_looks_into_directories() {
    let tree = sample_tree();
    assert!(SoundFxApp::path_contains_supported_audio(&tree));
    assert!(!SoundFxApp::path_contains_supported_audio(&tree.children[1]));
    let mut hidden = sample_tree();
    hidden.hidden_or_system = true;
    assert!(!SoundFxApp::path_contains_supported_audio(&hidden));
    let mut unreadable = sample_tree();
    unreadable.readable = false;
    assert!(!SoundFxApp::path_contains_supported_audio(&unreadable));
}

#[test]
fn audio_count_counts_supported_files() {
    assert_eq!(SoundFxApp::count_importable_audio_files(&sample_tree()), 2);
    assert_eq!(SoundFxApp::count_importable_audio_files(&file(1, "x.ogg", true)), 1);
    assert_eq!(SoundFxApp::count_importable_audio_files(&file(1, "$x.ogg", true)), 0);
}

#[test]
fn listing_puts_directories_first_then_names() {
    let listed = SoundFxApp::sorted_directory_entries(vec![
        file(1, "b.wav", true),
        dir(2, "zeta", Vec::new()),
        file(3, "A.wav", true),
        dir(4, "alpha", Vec::new()),
        file(5, "a.wav", true),
    ]);
    let tokens: Vec<usize> = listed.iter().map(|e| e.token).collect();
    assert_eq!(tokens, vec![4, 2, 3, 5, 1]);
}

#[test]
fn plan_creates_folders_for_directories_with_audio() {
    let plan = SoundFxApp::run_library_import_job(&vec![sample_tree(), file(8, "c.flac", true)], Some(9));
    assert_eq!(
        describe(&plan.steps),
        vec![
            "mkdir pack in folder 9",
            "mkdir sub in new 0",
            "file 3 in new 1",
            "file 6 in new 0",
            "file 8 in folder 9",
        ]
    );
    assert_eq!(plan.ignored, 2);
    assert_eq!(plan.total, 3);
}

#[test]
fn planned_files_match_expected_total() {
    let entries = vec![sample_tree(), file(8, "c.flac", true), file(9, "d.doc", false)];
    let plan = SoundFxApp::run_library_import_job(&entries, None);
    let files = plan.steps.iter().filter(|s| matches!(s, ImportStep::ImportFile { .. })).count();
    assert_eq!(files, plan.total);
}

#[test]
fn blank_directory_name_becomes_folder() {
    let mut steps = Vec::new();
    let mut ignored = 0usize;
    let mut created = 0usize;
    let taken = SoundFxApp::import_path_entry(
        &dir(1, "   ", vec![file(2, "x.wav", true)]),
        FolderRef::Existing(None),
        &mut steps,
        &mut ignored,
        &mut created,
    );
    assert!(taken);
    assert_eq!(describe(&steps), vec!["mkdir Folder in top", "file 2 in new 0"]);
    assert_eq!((ignored, created), (0, 1));
    let taken = SoundFxApp::import_path_entry(
        &file(3, "x.txt", false),
        FolderRef::Existing(None),
        &mut steps,
        &mut ignored,
        &mut created,
    );
    assert!(!taken);
    assert_eq!((ignored, created, steps.len()), (1, 1, 2));
}

#[test]
fn import_paths_to_folder_adds_and_opens() {
    let mut app = SoundFxApp::new();
    app.folders = vec![Folder { id: 3, name: "f".to_owned(), parent_id: None }];
    app.sounds = vec![sound(1)];
    app.library_audio_tag_filters = vec!["x".to_owned()];
    let r = app.import_paths_to_folder(vec![sound(5), sound(6)], 0, Some(3));
    assert_eq!(r, Ok(2));
    let ids: Vec<u128> = app.sounds.iter().map(|s| s.id).collect();
    assert_eq!(ids, vec![5, 6, 1]);
    assert_eq!(app.selected, Some(5));
    assert_eq!(app.library_current_folder, Some(3));
    assert!(app.library_audio_tag_filters.is_empty());
    assert!(app.pending_save);
}

#[test]
fn import_paths_to_folder_reports_nothing_found() {
    let mut app = SoundFxApp::new();
    assert_eq!(
        app.import_paths_to_folder(Vec::new(), 3, None),
        Err("No supported audio files were found".to_owned())
    );
    assert_eq!(app.import_paths_to_folder(Vec::new(), 0, None), Ok(0));
    app.status = Some("busy".to_owned());
    assert_eq!(app.import_paths_to_folder(Vec::new(), 3, None), Ok(0));
}

#[test]
fn import_paths_goes_to_top_level() {
    let mut app = SoundFxApp::new();
    app.library_current_folder = Some(2);
    app.folder_import_select_mode = Some(2);
    assert_eq!(app.import_paths(vec![sound(7)], 0), 1);
    assert_eq!(app.library_current_folder, None);
    assert_eq!(app.folder_import_select_mode, None);
    assert_eq!(app.selected, Some(7));

    let mut empty = SoundFxApp::new();
    assert_eq!(empty.import_paths(Vec::new(), 1), 0);
    assert_eq!(empty.status.as_deref(), Some("No supported audio files were found"));
}

#[test]
fn background_import_starts_once() {
    let mut app = SoundFxApp::new();
    assert!(!app.begin_import_paths_to_folder(&Vec::new(), None));
    assert!(app.library_import_job.is_none());
    assert!(app.begin_import_paths_to_folder(&vec![sample_tree()], Some(4)));
    let job = app.library_import_job.as_ref().unwrap();
    assert_eq!((job.completed, job.total, job.target_folder_id), (0, 2, Some(4)));
    assert_eq!(job.current_label, "Preparing import...");
    assert_eq!(app.status.as_deref(), Some("Importing 2 sound(s)..."));
    assert!(!app.begin_import_paths_to_folder(&vec![file(1, "a.wav", true)], None));
    assert_eq!(app.status.as_deref(), Some("Another import is already running"));
}

#[test]
fn background_import_without_audio_scans() {
    let mut app = SoundFxApp::new();
    assert!(app.begin_import_paths_to_folder(&vec![file(1, "a.txt", false)], None));
    assert_eq!(app.library_import_job.as_ref().unwrap().total, 0);
    assert_eq!(app.status.as_deref(), Some("Scanning dropped files..."));
}

#[test]
fn clipboard_audio_detection() {
    assert!(SoundFxApp::clipboard_has_supported_audio(&vec![file(1, "a.txt", false), sample_tree()]));
    assert!(!SoundFxApp::clipboard_has_supported_audio(&vec![file(1, "a.txt", false)]));
    assert!(!SoundFxApp::clipboard_has_supported_audio(&Vec::new()));
}

#[test]
fn paste_from_clipboard_errors_and_success() {
    let mut app = SoundFxApp::new();
    assert_eq!(
        app.paste_clipboard_sounds_to_folder(0, Vec::new(), 0, 3),
        Err("Clipboard does not contain any files".to_owned())
    );
    assert_eq!(
        app.paste_clipboard_sounds_to_folder(2, Vec::new(), 0, 3),
        Err("Clipboard has no supported audio files".to_owned())
    );
    assert_eq!(
        app.paste_clipboard_sounds_to_folder(2, Vec::new(), 2, 3),
        Err("No supported audio files were found".to_owned())
    );
    assert!(app.sounds.is_empty());
    assert_eq!(app.paste_clipboard_sounds_to_folder(1, vec![sound(4)], 0, 3), Ok(1));
    assert_eq!(app.library_current_folder, Some(3));
    assert_eq!(app.selected, Some(4));
}

#[test]
fn import_panel_offers_audio_and_directories() {
    let mut app = SoundFxApp::new();
    let mut hidden = file(6, "h.wav", true);
    hidden.hidden_or_system = true;
    let listing = vec![
        file(1, "b.wav", true),
        file(2, "notes.txt", false),
        dir(3, "zeta", Vec::new()),
        file(4, "$x.wav", true),
        dir(5, "alpha", Vec::new()),
        hidden,
    ];
    app.add_sound(Some(listing));
    assert!(app.show_import_panel);
    let tokens: Vec<usize> = app.import_audio_entries.iter().map(|e| e.token).collect();
    assert_eq!(tokens, vec![5, 3, 1]);
    app.refresh_import_audio_entries(None);
    assert!(app.import_audio_entries.is_empty());
}
