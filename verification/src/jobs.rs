use vstd::prelude::*;
use crate::folders::folder_exists;
use crate::model::{
    ActiveLibraryImport, Folder, SoundEffect, SoundFxApp, SoundView, first_index,
    lemma_first_index, sound_views, without,
};
use crate::editor::{anchor_sound_id, timeline_resynced, toggle_fallback};
use crate::model::TrimTimelineState;
use crate::naming::{decimal, decimal_exec, first_free_default_name, next_default_sound_name, str_views};
use crate::text::{chars_of, spec_trim, string_of, trim_chars};
use crate::tree::find_sound_index;

verus! {

/// The outcome of a background trim commit.
pub enum TrimCommitMessage {
    Finished { sound_id: u128, keep_old: bool, result: Result<SoundEffect, String> },
}

/// The outcome of a background export of a processed sound.
pub enum ProcessedExportMessage {
    Finished { export_path: String, result: Result<(), String> },
}

/// What a background library import found.
pub struct LibraryImportResult {
    pub target_folder_id: Option<u128>,
    pub imported_sounds: Vec<SoundEffect>,
    pub imported_folders: Vec<Folder>,
    pub ignored_count: usize,
}

/// Progress and outcome of a background library import.
pub enum LibraryImportMessage {
    Progress { job_id: u128, completed: usize, total: usize, current_label: String },
    Finished { job_id: u128, result: Result<LibraryImportResult, String> },
}

/// What the application must do after a job message was handled.
pub struct JobEffects {
    /// Something visible changed: repaint.
    pub changed: bool,
    /// Store the folder list.
    pub save_folders: bool,
    /// Store the library now.
    pub save_library: bool,
}

/// The folder id after an import: ids equal to the import's target become
/// the target that still exists.
pub open spec fn retarget(id: Option<u128>, from: Option<u128>, to: Option<u128>) -> Option<u128> {
    if id == from {
        to
    } else {
        id
    }
}

/// The import's target folder when it still exists.
pub open spec fn existing_target(fs: Seq<Folder>, target: Option<u128>) -> Option<u128> {
    match target {
        Some(t) => if folder_exists(fs, t) {
            Some(t)
        } else {
            None
        },
        None => None,
    }
}

/// The imported folders with their parent retargeted.
pub open spec fn retargeted_folders(fs: Seq<Folder>, from: Option<u128>, to: Option<u128>) -> Seq<Folder> {
    fs.map_values(|f: Folder| Folder { parent_id: retarget(f.parent_id, from, to), ..f })
}

/// The imported sounds with their folder retargeted.
pub open spec fn retargeted_sounds(ss: Seq<SoundView>, from: Option<u128>, to: Option<u128>) -> Seq<SoundView> {
    ss.map_values(|s: SoundView| SoundView { folder_id: retarget(s.folder_id, from, to), ..s })
}

/// The status line after importing `n` sounds.
pub open spec fn imported_status(n: nat) -> Seq<char> {
    "Imported "@ + decimal(n) + " sound(s)"@
}

/// The status line when an import found nothing to import.
pub open spec fn nothing_found_status() -> Seq<char> {
    "No supported audio files were found"@
}

impl SoundFxApp {
    /// Handles a finished trim commit: the new sound replaces the old one, or
    /// is added in front and selected when the old one is kept; the timeline
    /// is closed. A failure is shown. The caller saves the library when
    /// `save_library` and clears the status once that succeeded.
    #[verifier::rlimit(50)]
    pub fn poll_trim_commit_jobs(&mut self, message: TrimCommitMessage) -> (effects: JobEffects)
        ensures
            crate::model::id_sets_distinct(*old(self)) ==> crate::model::id_sets_distinct(*final(self)),
            match message {
                TrimCommitMessage::Finished { sound_id, keep_old, result } => {
                    &&& final(self).trim_commit_inflight@ == without(old(self).trim_commit_inflight@, sound_id)
                    &&& match result {
                        Ok(sound) => {
                            &&& effects.changed && effects.save_library && !effects.save_folders
                            &&& final(self).trim_timeline_state is None
                            &&& final(self).trim_timeline_drop_target_row is None
                            &&& if keep_old {
                                &&& sound_views(final(self).sounds@) == seq![sound@] + sound_views(old(self).sounds@)
                                &&& final(self).selected == Some(sound.id)
                            } else {
                                &&& final(self).selected == old(self).selected
                                &&& match first_index(sound_views(old(self).sounds@), |s: SoundView| s.id == sound_id) {
                                    Some(i) => sound_views(final(self).sounds@) == sound_views(old(self).sounds@).update(i, sound@),
                                    None => sound_views(final(self).sounds@) == sound_views(old(self).sounds@),
                                }
                            }
                            &&& *final(self) == (SoundFxApp {
                                trim_commit_inflight: final(self).trim_commit_inflight,
                                sounds: final(self).sounds,
                                selected: final(self).selected,
                                trim_timeline_state: None,
                                trim_timeline_drop_target_row: None,
                                ..*old(self)
                            })
                        },
                        Err(e) => {
                            &&& !effects.changed && !effects.save_library && !effects.save_folders
                            &&& *final(self) == (SoundFxApp {
                                trim_commit_inflight: final(self).trim_commit_inflight,
                                status: Some(e),
                                ..*old(self)
                            })
                        },
                    }
                },
            },
    {
        match message {
            TrimCommitMessage::Finished { sound_id, keep_old, result } => {
                self.trim_commit_inflight = crate::tree::without_id(&self.trim_commit_inflight, sound_id);
                match result {
                    Ok(sound) => {
                        if keep_old {
                            self.selected = Some(sound.id);
                            let ghost before = sound_views(self.sounds@);
                            let ghost sv = sound@;
                            self.sounds.insert(0, sound);
                            assert(sound_views(self.sounds@) =~= seq![sv] + before);
                        } else {
                            match find_sound_index(&self.sounds, sound_id) {
                                Some(i) => {
                                    proof {
                                        lemma_first_index(sound_views(self.sounds@), |s: SoundView| s.id == sound_id);
                                    }
                                    let ghost before = sound_views(self.sounds@);
                                    let ghost sv = sound@;
                                    self.sounds.set(i, sound);
                                    assert(sound_views(self.sounds@) =~= before.update(i as int, sv));
                                },
                                None => {},
                            }
                        }
                        self.trim_timeline_state = None;
                        self.trim_timeline_drop_target_row = None;
                        JobEffects { changed: true, save_folders: false, save_library: true }
                    },
                    Err(e) => {
                        self.status = Some(e);
                        JobEffects { changed: false, save_folders: false, save_library: false }
                    },
                }
            },
        }
    }

    /// Handles a finished export of a processed sound: it is no longer in
    /// flight, and a failure is shown while a sound is selected.
    pub fn poll_processed_export_jobs(&mut self, message: ProcessedExportMessage)
        ensures
            crate::model::id_sets_distinct(*old(self)) ==> crate::model::id_sets_distinct(*final(self)),
            match message {
                ProcessedExportMessage::Finished { export_path, result } => {
                    &&& crate::model::strs(final(self).processed_export_inflight@) == without(
                        crate::model::strs(old(self).processed_export_inflight@),
                        export_path@,
                    )
                    &&& *final(self) == (SoundFxApp {
                        processed_export_inflight: final(self).processed_export_inflight,
                        status: match result {
                            Err(e) => if old(self).selected is Some {
                                Some(e)
                            } else {
                                old(self).status
                            },
                            Ok(()) => old(self).status,
                        },
                        ..*old(self)
                    })
                },
            },
    {
        match message {
            ProcessedExportMessage::Finished { export_path, result } => {
                proof {
                    if crate::model::strs(self.processed_export_inflight@).no_duplicates() {
                        crate::model::lemma_without_no_duplicates(
                            crate::model::strs(self.processed_export_inflight@),
                            export_path@,
                        );
                    }
                }
                self.processed_export_inflight = remove_path(&self.processed_export_inflight, &export_path);
                match result {
                    Err(e) => {
                        if self.selected.is_some() {
                            self.status = Some(e);
                        }
                    },
                    Ok(()) => {},
                }
            },
        }
    }

    /// Handles a message of the background library import: progress updates
    /// the running job; the outcome of the running job adds the imported
    /// folders, then puts the imported sounds in front (the first one
    /// selected), clears the tag filters, opens the target folder (if it still
    /// exists) and reports the count. Messages of other jobs are ignored.
    pub fn poll_library_import_jobs(&mut self, message: LibraryImportMessage) -> (effects: JobEffects)
        ensures
            match message {
                LibraryImportMessage::Progress { job_id, completed, total, current_label } => {
                    match old(self).library_import_job {
                        Some(job) => if job.job_id == job_id {
                            effects.changed && *final(self) == (SoundFxApp {
                                library_import_job: Some(ActiveLibraryImport {
                                    completed: completed,
                                    total: total,
                                    current_label: current_label,
                                    ..job
                                }),
                                ..*old(self)
                            })
                        } else {
                            !effects.changed && *final(self) == *old(self)
                        },
                        None => !effects.changed && *final(self) == *old(self),
                    }
                },
                LibraryImportMessage::Finished { job_id, result } => {
                    match old(self).library_import_job {
                        Some(job) => if job.job_id != job_id {
                            !effects.changed && !effects.save_folders && !effects.save_library
                                && *final(self) == *old(self)
                        } else {
                            match result {
                                Err(e) => !effects.changed && !effects.save_folders && !effects.save_library
                                    && *final(self) == (SoundFxApp {
                                    library_import_job: None,
                                    status: Some(e),
                                    ..*old(self)
                                }),
                                Ok(imported) => {
                                    let to = existing_target(old(self).folders@, imported.target_folder_id);
                                    let new_folders = retargeted_folders(imported.imported_folders@, imported.target_folder_id, to);
                                    let new_sounds = retargeted_sounds(sound_views(imported.imported_sounds@), imported.target_folder_id, to);
                                    &&& final(self).folders@ == old(self).folders@ + new_folders
                                    &&& effects.save_folders == (new_folders.len() > 0)
                                    &&& if new_sounds.len() == 0 {
                                        &&& !effects.changed && !effects.save_library
                                        &&& *final(self) == (SoundFxApp {
                                            library_import_job: None,
                                            folders: final(self).folders,
                                            status: if imported.ignored_count > 0 {
                                                final(self).status
                                            } else {
                                                None
                                            },
                                            ..*old(self)
                                        })
                                        &&& imported.ignored_count > 0 ==> final(self).status is Some
                                            && final(self).status->0@ == nothing_found_status()
                                    } else {
                                        &&& effects.changed && effects.save_library
                                        &&& sound_views(final(self).sounds@) == new_sounds + sound_views(old(self).sounds@)
                                        &&& final(self).selected == Some(new_sounds[0].id)
                                        &&& final(self).library_audio_tag_filters@.len() == 0
                                        &&& final(self).status is Some
                                        &&& final(self).status->0@ == imported_status(new_sounds.len())
                                        &&& *final(self) == (SoundFxApp {
                                            library_import_job: None,
                                            folders: final(self).folders,
                                            sounds: final(self).sounds,
                                            selected: final(self).selected,
                                            library_audio_tag_filters: final(self).library_audio_tag_filters,
                                            library_current_folder: to,
                                            status: final(self).status,
                                            ..*old(self)
                                        })
                                    }
                                },
                            }
                        },
                        None => !effects.changed && !effects.save_folders && !effects.save_library
                            && *final(self) == *old(self),
                    }
                },
            },
    {
        let none = JobEffects { changed: false, save_folders: false, save_library: false };
        match message {
            LibraryImportMessage::Progress { job_id, completed, total, current_label } => {
                match self.library_import_job.take() {
                    Some(job) => {
                        if job.job_id == job_id {
                            self.library_import_job = Some(ActiveLibraryImport {
                                job_id: job.job_id,
                                target_folder_id: job.target_folder_id,
                                completed,
                                total,
                                current_label,
                            });
                            JobEffects { changed: true, save_folders: false, save_library: false }
                        } else {
                            self.library_import_job = Some(job);
                            none
                        }
                    },
                    None => none,
                }
            },
            LibraryImportMessage::Finished { job_id, result } => {
                let job = match self.library_import_job.take() {
                    Some(job) => job,
                    None => {
                        return none;
                    },
                };
                if job.job_id != job_id {
                    self.library_import_job = Some(job);
                    return none;
                }
                match result {
                    Err(e) => {
                        self.status = Some(e);
                        none
                    },
                    Ok(imported) => self.finish_library_import(imported),
                }
            },
        }
    }

    /// Adds what a finished import found, see `poll_library_import_jobs`.
    #[verifier::rlimit(80)]
    #[verifier::spinoff_prover]
    fn finish_library_import(&mut self, imported: LibraryImportResult) -> (effects: JobEffects)
        ensures
            ({
                let to = existing_target(old(self).folders@, imported.target_folder_id);
                let new_folders = retargeted_folders(imported.imported_folders@, imported.target_folder_id, to);
                let new_sounds = retargeted_sounds(sound_views(imported.imported_sounds@), imported.target_folder_id, to);
                &&& final(self).folders@ == old(self).folders@ + new_folders
                &&& effects.save_folders == (new_folders.len() > 0)
                &&& if new_sounds.len() == 0 {
                    &&& !effects.changed && !effects.save_library
                    &&& *final(self) == (SoundFxApp {
                        folders: final(self).folders,
                        status: if imported.ignored_count > 0 {
                            final(self).status
                        } else {
                            None
                        },
                        ..*old(self)
                    })
                    &&& imported.ignored_count > 0 ==> final(self).status is Some
                        && final(self).status->0@ == nothing_found_status()
                } else {
                    &&& effects.changed && effects.save_library
                    &&& sound_views(final(self).sounds@) == new_sounds + sound_views(old(self).sounds@)
                    &&& final(self).selected == Some(new_sounds[0].id)
                    &&& final(self).library_audio_tag_filters@.len() == 0
                    &&& final(self).status is Some
                    &&& final(self).status->0@ == imported_status(new_sounds.len())
                    &&& *final(self) == (SoundFxApp {
                        folders: final(self).folders,
                        sounds: final(self).sounds,
                        selected: final(self).selected,
                        library_audio_tag_filters: final(self).library_audio_tag_filters,
                        library_current_folder: to,
                        status: final(self).status,
                        ..*old(self)
                    })
                }
            }),
    {
        let from = imported.target_folder_id;
        let to = match from {
            Some(t) => {
                if crate::folders::find_folder_index(&self.folders, t).is_some() {
                    Some(t)
                } else {
                    None
                }
            },
            None => None,
        };
        let ghost fs0 = self.folders@;
        let ghost nf = retargeted_folders(imported.imported_folders@, from, to);
        let mut i: usize = 0;
        while i < imported.imported_folders.len()
            invariant
                i <= imported.imported_folders.len(),
                nf == retargeted_folders(imported.imported_folders@, from, to),
                self.folders@ == fs0 + nf.take(i as int),
                *self == (SoundFxApp { folders: self.folders, ..*old(self) }),
                fs0 == old(self).folders@,
            decreases imported.imported_folders.len() - i,
        {
            let f = &imported.imported_folders[i];
            let parent = if f.parent_id == from { to } else { f.parent_id };
            self.folders.push(Folder { id: f.id, name: f.name.clone(), parent_id: parent });
            i = i + 1;
            assert(self.folders@ =~= fs0 + nf.take(i as int));
        }
        assert(nf.take(nf.len() as int) =~= nf);
        let save_folders = imported.imported_folders.len() > 0;
        let count = imported.imported_sounds.len();
        if count == 0 {
            if imported.ignored_count > 0 {
                proof {
                    reveal_strlit("No supported audio files were found");
                }
                self.status = Some(String::from_str("No supported audio files were found"));
            } else {
                self.status = None;
            }
            return JobEffects { changed: false, save_folders, save_library: false };
        }
        let ghost ns = retargeted_sounds(sound_views(imported.imported_sounds@), from, to);
        let ghost old_sounds = sound_views(self.sounds@);
        let mut front: Vec<SoundEffect> = Vec::new();
        let mut i: usize = 0;
        while i < imported.imported_sounds.len()
            invariant
                i <= imported.imported_sounds.len(),
                ns == retargeted_sounds(sound_views(imported.imported_sounds@), from, to),
                sound_views(front@) == ns.take(i as int),
            decreases imported.imported_sounds.len() - i,
        {
            let mut s = imported.imported_sounds[i].clone();
            if s.folder_id == from {
                s.folder_id = to;
            }
            let ghost before = sound_views(front@);
            let ghost orig = sound_views(imported.imported_sounds@)[i as int];
            assert(orig == imported.imported_sounds@[i as int]@);
            assert(s@ == SoundView { folder_id: retarget(orig.folder_id, from, to), ..orig });
            assert(ns[i as int] == s@);
            front.push(s);
            assert(sound_views(front@) =~= before.push(ns[i as int]));
            assert(ns.take(i + 1) =~= ns.take(i as int).push(ns[i as int]));
            i = i + 1;
        }
        assert(ns.take(ns.len() as int) =~= ns);
        let first_id = front[0].id;
        let ghost f = sound_views(front@);
        let mut rest: Vec<SoundEffect> = Vec::new();
        std::mem::swap(&mut rest, &mut self.sounds);
        front.append(&mut rest);
        self.sounds = front;
        assert(sound_views(self.sounds@) =~= f + old_sounds);
        self.selected = Some(first_id);
        self.library_audio_tag_filters = Vec::new();
        self.library_current_folder = to;
        let digits = decimal_exec(count);
        let digits = string_of(&digits);
        let mut status = String::from_str("Imported ");
        status.append(digits.as_str());
        status.append(" sound(s)");
        self.status = Some(status);
        JobEffects { changed: true, save_folders, save_library: true }
    }
}

/// The paths without `x`.
fn remove_path(paths: &Vec<String>, x: &String) -> (r: Vec<String>)
    ensures
        crate::model::strs(r@) == without(crate::model::strs(paths@), x@),
{
    let ghost v = crate::model::strs(paths@);
    let mut r: Vec<String> = Vec::new();
    let mut i: usize = 0;
    while i < paths.len()
        invariant
            i <= paths.len(),
            v == crate::model::strs(paths@),
            crate::model::strs(r@) == without(v.take(i as int), x@),
        decreases paths.len() - i,
    {
        assert(v.take(i + 1).drop_last() =~= v.take(i as int));
        assert(v.take(i + 1).last() == paths@[i as int]@);
        if paths[i] != *x {
            let ghost before = crate::model::strs(r@);
            r.push(paths[i].clone());
            assert(crate::model::strs(r@) =~= before.push(paths@[i as int]@));
        }
        i = i + 1;
    }
    assert(v.take(v.len() as int) =~= v);
    r
}


/// A trim commit to run in the background.
pub struct TrimCommitRequest {
    /// The sound as it is now, trim and effects included.
    pub sound: SoundEffect,
    /// Keep the old sound and add the result as a new one.
    pub keep_old: bool,
    /// The name of the sound a mix of the open timeline produces; `None`
    /// commits the sound's own trim.
    pub timeline_output_name: Option<String>,
    /// Stop the audio output first.
    pub stop_audio: bool,
}

/// The sound a commit starts from: the timeline's when the timeline is open,
/// else the selected sound, else the first one.
pub open spec fn commit_fallback(app: SoundFxApp) -> u128 {
    match app.trim_timeline_state {
        Some(st) => if st.enabled {
            st.sound_id
        } else {
            toggle_fallback(app)
        },
        None => toggle_fallback(app),
    }
}

/// The names of the sounds.
pub open spec fn sound_names(sounds: Seq<SoundView>) -> Seq<Seq<char>> {
    sounds.map_values(|s: SoundView| s.name)
}

/// The name of the sound a timeline mix produces: the name typed, trimmed,
/// or else the first free default name.
pub open spec fn commit_output_name(app: SoundFxApp, name: Seq<char>) -> bool {
    if spec_trim(app.trim_commit_output_name@).len() > 0 {
        name == spec_trim(app.trim_commit_output_name@)
    } else {
        first_free_default_name(sound_names(sound_views(app.sounds@)), name)
    }
}

/// Whether the transport of the timeline plays, once re-anchored.
pub open spec fn resynced_playing(s: Option<TrimTimelineState>) -> bool {
    match s {
        Some(st) => st.timeline_is_playing,
        None => false,
    }
}

impl SoundFxApp {
    /// The name typed for a timeline mix, trimmed, or the first free default
    /// name when nothing is typed.
    fn trim_commit_output_name_text(&self) -> (r: String)
        requires
            self.sounds@.len() < usize::MAX,
        ensures
            commit_output_name(*self, r@),
    {
        let typed = chars_of(self.trim_commit_output_name.as_str());
        let entered = trim_chars(&typed);
        if entered.len() > 0 {
            return string_of(&entered);
        }
        let ghost all = sound_names(sound_views(self.sounds@));
        let mut names: Vec<&str> = Vec::new();
        let mut i: usize = 0;
        while i < self.sounds.len()
            invariant
                i <= self.sounds.len(),
                all == sound_names(sound_views(self.sounds@)),
                str_views(names@) == all.take(i as int),
            decreases self.sounds.len() - i,
        {
            let ghost before = names@;
            names.push(self.sounds[i].name.as_str());
            assert(str_views(names@) =~= str_views(before).push(self.sounds@[i as int].name@));
            assert(all.take(i + 1) =~= all.take(i as int).push(all[i as int]));
            i = i + 1;
        }
        assert(all.take(all.len() as int) =~= all);
        next_default_sound_name(names.as_slice())
    }

    /// Starts committing the trim of the sound the timeline or the selection
    /// points at (re-anchoring the timeline first): nothing happens when that
    /// sound is gone or already being committed. With the timeline open the
    /// commit mixes the timeline into a sound named as `trim_commit_output_name`
    /// says, and every preview stops. `playing` is the sound the audio output
    /// plays. Returns what the background job is to commit.
    #[verifier::rlimit(80)]
    #[verifier::spinoff_prover]
    pub fn start_trim_commit_job(&mut self, keep_old: bool, playing: Option<u128>) -> (r: Option<TrimCommitRequest>)
        requires
            old(self).sounds@.len() < usize::MAX,
        ensures
            crate::model::id_sets_distinct(*old(self)) ==> crate::model::id_sets_distinct(*final(self)),
            ({
                let resolved = anchor_sound_id(*old(self), commit_fallback(*old(self)));
                let mix = old(self).trim_timeline_state is Some && old(self).trim_timeline_state->0.enabled;
                let idx = first_index(sound_views(old(self).sounds@), |s: SoundView| s.id == resolved);
                let started = idx is Some && !old(self).trim_commit_inflight@.contains(resolved);
                let st = final(self).trim_timeline_state->0;
                &&& final(self).trim_timeline_state is Some
                &&& timeline_resynced(
                    old(self).trim_timeline_state,
                    if started && mix {
                        TrimTimelineState { timeline_is_playing: resynced_playing(old(self).trim_timeline_state), ..st }
                    } else {
                        st
                    },
                    resolved,
                )
                &&& started && mix ==> !st.timeline_is_playing
                &&& match r {
                    None => !started,
                    Some(req) => {
                        &&& started
                        &&& req.sound@ == old(self).sounds@[idx->0]@
                        &&& req.keep_old == keep_old
                        &&& req.stop_audio == (playing == Some(resolved) || mix)
                        &&& (req.timeline_output_name is Some <==> mix)
                        &&& match req.timeline_output_name {
                            Some(n) => commit_output_name(*old(self), n@),
                            None => true,
                        }
                    },
                }
                &&& final(self).trim_commit_inflight@ == (if started {
                    old(self).trim_commit_inflight@.push(resolved)
                } else {
                    old(self).trim_commit_inflight@
                })
                &&& final(self).trim_timeline_scrub_resume_pending == (if started && mix {
                    false
                } else if old(self).trim_timeline_state is None {
                    false
                } else {
                    old(self).trim_timeline_scrub_resume_pending
                })
                &&& old(self).trim_timeline_state is None ==> final(self).trim_timeline_clip_delete_animating@.len() == 0
                &&& old(self).trim_timeline_state is Some ==> final(self).trim_timeline_clip_delete_animating
                    == old(self).trim_timeline_clip_delete_animating
                &&& *final(self) == (SoundFxApp {
                    trim_timeline_state: final(self).trim_timeline_state,
                    trim_timeline_scrub_resume_pending: final(self).trim_timeline_scrub_resume_pending,
                    trim_timeline_clip_delete_animating: final(self).trim_timeline_clip_delete_animating,
                    trim_commit_inflight: final(self).trim_commit_inflight,
                    myinstants_preview_audio_url: if started && mix {
                        None
                    } else {
                        old(self).myinstants_preview_audio_url
                    },
                    pending_preview_sound: if started && mix {
                        None
                    } else {
                        old(self).pending_preview_sound
                    },
                    ..*old(self)
                })
            }),
    {
        let fallback = match self.timeline_mode_active_sound_id() {
            Some(id) => id,
            None => match self.selected {
                Some(id) => id,
                None => if self.sounds.len() > 0 {
                    self.sounds[0].id
                } else {
                    0
                },
            },
        };
        let sound_id = self.sync_trim_timeline_state_for(fallback);
        let index = match find_sound_index(&self.sounds, sound_id) {
            Some(i) => i,
            None => {
                return None;
            },
        };
        if crate::folders::contains_id(&self.trim_commit_inflight, sound_id) {
            return None;
        }
        proof {
            lemma_first_index(sound_views(self.sounds@), |s: SoundView| s.id == sound_id);
        }
        let mix = match &self.trim_timeline_state {
            Some(st) => st.enabled,
            None => false,
        };
        let stop_audio = match playing {
            Some(p) => p == sound_id || mix,
            None => mix,
        };
        let sound = self.sounds[index].clone();
        let timeline_output_name = if mix {
            let name = self.trim_commit_output_name_text();
            self.stop_preview();
            Some(name)
        } else {
            None
        };
        self.trim_commit_inflight.push(sound_id);
        Some(TrimCommitRequest { sound, keep_old, timeline_output_name, stop_audio })
    }
}

} // verus!
