use vstd::prelude::*;
use crate::editor::stopped_timeline;
use crate::folders::{
    collapsed_by_default, count_in_branch, find_folder, folder_exists, in_branch, search_active,
};
use crate::model::{
    Folder, SoundFxApp, SoundView, TrimTimelineState, VideoAsset, first_index, keep, lemma_first_index,
    sound_views, without,
};

verus! {

/// The part of the application state that the folder tree works on.
pub struct TreeState {
    pub folders: Seq<Folder>,
    pub sounds: Seq<SoundView>,
    pub collapsed: Seq<u128>,
    pub current: Option<u128>,
    pub import_mode: Option<u128>,
    pub editing: Option<u128>,
    pub query: Seq<char>,
    pub delete_confirm: Option<u128>,
    pub rename_name: Seq<char>,
    pub timeline: Option<TrimTimelineState>,
    pub preview_url: Option<String>,
    pub pending_preview: Option<u128>,
    pub scrub_resume: bool,
}

/// The tree state of the application.
pub open spec fn tree_state(app: SoundFxApp) -> TreeState {
    TreeState {
        folders: app.folders@,
        sounds: sound_views(app.sounds@),
        collapsed: app.library_collapsed_folders@,
        current: app.library_current_folder,
        import_mode: app.folder_import_select_mode,
        editing: app.editing_folder_id,
        query: app.library_audio_query@,
        delete_confirm: app.show_delete_folder_confirm,
        rename_name: app.folder_rename_name@,
        timeline: app.trim_timeline_state,
        preview_url: app.myinstants_preview_audio_url,
        pending_preview: app.pending_preview_sound,
        scrub_resume: app.trim_timeline_scrub_resume_pending,
    }
}

/// Only the fields of the tree state may differ.
pub open spec fn outside_tree_unchanged(old: SoundFxApp, new: SoundFxApp) -> bool {
    new == SoundFxApp {
        folders: new.folders,
        sounds: new.sounds,
        library_collapsed_folders: new.library_collapsed_folders,
        library_current_folder: new.library_current_folder,
        folder_import_select_mode: new.folder_import_select_mode,
        editing_folder_id: new.editing_folder_id,
        library_audio_query: new.library_audio_query,
        show_delete_folder_confirm: new.show_delete_folder_confirm,
        folder_rename_name: new.folder_rename_name,
        trim_timeline_state: new.trim_timeline_state,
        myinstants_preview_audio_url: new.myinstants_preview_audio_url,
        pending_preview_sound: new.pending_preview_sound,
        trim_timeline_scrub_resume_pending: new.trim_timeline_scrub_resume_pending,
        ..old
    }
}

/// Every preview stopped.
pub open spec fn stop_preview_step(t: TreeState) -> TreeState {
    TreeState {
        timeline: stopped_timeline(t.timeline),
        preview_url: None,
        pending_preview: None,
        scrub_resume: false,
        ..t
    }
}

/// The sound with id `id` (the first one) lies in the branch of `folder_id`.
pub open spec fn sound_hidden_by(t: TreeState, folder_id: u128, id: u128) -> bool {
    match first_index(t.sounds, |s: SoundView| s.id == id) {
        Some(i) => t.sounds[i].folder_id is Some && in_branch(
            t.folders,
            folder_id,
            t.sounds[i].folder_id->0,
        ),
        None => false,
    }
}

/// The sound now playing is hidden when `folder_id` is collapsed or left.
pub open spec fn preview_hidden(t: TreeState, folder_id: u128, playing: Option<u128>) -> bool {
    match playing {
        Some(id) => sound_hidden_by(t, folder_id, id),
        None => false,
    }
}

/// Stops the preview when the sound now playing lies in the branch of `folder_id`.
pub open spec fn hide_step(t: TreeState, folder_id: u128, playing: Option<u128>) -> TreeState {
    if preview_hidden(t, folder_id, playing) {
        stop_preview_step(t)
    } else {
        t
    }
}

/// Folders outside the branch of `root` of the folders `fs`.
pub open spec fn outside_branch(fs: Seq<Folder>, root: u128) -> spec_fn(Folder) -> bool {
    |f: Folder| !in_branch(fs, root, f.id)
}

/// Ids outside the branch of `root` of the folders `fs`.
pub open spec fn id_outside_branch(fs: Seq<Folder>, root: u128) -> spec_fn(u128) -> bool {
    |x: u128| !in_branch(fs, root, x)
}

/// Sounds not placed in the branch of `root` of the folders `fs`.
pub open spec fn sound_outside_branch(fs: Seq<Folder>, root: u128) -> spec_fn(SoundView) -> bool {
    |s: SoundView| !(s.folder_id is Some && in_branch(fs, root, s.folder_id->0))
}

/// The branch of `root` and the sounds in it removed.
pub open spec fn delete_branch_step(t: TreeState, root: u128) -> TreeState {
    TreeState {
        folders: keep(t.folders, outside_branch(t.folders, root)),
        collapsed: keep(t.collapsed, id_outside_branch(t.folders, root)),
        sounds: keep(t.sounds, sound_outside_branch(t.folders, root)),
        current: match t.current {
            Some(c) => if in_branch(t.folders, root, c) {
                None
            } else {
                t.current
            },
            None => None,
        },
        import_mode: match t.import_mode {
            Some(m) => if in_branch(t.folders, root, m) {
                None
            } else {
                t.import_mode
            },
            None => None,
        },
        editing: None,
        ..t
    }
}

/// Step one of the tree actions: leaving the current folder, or selecting one.
pub open spec fn select_step(
    t: TreeState,
    select_folder_id: Option<u128>,
    clear_selected_folder: bool,
    playing: Option<u128>,
) -> TreeState {
    if clear_selected_folder {
        let t1 = match t.current {
            Some(c) => hide_step(t, c, playing),
            None => t,
        };
        TreeState { current: None, editing: None, ..t1 }
    } else {
        match select_folder_id {
            Some(f) => TreeState {
                query: if spec_normalize_len(t.query) > 0 {
                    Seq::empty()
                } else {
                    t.query
                },
                current: Some(f),
                editing: None,
                ..t
            },
            None => t,
        }
    }
}

/// Whether a search query is entered.
pub open spec fn spec_normalize_len(q: Seq<char>) -> nat {
    crate::text::spec_normalize(q).len()
}

/// Step two: collapsing or expanding a folder.
pub open spec fn toggle_step(t: TreeState, toggle_folder_id: Option<u128>, playing: Option<u128>) -> TreeState {
    match toggle_folder_id {
        Some(f) => if t.collapsed.contains(f) {
            TreeState { collapsed: without(t.collapsed, f), ..t }
        } else {
            hide_step(TreeState { collapsed: t.collapsed.push(f), ..t }, f, playing)
        },
        None => t,
    }
}

/// Step three: deleting a folder, or asking first when sounds would go with it.
pub open spec fn delete_step(t: TreeState, delete_folder_id: Option<u128>) -> TreeState {
    match delete_folder_id {
        Some(f) => if count_in_branch(t.folders, t.sounds, f) > 0 {
            TreeState { delete_confirm: Some(f), ..t }
        } else {
            delete_branch_step(t, f)
        },
        None => t,
    }
}

/// Step four: starting to rename a folder.
pub open spec fn rename_start_step(t: TreeState, rename_folder_id: Option<u128>) -> TreeState {
    match rename_folder_id {
        Some(f) => TreeState {
            editing: Some(f),
            rename_name: match find_folder(t.folders, f) {
                Some(i) => t.folders[i].name@,
                None => t.rename_name,
            },
            ..t
        },
        None => t,
    }
}

/// The folders with the first folder of id `id` renamed.
pub open spec fn rename_folder(fs: Seq<Folder>, id: u128, name: String) -> Seq<Folder> {
    match find_folder(fs, id) {
        Some(i) => fs.update(i, Folder { name: name, ..fs[i] }),
        None => fs,
    }
}

/// Step five: committing a new folder name.
pub open spec fn rename_commit_step(t: TreeState, rename_commit: Option<(u128, String)>) -> TreeState {
    match rename_commit {
        Some((f, name)) => TreeState { folders: rename_folder(t.folders, f, name), ..t },
        None => t,
    }
}

/// Whether leaving the current folder hides the sound now playing.
pub open spec fn select_stops(t: TreeState, clear_selected_folder: bool, playing: Option<u128>) -> bool {
    clear_selected_folder && match t.current {
        Some(c) => preview_hidden(t, c, playing),
        None => false,
    }
}

/// Whether collapsing a folder hides the sound now playing.
pub open spec fn toggle_stops(t: TreeState, toggle_folder_id: Option<u128>, playing: Option<u128>) -> bool {
    match toggle_folder_id {
        Some(f) => !t.collapsed.contains(f) && preview_hidden(t, f, playing),
        None => false,
    }
}

/// Whether the delete request removes a folder at once (its branch holds no sound).
pub open spec fn deletes_now(t: TreeState, delete_folder_id: Option<u128>) -> bool {
    match delete_folder_id {
        Some(f) => count_in_branch(t.folders, t.sounds, f) == 0,
        None => false,
    }
}

/// Whether the rename commit names an existing folder.
pub open spec fn renames(t: TreeState, rename_commit: Option<(u128, String)>) -> bool {
    match rename_commit {
        Some((f, _)) => find_folder(t.folders, f) is Some,
        None => false,
    }
}

/// What the application must do after the tree actions.
pub struct FolderTreeEffects {
    /// Stop the audio output.
    pub stop_audio: bool,
    /// Store the folder list.
    pub save_folders: bool,
    /// Store the sound library.
    pub save_library: bool,
}

impl SoundFxApp {
    /// Resets the library tree: top level selected, folders with children
    /// collapsed, no import picker, no folder being edited or created.
    pub fn reset_library_tree_state(&mut self)
        ensures
            crate::model::id_sets_distinct(*old(self)) ==> crate::model::id_sets_distinct(*final(self)),
            final(self).library_collapsed_folders@.no_duplicates(),
            *final(self) == (SoundFxApp {
                library_current_folder: None,
                library_collapsed_folders: final(self).library_collapsed_folders,
                folder_import_select_mode: None,
                editing_folder_id: None,
                editing_from_folder: None,
                library_folder_create_open: false,
                ..*old(self)
            }),
            forall|id: u128|
                final(self).library_collapsed_folders@.contains(id) <==> collapsed_by_default(
                    old(self).folders@,
                    id,
                ),
    {
        self.library_current_folder = None;
        self.library_collapsed_folders = self.default_library_collapsed_folders();
        self.folder_import_select_mode = None;
        self.editing_folder_id = None;
        self.editing_from_folder = None;
        self.library_folder_create_open = false;
    }

    /// Adds a folder under a fresh random id, which it returns, and expands
    /// its parent.
    pub fn create_folder_record(&mut self, name: String, parent_id: Option<u128>) -> (id: u128)
        ensures
            crate::model::id_sets_distinct(*old(self)) ==> crate::model::id_sets_distinct(*final(self)),
            old(self).library_collapsed_folders@.no_duplicates() ==> final(self).library_collapsed_folders@.no_duplicates(),
            final(self).folders@ == old(self).folders@.push(
                Folder { id: id, name: name, parent_id: parent_id },
            ),
            final(self).library_collapsed_folders@ == (match parent_id {
                Some(p) => without(old(self).library_collapsed_folders@, p),
                None => old(self).library_collapsed_folders@,
            }),
            *final(self) == (SoundFxApp {
                folders: final(self).folders,
                library_collapsed_folders: final(self).library_collapsed_folders,
                ..*old(self)
            }),
    {
        let new_id = crate::model::new_uuid();
        let new_folder = Folder { id: new_id, name, parent_id };
        self.folders.push(new_folder);
        match parent_id {
            Some(p) => {
                self.library_collapsed_folders = without_id(&self.library_collapsed_folders, p);
            },
            None => {},
        }
        new_id
    }

    /// Adds a folder under a fresh random id, opens it and clears the
    /// folder-name form. The caller stores the folder list.
    pub fn create_folder(&mut self, name: String, parent_id: Option<u128>)
        ensures
            crate::model::id_sets_distinct(*old(self)) ==> crate::model::id_sets_distinct(*final(self)),
            old(self).library_collapsed_folders@.no_duplicates() ==> final(self).library_collapsed_folders@.no_duplicates(),
            final(self).library_current_folder is Some,
            final(self).folders@ == old(self).folders@.push(
                Folder { id: final(self).library_current_folder->0, name: name, parent_id: parent_id },
            ),
            final(self).library_collapsed_folders@ == (match parent_id {
                Some(p) => without(old(self).library_collapsed_folders@, p),
                None => old(self).library_collapsed_folders@,
            }),
            final(self).new_folder_name@.len() == 0,
            *final(self) == (SoundFxApp {
                folders: final(self).folders,
                library_collapsed_folders: final(self).library_collapsed_folders,
                library_current_folder: final(self).library_current_folder,
                new_folder_name: final(self).new_folder_name,
                folder_name_warning: false,
                ..*old(self)
            }),
    {
        let id = self.create_folder_record(name, parent_id);
        self.library_current_folder = Some(id);
        self.new_folder_name = String::new();
        self.folder_name_warning = false;
    }

    /// Deletes the folder, every folder below it and every sound in them; the
    /// selection and the import picker leave the deleted branch. The caller
    /// stores the folder list and the library.
    pub fn delete_folder_branch(&mut self, root_id: u128)
        ensures
            crate::model::id_sets_distinct(*old(self)) ==> crate::model::id_sets_distinct(*final(self)),
            old(self).library_collapsed_folders@.no_duplicates() ==> final(self).library_collapsed_folders@.no_duplicates(),
            tree_state(*final(self)) == delete_branch_step(tree_state(*old(self)), root_id),
            outside_tree_unchanged(*old(self), *final(self)),
    {
        let ids = self.folder_branch_ids(root_id);
        let ghost t = tree_state(*self);
        let ghost fs = self.folders@;
        let mut folders: Vec<Folder> = Vec::new();
        let mut i: usize = 0;
        while i < self.folders.len()
            invariant
                i <= self.folders.len(),
                fs == self.folders@,
                forall|id: u128| ids@.contains(id) <==> in_branch(fs, root_id, id),
                folders@ == keep(fs.take(i as int), outside_branch(fs, root_id)),
            decreases self.folders.len() - i,
        {
            assert(fs.take(i + 1).drop_last() =~= fs.take(i as int));
            assert(fs.take(i + 1).last() == fs[i as int]);
            if !crate::folders::contains_id(&ids, self.folders[i].id) {
                folders.push(self.folders[i].clone());
            }
            i = i + 1;
        }
        assert(fs.take(fs.len() as int) =~= fs);
        let ghost cs = self.library_collapsed_folders@;
        let mut collapsed: Vec<u128> = Vec::new();
        let mut i: usize = 0;
        while i < self.library_collapsed_folders.len()
            invariant
                i <= self.library_collapsed_folders.len(),
                cs == self.library_collapsed_folders@,
                forall|id: u128| ids@.contains(id) <==> in_branch(fs, root_id, id),
                collapsed@ == keep(cs.take(i as int), id_outside_branch(fs, root_id)),
            decreases self.library_collapsed_folders.len() - i,
        {
            assert(cs.take(i + 1).drop_last() =~= cs.take(i as int));
            assert(cs.take(i + 1).last() == cs[i as int]);
            if !crate::folders::contains_id(&ids, self.library_collapsed_folders[i]) {
                collapsed.push(self.library_collapsed_folders[i]);
            }
            i = i + 1;
        }
        assert(cs.take(cs.len() as int) =~= cs);
        proof {
            if cs.no_duplicates() {
                crate::model::lemma_keep_no_duplicates(cs, id_outside_branch(fs, root_id));
            }
        }
        let ghost sv = sound_views(self.sounds@);
        let mut sounds: Vec<crate::model::SoundEffect> = Vec::new();
        let mut i: usize = 0;
        while i < self.sounds.len()
            invariant
                i <= self.sounds.len(),
                sv == sound_views(self.sounds@),
                forall|id: u128| ids@.contains(id) <==> in_branch(fs, root_id, id),
                sound_views(sounds@) == keep(sv.take(i as int), sound_outside_branch(fs, root_id)),
            decreases self.sounds.len() - i,
        {
            assert(sv.take(i + 1).drop_last() =~= sv.take(i as int));
            assert(sv.take(i + 1).last() == sv[i as int]);
            let removed = match self.sounds[i].folder_id {
                Some(f) => crate::folders::contains_id(&ids, f),
                None => false,
            };
            if !removed {
                let c = self.sounds[i].clone();
                let ghost before = sound_views(sounds@);
                sounds.push(c);
                assert(sound_views(sounds@) =~= before.push(sv[i as int]));
            }
            i = i + 1;
        }
        assert(sv.take(sv.len() as int) =~= sv);
        self.folders = folders;
        self.library_collapsed_folders = collapsed;
        self.sounds = sounds;
        match self.library_current_folder {
            Some(c) => {
                if crate::folders::contains_id(&ids, c) {
                    self.library_current_folder = None;
                }
            },
            None => {},
        }
        match self.folder_import_select_mode {
            Some(m) => {
                if crate::folders::contains_id(&ids, m) {
                    self.folder_import_select_mode = None;
                }
            },
            None => {},
        }
        self.editing_folder_id = None;
    }

    /// Leaves the current folder when it no longer exists.
    pub fn ensure_current_folder_exists(&mut self)
        ensures
            *final(self) == (SoundFxApp {
                library_current_folder: match old(self).library_current_folder {
                    Some(c) => if folder_exists(old(self).folders@, c) {
                        Some(c)
                    } else {
                        None
                    },
                    None => None,
                },
                ..*old(self)
            }),
    {
        match self.library_current_folder {
            Some(c) => {
                if crate::folders::find_folder_index(&self.folders, c).is_none() {
                    self.library_current_folder = None;
                }
            },
            None => {},
        }
    }
}

/// Step six: leaving the rename field.
pub open spec fn finish_step(t: TreeState, finish_editing: bool) -> TreeState {
    if finish_editing {
        TreeState { editing: None, ..t }
    } else {
        t
    }
}

/// All tree actions of one frame, in the order the tree applies them.
pub open spec fn tree_actions(
    t: TreeState,
    select_folder_id: Option<u128>,
    delete_folder_id: Option<u128>,
    rename_folder_id: Option<u128>,
    rename_commit: Option<(u128, String)>,
    finish_editing: bool,
    toggle_folder_id: Option<u128>,
    clear_selected_folder: bool,
    playing: Option<u128>,
) -> TreeState {
    finish_step(
        rename_commit_step(
            rename_start_step(
                delete_step(
                    toggle_step(
                        select_step(t, select_folder_id, clear_selected_folder, playing),
                        toggle_folder_id,
                        playing,
                    ),
                    delete_folder_id,
                ),
                rename_folder_id,
            ),
            rename_commit,
        ),
        finish_editing,
    )
}

/// The sounds with the favorite mark of the first sound with id `id` flipped.
pub open spec fn favorite_toggled(sounds: Seq<SoundView>, id: u128) -> Seq<SoundView> {
    match first_index(sounds, |s: SoundView| s.id == id) {
        Some(i) => sounds.update(i, SoundView { favorite: !sounds[i].favorite, ..sounds[i] }),
        None => sounds,
    }
}

/// The position of the first sound with id `id`.
pub fn find_sound_index(sounds: &Vec<crate::model::SoundEffect>, id: u128) -> (r: Option<usize>)
    ensures
        match r {
            Some(i) => first_index(sound_views(sounds@), |s: SoundView| s.id == id) == Some(
                i as int,
            ),
            None => first_index(sound_views(sounds@), |s: SoundView| s.id == id) is None,
        },
{
    let ghost v = sound_views(sounds@);
    proof {
        lemma_first_index(v, |s: SoundView| s.id == id);
    }
    let mut i: usize = 0;
    while i < sounds.len()
        invariant
            i <= sounds.len(),
            v == sound_views(sounds@),
            forall|j: int| 0 <= j < i ==> v[j].id != id,
            match first_index(v, |s: SoundView| s.id == id) {
                Some(x) => 0 <= x < v.len() && v[x].id == id && forall|j: int|
                    0 <= j < x ==> v[j].id != id,
                None => forall|j: int| 0 <= j < v.len() ==> v[j].id != id,
            },
        decreases sounds.len() - i,
    {
        if sounds[i].id == id {
            assert(v[i as int].id == id);
            return Some(i);
        }
        i = i + 1;
    }
    None
}

impl SoundFxApp {
    /// Stops the preview when the sound now playing (`playing`, as the audio
    /// output reports it) lies in the branch of `folder_id`. Returns whether
    /// the audio output must stop.
    pub fn stop_library_preview_if_hidden_by_folder(
        &mut self,
        folder_id: u128,
        playing: Option<u128>,
    ) -> (stopped: bool)
        ensures
            stopped == preview_hidden(tree_state(*old(self)), folder_id, playing),
            tree_state(*final(self)) == hide_step(tree_state(*old(self)), folder_id, playing),
            outside_tree_unchanged(*old(self), *final(self)),
    {
        let current = match playing {
            Some(id) => id,
            None => {
                return false;
            },
        };
        let should_stop = match find_sound_index(&self.sounds, current) {
            Some(i) => {
                proof {
                    lemma_first_index(sound_views(self.sounds@), |s: SoundView| s.id == current);
                }
                match self.sounds[i].folder_id {
                    Some(f) => {
                        let ids = self.folder_branch_ids(folder_id);
                        crate::folders::contains_id(&ids, f)
                    },
                    None => false,
                }
            },
            None => false,
        };
        if should_stop {
            self.stop_preview();
        }
        should_stop
    }

    /// Applies the actions gathered while drawing the folder tree: leaving or
    /// selecting a folder, collapsing or expanding one, deleting one (or
    /// asking first when it holds sounds), starting and committing a rename.
    /// `playing` is the sound the audio output is playing.
    pub fn apply_folder_tree_actions(
        &mut self,
        select_folder_id: Option<u128>,
        delete_folder_id: Option<u128>,
        rename_folder_id: Option<u128>,
        rename_commit: Option<(u128, String)>,
        finish_editing: bool,
        toggle_folder_id: Option<u128>,
        clear_selected_folder: bool,
        playing: Option<u128>,
    ) -> (effects: FolderTreeEffects)
        ensures
            crate::model::id_sets_distinct(*old(self)) ==> crate::model::id_sets_distinct(*final(self)),
            old(self).library_collapsed_folders@.no_duplicates() ==> final(self).library_collapsed_folders@.no_duplicates(),
            tree_state(*final(self)) == tree_actions(
                tree_state(*old(self)),
                select_folder_id,
                delete_folder_id,
                rename_folder_id,
                rename_commit,
                finish_editing,
                toggle_folder_id,
                clear_selected_folder,
                playing,
            ),
            outside_tree_unchanged(*old(self), *final(self)),
            ({
                let t0 = tree_state(*old(self));
                let t1 = select_step(t0, select_folder_id, clear_selected_folder, playing);
                let t2 = toggle_step(t1, toggle_folder_id, playing);
                let t4 = rename_start_step(delete_step(t2, delete_folder_id), rename_folder_id);
                &&& effects.stop_audio == (select_stops(t0, clear_selected_folder, playing) || toggle_stops(
                    t1,
                    toggle_folder_id,
                    playing,
                ))
                &&& effects.save_folders == (deletes_now(t2, delete_folder_id) || renames(t4, rename_commit))
                &&& effects.save_library == deletes_now(t2, delete_folder_id)
            }),
    {
        let stop_select = self.tree_select(select_folder_id, clear_selected_folder, playing);
        let stop_toggle = self.tree_toggle(toggle_folder_id, playing);
        let deleted = self.tree_delete(delete_folder_id);
        self.tree_rename_start(rename_folder_id);
        let renamed = self.tree_rename_commit(rename_commit);
        if finish_editing {
            self.editing_folder_id = None;
        }
        FolderTreeEffects {
            stop_audio: stop_select || stop_toggle,
            save_folders: deleted || renamed,
            save_library: deleted,
        }
    }

    fn tree_select(
        &mut self,
        select_folder_id: Option<u128>,
        clear_selected_folder: bool,
        playing: Option<u128>,
    ) -> (stop_audio: bool)
        ensures
            stop_audio == select_stops(tree_state(*old(self)), clear_selected_folder, playing),
            tree_state(*final(self)) == select_step(
                tree_state(*old(self)),
                select_folder_id,
                clear_selected_folder,
                playing,
            ),
            outside_tree_unchanged(*old(self), *final(self)),
    {
        let mut stop_audio = false;
        if clear_selected_folder {
            match self.library_current_folder {
                Some(c) => {
                    stop_audio = self.stop_library_preview_if_hidden_by_folder(c, playing);
                },
                None => {},
            }
            self.library_current_folder = None;
            self.editing_folder_id = None;
        } else {
            match select_folder_id {
                Some(f) => {
                    if self.library_search_active() {
                        self.library_audio_query = String::new();
                    }
                    self.library_current_folder = Some(f);
                    self.editing_folder_id = None;
                },
                None => {},
            }
        }
        stop_audio
    }

    fn tree_toggle(&mut self, toggle_folder_id: Option<u128>, playing: Option<u128>) -> (stop_audio: bool)
        ensures
            old(self).library_collapsed_folders@.no_duplicates() ==> final(self).library_collapsed_folders@.no_duplicates(),
            stop_audio == toggle_stops(tree_state(*old(self)), toggle_folder_id, playing),
            tree_state(*final(self)) == toggle_step(tree_state(*old(self)), toggle_folder_id, playing),
            outside_tree_unchanged(*old(self), *final(self)),
    {
        match toggle_folder_id {
            Some(f) => {
                if crate::folders::contains_id(&self.library_collapsed_folders, f) {
                    self.library_collapsed_folders = without_id(&self.library_collapsed_folders, f);
                    false
                } else {
                    proof {
                        if self.library_collapsed_folders@.no_duplicates() {
                            crate::model::lemma_push_no_duplicates(self.library_collapsed_folders@, f);
                        }
                    }
                    self.library_collapsed_folders.push(f);
                    self.stop_library_preview_if_hidden_by_folder(f, playing)
                }
            },
            None => false,
        }
    }

    fn tree_delete(&mut self, delete_folder_id: Option<u128>) -> (deleted: bool)
        ensures
            old(self).library_collapsed_folders@.no_duplicates() ==> final(self).library_collapsed_folders@.no_duplicates(),
            deleted == deletes_now(tree_state(*old(self)), delete_folder_id),
            tree_state(*final(self)) == delete_step(tree_state(*old(self)), delete_folder_id),
            outside_tree_unchanged(*old(self), *final(self)),
    {
        match delete_folder_id {
            Some(f) => {
                if self.total_sound_count_for_folder(f) > 0 {
                    self.show_delete_folder_confirm = Some(f);
                    false
                } else {
                    self.delete_folder_branch(f);
                    true
                }
            },
            None => false,
        }
    }

    fn tree_rename_start(&mut self, rename_folder_id: Option<u128>)
        ensures
            tree_state(*final(self)) == rename_start_step(tree_state(*old(self)), rename_folder_id),
            outside_tree_unchanged(*old(self), *final(self)),
    {
        match rename_folder_id {
            Some(f) => {
                self.editing_folder_id = Some(f);
                let found = crate::folders::find_folder_index(&self.folders, f);
                proof {
                    crate::folders::lemma_find_folder(self.folders@, f);
                }
                match found {
                    Some(i) => {
                        self.folder_rename_name = self.folders[i].name.clone();
                    },
                    None => {},
                }
            },
            None => {},
        }
    }

    fn tree_rename_commit(&mut self, rename_commit: Option<(u128, String)>) -> (renamed: bool)
        ensures
            renamed == renames(tree_state(*old(self)), rename_commit),
            tree_state(*final(self)) == rename_commit_step(tree_state(*old(self)), rename_commit),
            outside_tree_unchanged(*old(self), *final(self)),
    {
        match rename_commit {
            Some((f, name)) => {
                let found = crate::folders::find_folder_index(&self.folders, f);
                proof {
                    crate::folders::lemma_find_folder(self.folders@, f);
                }
                match found {
                    Some(i) => {
                        let renamed = Folder {
                            id: self.folders[i].id,
                            name,
                            parent_id: self.folders[i].parent_id,
                        };
                        self.folders.set(i, renamed);
                        true
                    },
                    None => false,
                }
            },
            None => false,
        }
    }

    /// Flips the favorite mark of the first sound with id `sound_id` and marks
    /// the library for saving. Returns whether such a sound exists.
    pub fn toggle_sound_favorite(&mut self, sound_id: u128) -> (found: bool)
        ensures
            sound_views(final(self).sounds@) == favorite_toggled(sound_views(old(self).sounds@), sound_id),
            match first_index(sound_views(old(self).sounds@), |s: SoundView| s.id == sound_id) {
                Some(i) => found && sound_views(final(self).sounds@) == sound_views(
                    old(self).sounds@,
                ).update(
                    i,
                    SoundView { favorite: !sound_views(old(self).sounds@)[i].favorite, ..sound_views(old(self).sounds@)[i] },
                ) && *final(self) == (SoundFxApp {
                    sounds: final(self).sounds,
                    pending_save: true,
                    ..*old(self)
                }),
                None => !found && *final(self) == *old(self),
            },
    {
        match find_sound_index(&self.sounds, sound_id) {
            Some(i) => {
                proof {
                    lemma_first_index(sound_views(self.sounds@), |s: SoundView| s.id == sound_id);
                }
                let mut s = self.sounds[i].clone();
                s.favorite = !s.favorite;
                let ghost before = sound_views(self.sounds@);
                self.sounds.set(i, s);
                assert(sound_views(self.sounds@) =~= before.update(
                    i as int,
                    SoundView { favorite: !before[i as int].favorite, ..before[i as int] },
                ));
                self.pending_save = true;
                true
            },
            None => false,
        }
    }

    /// Flips the favorite mark of the first video with id `video_id`. Returns
    /// whether such a video exists; the caller then stores the video library.
    pub fn toggle_video_favorite(&mut self, video_id: u128) -> (found: bool)
        ensures
            match first_index(old(self).video_assets@, |v: VideoAsset| v.id == video_id) {
                Some(i) => found && final(self).video_assets@ == old(self).video_assets@.update(
                    i,
                    VideoAsset { favorite: !old(self).video_assets@[i].favorite, ..old(self).video_assets@[i] },
                ) && *final(self) == (SoundFxApp { video_assets: final(self).video_assets, ..*old(self) }),
                None => !found && *final(self) == *old(self),
            },
    {
        let ghost v = self.video_assets@;
        proof {
            lemma_first_index(v, |x: VideoAsset| x.id == video_id);
        }
        let mut i: usize = 0;
        while i < self.video_assets.len()
            invariant
                i <= self.video_assets.len(),
                v == self.video_assets@,
                *self == *old(self),
                forall|j: int| 0 <= j < i ==> v[j].id != video_id,
                match first_index(v, |x: VideoAsset| x.id == video_id) {
                    Some(x) => 0 <= x < v.len() && v[x].id == video_id && forall|j: int|
                        0 <= j < x ==> v[j].id != video_id,
                    None => forall|j: int| 0 <= j < v.len() ==> v[j].id != video_id,
                },
            decreases self.video_assets.len() - i,
        {
            if self.video_assets[i].id == video_id {
                let old_video = &self.video_assets[i];
                let toggled = VideoAsset {
                    id: old_video.id,
                    name: old_video.name.clone(),
                    favorite: !old_video.favorite,
                };
                assert(first_index(v, |x: VideoAsset| x.id == video_id) == Some(i as int));
                self.video_assets.set(i, toggled);
                return true;
            }
            i = i + 1;
        }
        false
    }
}

/// The ids without `x`.
pub(crate) fn without_id(ids: &Vec<u128>, x: u128) -> (r: Vec<u128>)
    ensures
        r@ == without(ids@, x),
        ids@.no_duplicates() ==> r@.no_duplicates(),
{
    let mut r: Vec<u128> = Vec::new();
    let mut i: usize = 0;
    while i < ids.len()
        invariant
            i <= ids.len(),
            r@ == without(ids@.take(i as int), x),
        decreases ids.len() - i,
    {
        assert(ids@.take(i + 1).drop_last() =~= ids@.take(i as int));
        if ids[i] != x {
            r.push(ids[i]);
        }
        i = i + 1;
    }
    assert(ids@.take(ids.len() as int) =~= ids@);
    proof {
        if ids@.no_duplicates() {
            crate::model::lemma_without_no_duplicates(ids@, x);
        }
    }
    r
}


/// The collapsed folders once the parent of each added folder is expanded.
pub open spec fn parents_expanded(collapsed: Seq<u128>, added: Seq<Folder>) -> Seq<u128>
    decreases added.len(),
{
    if added.len() == 0 {
        collapsed
    } else {
        let c = parents_expanded(collapsed, added.drop_last());
        match added.last().parent_id {
            Some(p) => without(c, p),
            None => c,
        }
    }
}

impl SoundFxApp {
    /// Adds folders an import created, in order, each expanding its parent
    /// as `create_folder_record` does.
    pub fn add_imported_folders(&mut self, added: Vec<Folder>)
        ensures
            crate::model::id_sets_distinct(*old(self)) ==> crate::model::id_sets_distinct(*final(self)),
            old(self).library_collapsed_folders@.no_duplicates() ==> final(self).library_collapsed_folders@.no_duplicates(),
            final(self).folders@ == old(self).folders@ + added@,
            final(self).library_collapsed_folders@ == parents_expanded(
                old(self).library_collapsed_folders@,
                added@,
            ),
            *final(self) == (SoundFxApp {
                folders: final(self).folders,
                library_collapsed_folders: final(self).library_collapsed_folders,
                ..*old(self)
            }),
    {
        let ghost fs0 = self.folders@;
        let ghost c0 = self.library_collapsed_folders@;
        let ghost s0 = *self;
        let mut i: usize = 0;
        while i < added.len()
            invariant
                i <= added.len(),
                self.folders@ == fs0 + added@.take(i as int),
                self.library_collapsed_folders@ == parents_expanded(c0, added@.take(i as int)),
                c0.no_duplicates() ==> self.library_collapsed_folders@.no_duplicates(),
                *self == (SoundFxApp {
                    folders: self.folders,
                    library_collapsed_folders: self.library_collapsed_folders,
                    ..s0
                }),
            decreases added.len() - i,
        {
            let f = added[i].clone();
            let parent = f.parent_id;
            self.folders.push(f);
            match parent {
                Some(p) => {
                    self.library_collapsed_folders = without_id(&self.library_collapsed_folders, p);
                },
                None => {},
            }
            proof {
                assert(added@.take(i + 1).drop_last() =~= added@.take(i as int));
            }
            i = i + 1;
            assert(self.folders@ =~= fs0 + added@.take(i as int));
        }
        assert(added@.take(added@.len() as int) =~= added@);
    }
}

} // verus!
