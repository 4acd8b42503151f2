use vstd::prelude::*;
use crate::importing::ImportEntry;

verus! {

/// A folder of the sound library. Folders form a forest through `parent_id`.
pub struct Folder {
    pub id: u128,
    pub name: String,
    pub parent_id: Option<u128>,
}

impl Clone for Folder {
    fn clone(&self) -> (r: Self)
        ensures
            r == *self,
    {
        Folder { id: self.id, name: self.name.clone(), parent_id: self.parent_id }
    }
}

/// The mathematical value of a sound effect.
pub struct SoundView {
    pub id: u128,
    pub name: Seq<char>,
    pub tags: Seq<Seq<char>>,
    pub folder_id: Option<u128>,
    pub favorite: bool,
}

/// What the library logic reads of a sound effect. The audio data, the trim
/// points and the effect settings stay with the application, keyed by `id`.
pub struct SoundEffect {
    pub id: u128,
    pub name: String,
    pub tags: Vec<String>,
    pub folder_id: Option<u128>,
    pub favorite: bool,
}

impl View for SoundEffect {
    type V = SoundView;

    open spec fn view(&self) -> SoundView {
        SoundView {
            id: self.id,
            name: self.name@,
            tags: strs(self.tags@),
            folder_id: self.folder_id,
            favorite: self.favorite,
        }
    }
}

/// The views of a sequence of sounds.
pub open spec fn sound_views(v: Seq<SoundEffect>) -> Seq<SoundView> {
    v.map_values(|s: SoundEffect| s@)
}

impl Clone for SoundEffect {
    fn clone(&self) -> (r: Self)
        ensures
            r@ == self@,
    {
        let tags = clone_strings(&self.tags);
        SoundEffect {
            id: self.id,
            name: self.name.clone(),
            tags,
            folder_id: self.folder_id,
            favorite: self.favorite,
        }
    }
}

/// What the library logic reads of a video asset.
pub struct VideoAsset {
    pub id: u128,
    pub name: String,
    pub favorite: bool,
}

impl Clone for VideoAsset {
    fn clone(&self) -> (r: Self)
        ensures
            r == *self,
    {
        VideoAsset { id: self.id, name: self.name.clone(), favorite: self.favorite }
    }
}

/// The main screens of the application.
#[derive(PartialEq, Eq, Structural, Clone, Copy, Debug)]
pub enum AppView {
    Library,
    Editor,
}

/// The tabs of the library screen.
#[derive(PartialEq, Eq, Structural, Clone, Copy, Debug)]
pub enum LibraryTab {
    Sounds,
    Videos,
}

/// A clip on the trim timeline. Its placement and audio settings are kept by
/// the application under `id`.
pub struct TrimTimelineClip {
    pub id: u128,
    pub source_sound_id: u128,
}

impl Clone for TrimTimelineClip {
    fn clone(&self) -> (r: Self)
        ensures
            r == *self,
    {
        TrimTimelineClip { id: self.id, source_sound_id: self.source_sound_id }
    }
}

/// One row (track) of the trim timeline.
pub struct TrimTimelineRow {
    pub clips: Vec<TrimTimelineClip>,
    pub muted: bool,
}

impl TrimTimelineRow {
    /// An empty, audible row (`TrimTimelineRow::default`).
    pub fn new() -> (r: Self)
        ensures
            r.clips@.len() == 0,
            !r.muted,
    {
        TrimTimelineRow { clips: Vec::new(), muted: false }
    }
}

/// The structure of the trim timeline: which rows hold which clips, and what
/// is selected. The playhead position is kept by the application.
pub struct TrimTimelineState {
    pub sound_id: u128,
    pub enabled: bool,
    pub snap_enabled: bool,
    pub selected_clip_id: Option<u128>,
    pub selected_clip_ids: Vec<u128>,
    pub rows: Vec<TrimTimelineRow>,
    pub timeline_is_playing: bool,
}

/// A running background import into the library.
pub struct ActiveLibraryImport {
    pub job_id: u128,
    pub target_folder_id: Option<u128>,
    pub completed: usize,
    pub total: usize,
    pub current_label: String,
}

/// The state of the application that its library and editor logic works on.
pub struct SoundFxApp {
    pub sounds: Vec<SoundEffect>,
    pub folders: Vec<Folder>,
    pub video_assets: Vec<VideoAsset>,
    pub selected: Option<u128>,
    pub app_view: AppView,
    pub library_tab: LibraryTab,
    pub library_current_folder: Option<u128>,
    pub library_collapsed_folders: Vec<u128>,
    pub folder_import_select_mode: Option<u128>,
    pub editing_folder_id: Option<u128>,
    pub editing_from_folder: Option<u128>,
    pub library_folder_create_open: bool,
    pub library_audio_query: String,
    pub library_video_query: String,
    pub library_audio_tag_filters: Vec<String>,
    pub library_favorites_only_audio: bool,
    pub library_favorites_only_video: bool,
    pub editor_tags_input: String,
    pub editor_tags_input_sound_id: Option<u128>,
    pub new_folder_name: String,
    pub folder_name_warning: bool,
    pub folder_rename_name: String,
    pub show_delete_folder_confirm: Option<u128>,
    pub status: Option<String>,
    pub pending_save: bool,
    pub trim_timeline_state: Option<TrimTimelineState>,
    pub trim_timeline_drop_target_row: Option<usize>,
    pub pending_sound_drag: Option<u128>,
    pub myinstants_preview_audio_url: Option<String>,
    pub pending_preview_sound: Option<u128>,
    pub trim_timeline_scrub_resume_pending: bool,
    pub trim_commit_inflight: Vec<u128>,
    pub pending_processed_export_sound: Option<u128>,
    pub library_import_job: Option<ActiveLibraryImport>,
    pub trim_timeline_clip_delete_animating: Vec<u128>,
    pub processed_export_inflight: Vec<String>,
    /// A file drag entered the editor's drop zone and may be released there.
    pub editor_drop_armed: bool,
    /// A file the application dragged out itself, to ignore when it comes back.
    pub ignored_drop_path: Option<String>,
    pub library_drop_target_folder: Option<u128>,
    pub library_drop_target_root: bool,
    /// The name typed for the sound a timeline mix produces.
    pub trim_commit_output_name: String,
    /// The audio files and directories the import panel offers.
    pub import_audio_entries: Vec<ImportEntry>,
    pub show_import_panel: bool,
}

/// The id lists that stand for sets (collapsed folders, sounds with a
/// timeline mix in flight, clips being deleted, exports in flight) hold each
/// id at most once.
pub open spec fn id_sets_distinct(app: SoundFxApp) -> bool {
    &&& app.library_collapsed_folders@.no_duplicates()
    &&& app.trim_commit_inflight@.no_duplicates()
    &&& app.trim_timeline_clip_delete_animating@.no_duplicates()
    &&& strs(app.processed_export_inflight@).no_duplicates()
}

impl SoundFxApp {
    /// An application with an empty library, showing the library screen.
    pub fn new() -> (app: Self)
        ensures
            id_sets_distinct(app),
            app.sounds@.len() == 0,
            app.folders@.len() == 0,
            app.video_assets@.len() == 0,
            app.selected is None,
            app.app_view == AppView::Library,
            app.library_tab == LibraryTab::Sounds,
            app.library_current_folder is None,
            app.library_collapsed_folders@.len() == 0,
            app.folder_import_select_mode is None,
            app.editing_folder_id is None,
            app.editing_from_folder is None,
            !app.library_folder_create_open,
            app.library_audio_query@.len() == 0,
            app.library_video_query@.len() == 0,
            app.library_audio_tag_filters@.len() == 0,
            !app.library_favorites_only_audio,
            !app.library_favorites_only_video,
            app.editor_tags_input@.len() == 0,
            app.editor_tags_input_sound_id is None,
            app.new_folder_name@.len() == 0,
            !app.folder_name_warning,
            app.folder_rename_name@.len() == 0,
            app.show_delete_folder_confirm is None,
            app.status is None,
            !app.pending_save,
            app.trim_timeline_state is None,
            app.trim_timeline_drop_target_row is None,
            app.pending_sound_drag is None,
            app.myinstants_preview_audio_url is None,
            app.pending_preview_sound is None,
            !app.trim_timeline_scrub_resume_pending,
            app.trim_commit_inflight@.len() == 0,
            app.pending_processed_export_sound is None,
            app.library_import_job is None,
            app.trim_timeline_clip_delete_animating@.len() == 0,
            app.processed_export_inflight@.len() == 0,
            !app.editor_drop_armed,
            app.ignored_drop_path is None,
            app.library_drop_target_folder is None,
            !app.library_drop_target_root,
            app.trim_commit_output_name@.len() == 0,
            app.import_audio_entries@.len() == 0,
            !app.show_import_panel,
    {
        SoundFxApp {
            sounds: Vec::new(),
            folders: Vec::new(),
            video_assets: Vec::new(),
            selected: None,
            app_view: AppView::Library,
            library_tab: LibraryTab::Sounds,
            library_current_folder: None,
            library_collapsed_folders: Vec::new(),
            folder_import_select_mode: None,
            editing_folder_id: None,
            editing_from_folder: None,
            library_folder_create_open: false,
            library_audio_query: String::new(),
            library_video_query: String::new(),
            library_audio_tag_filters: Vec::new(),
            library_favorites_only_audio: false,
            library_favorites_only_video: false,
            editor_tags_input: String::new(),
            editor_tags_input_sound_id: None,
            new_folder_name: String::new(),
            folder_name_warning: false,
            folder_rename_name: String::new(),
            show_delete_folder_confirm: None,
            status: None,
            pending_save: false,
            trim_timeline_state: None,
            trim_timeline_drop_target_row: None,
            pending_sound_drag: None,
            myinstants_preview_audio_url: None,
            pending_preview_sound: None,
            trim_timeline_scrub_resume_pending: false,
            trim_commit_inflight: Vec::new(),
            pending_processed_export_sound: None,
            library_import_job: None,
            trim_timeline_clip_delete_animating: Vec::new(),
            processed_export_inflight: Vec::new(),
            editor_drop_armed: false,
            ignored_drop_path: None,
            library_drop_target_folder: None,
            library_drop_target_root: false,
            trim_commit_output_name: String::new(),
            import_audio_entries: Vec::new(),
            show_import_panel: false,
        }
    }
}

/// A fresh random id (`uuid::Uuid::new_v4`), as its 128-bit value. The value
/// is random: nothing is claimed of it.
#[verifier::external_body]
pub(crate) fn new_uuid() -> u128 {
    uuid::Uuid::new_v4().as_u128()
}

/// The views of a sequence of strings.
pub open spec fn strs(v: Seq<String>) -> Seq<Seq<char>> {
    v.map_values(|s: String| s@)
}

/// A copy of the strings.
pub fn clone_strings(v: &Vec<String>) -> (r: Vec<String>)
    ensures
        r@ == v@,
{
    let mut r: Vec<String> = Vec::new();
    let mut i: usize = 0;
    while i < v.len()
        invariant
            i <= v.len(),
            r@ == v@.subrange(0, i as int),
        decreases v.len() - i,
    {
        r.push(v[i].clone());
        i = i + 1;
        assert(r@ =~= v@.subrange(0, i as int));
    }
    assert(r@ =~= v@);
    r
}

/// The elements of `s` that satisfy `p`, in order.
pub open spec fn keep<A>(s: Seq<A>, p: spec_fn(A) -> bool) -> Seq<A>
    decreases s.len(),
{
    if s.len() == 0 {
        Seq::empty()
    } else {
        let r = keep(s.drop_last(), p);
        if p(s.last()) {
            r.push(s.last())
        } else {
            r
        }
    }
}

/// The positions of the elements of `s` that satisfy `p`, in order.
pub open spec fn keep_indices<A>(s: Seq<A>, p: spec_fn(A) -> bool) -> Seq<usize>
    decreases s.len(),
{
    if s.len() == 0 {
        Seq::empty()
    } else {
        let r = keep_indices(s.drop_last(), p);
        if p(s.last()) {
            r.push((s.len() - 1) as usize)
        } else {
            r
        }
    }
}

/// The position of the first element of `s` that satisfies `p`.
pub open spec fn first_index<A>(s: Seq<A>, p: spec_fn(A) -> bool) -> Option<int>
    decreases s.len(),
{
    if s.len() == 0 {
        None
    } else {
        match first_index(s.drop_last(), p) {
            Some(i) => Some(i),
            None => if p(s.last()) {
                Some(s.len() - 1)
            } else {
                None
            },
        }
    }
}

/// `first_index` finds the first element that satisfies `p`, if any.
pub proof fn lemma_first_index<A>(s: Seq<A>, p: spec_fn(A) -> bool)
    ensures
        match first_index(s, p) {
            Some(i) => 0 <= i < s.len() && p(s[i]) && forall|j: int| 0 <= j < i ==> !p(s[j]),
            None => forall|j: int| 0 <= j < s.len() ==> !p(s[j]),
        },
    decreases s.len(),
{
    if s.len() > 0 {
        lemma_first_index(s.drop_last(), p);
        assert forall|j: int| 0 <= j < s.len() - 1 implies s.drop_last()[j] == s[j] by {}
    }
}

/// The sequence without the element `x`.
pub open spec fn without<A>(s: Seq<A>, x: A) -> Seq<A> {
    keep(s, |y: A| y != x)
}

/// Number of `false` entries.
pub open spec fn count_false(m: Seq<bool>) -> nat
    decreases m.len(),
{
    if m.len() == 0 {
        0
    } else {
        count_false(m.drop_last()) + if m.last() {
            0nat
        } else {
            1nat
        }
    }
}

/// Setting a `false` entry to `true` lowers the count of `false` entries by one.
pub proof fn lemma_count_false_update(m: Seq<bool>, j: int)
    requires
        0 <= j < m.len(),
        !m[j],
    ensures
        count_false(m.update(j, true)) + 1 == count_false(m),
    decreases m.len(),
{
    let u = m.update(j, true);
    if j == m.len() - 1 {
        assert(u.drop_last() =~= m.drop_last());
    } else {
        assert(u.drop_last() =~= m.drop_last().update(j, true));
        lemma_count_false_update(m.drop_last(), j);
    }
}


/// What `keep` keeps comes from the sequence.
pub proof fn lemma_keep_contains<A>(s: Seq<A>, p: spec_fn(A) -> bool, x: A)
    requires
        keep(s, p).contains(x),
    ensures
        s.contains(x),
    decreases s.len(),
{
    let d = s.drop_last();
    let k = keep(d, p);
    if k.contains(x) {
        lemma_keep_contains(d, p, x);
        let i = choose|i: int| 0 <= i < d.len() && d[i] == x;
        assert(s[i] == x);
    } else {
        assert(s[s.len() - 1] == x);
    }
}

/// Keeping part of a sequence without repeats gives no repeats.
pub proof fn lemma_keep_no_duplicates<A>(s: Seq<A>, p: spec_fn(A) -> bool)
    requires
        s.no_duplicates(),
    ensures
        keep(s, p).no_duplicates(),
    decreases s.len(),
{
    if s.len() > 0 {
        let d = s.drop_last();
        assert(d.no_duplicates()) by {
            assert forall|i: int, j: int| 0 <= i < d.len() && 0 <= j < d.len() && i != j implies d[i] != d[j] by {
                assert(d[i] == s[i] && d[j] == s[j]);
            }
        }
        lemma_keep_no_duplicates(d, p);
        if p(s.last()) {
            let k = keep(d, p);
            assert(!k.contains(s.last())) by {
                if k.contains(s.last()) {
                    lemma_keep_contains(d, p, s.last());
                    let i = choose|i: int| 0 <= i < d.len() && d[i] == s.last();
                    assert(s[i] == s[s.len() - 1]);
                }
            }
            assert forall|i: int, j: int| 0 <= i < k.push(s.last()).len() && 0 <= j < k.push(s.last()).len() && i != j implies k.push(s.last())[i] != k.push(s.last())[j] by {
                if i == k.len() {
                    assert(k.contains(k[j]));
                } else if j == k.len() {
                    assert(k.contains(k[i]));
                }
            }
        }
    }
}

/// Pushing an absent element keeps a sequence without repeats.
pub proof fn lemma_push_no_duplicates<A>(s: Seq<A>, x: A)
    requires
        s.no_duplicates(),
        !s.contains(x),
    ensures
        s.push(x).no_duplicates(),
{
    assert forall|i: int, j: int| 0 <= i < s.push(x).len() && 0 <= j < s.push(x).len() && i != j implies s.push(x)[i] != s.push(x)[j] by {
        if i == s.len() {
            assert(s.contains(s[j]));
        } else if j == s.len() {
            assert(s.contains(s[i]));
        }
    }
}


/// Removing an element keeps a sequence without repeats.
pub proof fn lemma_without_no_duplicates<A>(s: Seq<A>, x: A)
    requires
        s.no_duplicates(),
    ensures
        without(s, x).no_duplicates(),
{
    lemma_keep_no_duplicates(s, |y: A| y != x);
}

} // verus!
