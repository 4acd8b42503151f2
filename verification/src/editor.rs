use vstd::prelude::*;
use crate::model::{
    AppView, SoundEffect, SoundFxApp, SoundView, TrimTimelineClip, TrimTimelineRow,
    TrimTimelineState, first_index, keep, lemma_first_index, sound_views, strs, without,
};
use crate::tags::{spec_join, tag_separator};
use crate::tree::find_sound_index;

verus! {

/// The number of undo steps kept per history.
pub const TRIM_HISTORY_LIMIT: usize = 128;

/// A snapshot of the trim settings of one sound. The trim points themselves
/// (`data`) are the application's.
pub struct TrimSnapshot<D> {
    pub sound_id: u128,
    pub data: D,
}

/// The timeline state with its transport stopped.
pub open spec fn stopped_timeline(s: Option<TrimTimelineState>) -> Option<TrimTimelineState> {
    match s {
        Some(st) => Some(TrimTimelineState { timeline_is_playing: false, ..st }),
        None => None,
    }
}

/// The application state once every preview has stopped.
pub open spec fn preview_stopped(app: SoundFxApp) -> SoundFxApp {
    SoundFxApp {
        trim_timeline_state: stopped_timeline(app.trim_timeline_state),
        myinstants_preview_audio_url: None,
        pending_preview_sound: None,
        trim_timeline_scrub_resume_pending: false,
        ..app
    }
}

/// A history stack after pushing `entry`: the oldest entry is dropped once
/// the stack holds more than `TRIM_HISTORY_LIMIT` entries.
pub open spec fn history_pushed<T>(stack: Seq<T>, entry: T) -> Seq<T> {
    if stack.len() + 1 > TRIM_HISTORY_LIMIT {
        stack.push(entry).subrange(1, (stack.len() + 1) as int)
    } else {
        stack.push(entry)
    }
}

/// Snapshots that belong to another sound than `sound_id`.
pub open spec fn other_sound<D>(sound_id: u128) -> spec_fn(TrimSnapshot<D>) -> bool {
    |s: TrimSnapshot<D>| s.sound_id != sound_id
}

/// The position of the selected sound.
pub open spec fn selected_index(app: SoundFxApp) -> Option<int> {
    match app.selected {
        Some(id) => first_index(sound_views(app.sounds@), |s: SoundView| s.id == id),
        None => None,
    }
}

/// All clips of the timeline, row by row.
pub open spec fn flat_clips(rows: Seq<TrimTimelineRow>) -> Seq<TrimTimelineClip>
    decreases rows.len(),
{
    if rows.len() == 0 {
        Seq::empty()
    } else {
        flat_clips(rows.drop_last()) + rows.last().clips@
    }
}

/// Some sound has id `id`.
pub open spec fn sound_exists(app: SoundFxApp, id: u128) -> bool {
    exists|i: int| 0 <= i < app.sounds@.len() && app.sounds@[i].id == id
}

/// The sound the timeline is anchored to: `fallback` when it exists, else
/// the current anchor, else the source of the first clip, else the selected
/// sound (each only when that sound exists), else the first sound, else
/// `fallback`.
pub open spec fn anchor_sound_id(app: SoundFxApp, fallback: u128) -> u128 {
    if sound_exists(app, fallback) {
        fallback
    } else if app.trim_timeline_state is Some && sound_exists(
        app,
        app.trim_timeline_state->0.sound_id,
    ) {
        app.trim_timeline_state->0.sound_id
    } else if app.trim_timeline_state is Some && first_index(
        flat_clips(app.trim_timeline_state->0.rows@),
        |c: TrimTimelineClip| sound_exists(app, c.source_sound_id),
    ) is Some {
        flat_clips(app.trim_timeline_state->0.rows@)[first_index(
            flat_clips(app.trim_timeline_state->0.rows@),
            |c: TrimTimelineClip| sound_exists(app, c.source_sound_id),
        )->0].source_sound_id
    } else if app.selected is Some && sound_exists(app, app.selected->0) {
        app.selected->0
    } else if app.sounds@.len() > 0 {
        app.sounds@[0].id
    } else {
        fallback
    }
}

/// `rows` is `old` normalized: at least three rows, the last one empty, no
/// two empty rows at the end beyond the third, rows kept in place, removed
/// rows empty and added rows empty and audible.
pub open spec fn rows_normalized(rows: Seq<TrimTimelineRow>, old: Seq<TrimTimelineRow>) -> bool {
    &&& rows.len() >= 3
    &&& rows.last().clips@.len() == 0
    &&& rows.len() > 3 ==> rows[rows.len() - 2].clips@.len() > 0
    &&& forall|i: int| 0 <= i < rows.len() && i < old.len() ==> rows[i] == old[i]
    &&& forall|i: int| old.len() <= i < rows.len() ==> rows[i].clips@.len() == 0 && !rows[i].muted
    &&& forall|i: int| rows.len() <= i < old.len() ==> old[i].clips@.len() == 0
}

/// The (row, position) of the first clip with id `id`: earlier rows hold no
/// such clip, and no earlier clip of the row has it.
pub open spec fn clip_located(rows: Seq<TrimTimelineRow>, id: u128, r: int, c: int) -> bool {
    &&& 0 <= r < rows.len()
    &&& 0 <= c < rows[r].clips@.len()
    &&& rows[r].clips@[c].id == id
    &&& forall|x: int| 0 <= x < c ==> rows[r].clips@[x].id != id
    &&& forall|q: int, x: int|
        0 <= q < r && 0 <= x < rows[q].clips@.len() ==> rows[q].clips@[x].id != id
}

/// Some clip of the rows has id `id`.
pub open spec fn clip_present(rows: Seq<TrimTimelineRow>, id: u128) -> bool {
    exists|q: int, x: int|
        0 <= q < rows.len() && 0 <= x < rows[q].clips@.len() && rows[q].clips@[x].id == id
}

/// What `trim_timeline_selected_clip_from_state` finds.
pub open spec fn selected_clip_found(
    state: TrimTimelineState,
    r: Option<(usize, usize, TrimTimelineClip)>,
) -> bool {
    match r {
        Some((row, pos, clip)) => state.selected_clip_id is Some && clip_located(
            state.rows@,
            state.selected_clip_id->0,
            row as int,
            pos as int,
        ) && clip == state.rows@[row as int].clips@[pos as int],
        None => state.selected_clip_id is None || !clip_present(
            state.rows@,
            state.selected_clip_id->0,
        ),
    }
}

/// The timeline state when it is enabled and anchored to `sound_id`.
pub open spec fn active_timeline_for(app: SoundFxApp, sound_id: u128) -> Option<TrimTimelineState> {
    match app.trim_timeline_state {
        Some(st) => if st.sound_id == sound_id && st.enabled {
            Some(st)
        } else {
            None
        },
        None => None,
    }
}

/// Pushes `snapshot` onto a history stack and drops the oldest entry beyond
/// `TRIM_HISTORY_LIMIT`.
pub fn push_history<T>(stack: &mut Vec<T>, snapshot: T)
    ensures
        final(stack)@ == history_pushed(old(stack)@, snapshot),
{
    stack.push(snapshot);
    if stack.len() > TRIM_HISTORY_LIMIT {
        stack.remove(0);
        assert(final(stack)@ =~= old(stack)@.push(snapshot).subrange(1, (old(stack)@.len() + 1) as int));
    }
}

/// The snapshots of other sounds than `sound_id`.
fn drop_sound_snapshots<D>(stack: &mut Vec<TrimSnapshot<D>>, sound_id: u128)
    ensures
        final(stack)@ == keep(old(stack)@, other_sound::<D>(sound_id)),
{
    let ghost orig = stack@;
    let ghost p = other_sound::<D>(sound_id);
    let mut kept: Vec<TrimSnapshot<D>> = Vec::new();
    let ghost mut k: int = 0;
    while stack.len() > 0
        invariant
            0 <= k <= orig.len(),
            p == other_sound::<D>(sound_id),
            stack@ == orig.subrange(k, orig.len() as int),
            kept@ == keep(orig.take(k), p),
        decreases stack.len(),
    {
        let s = stack.remove(0);
        proof {
            assert(orig.take(k + 1).drop_last() =~= orig.take(k));
            assert(orig.take(k + 1).last() == orig[k]);
        }
        if s.sound_id != sound_id {
            kept.push(s);
        }
        proof {
            k = k + 1;
            assert(stack@ =~= orig.subrange(k, orig.len() as int));
        }
    }
    assert(orig.take(orig.len() as int) =~= orig);
    *stack = kept;
}

/// The first row, position and clip whose id is `id`.
fn locate_clip(rows: &Vec<TrimTimelineRow>, id: u128) -> (r: Option<(usize, usize, TrimTimelineClip)>)
    ensures
        match r {
            Some((row, pos, clip)) => clip_located(rows@, id, row as int, pos as int) && clip
                == rows@[row as int].clips@[pos as int],
            None => !clip_present(rows@, id),
        },
{
    let mut r: usize = 0;
    while r < rows.len()
        invariant
            r <= rows.len(),
            forall|q: int, x: int|
                0 <= q < r && 0 <= x < rows@[q].clips@.len() ==> rows@[q].clips@[x].id != id,
        decreases rows.len() - r,
    {
        let mut c: usize = 0;
        while c < rows[r].clips.len()
            invariant
                r < rows.len(),
                c <= rows@[r as int].clips@.len(),
                forall|x: int| 0 <= x < c ==> rows@[r as int].clips@[x].id != id,
                forall|q: int, x: int|
                    0 <= q < r && 0 <= x < rows@[q].clips@.len() ==> rows@[q].clips@[x].id != id,
            decreases rows@[r as int].clips@.len() - c,
        {
            if rows[r].clips[c].id == id {
                return Some((r, c, rows[r].clips[c].clone()));
            }
            c = c + 1;
        }
        r = r + 1;
    }
    None
}

/// Whether some sound has id `id`.
fn sound_exists_exec(sounds: &Vec<SoundEffect>, id: u128) -> (r: bool)
    ensures
        r == exists|i: int| 0 <= i < sounds@.len() && sounds@[i].id == id,
{
    let mut i: usize = 0;
    while i < sounds.len()
        invariant
            i <= sounds.len(),
            forall|j: int| 0 <= j < i ==> sounds@[j].id != id,
        decreases sounds.len() - i,
    {
        if sounds[i].id == id {
            return true;
        }
        i = i + 1;
    }
    false
}

impl SoundFxApp {
    /// Forgets every running or pending preview. The caller stops the audio
    /// output itself.
    pub fn stop_preview(&mut self)
        ensures
            *final(self) == preview_stopped(*old(self)),
    {
        match &mut self.trim_timeline_state {
            Some(state) => {
                state.timeline_is_playing = false;
            },
            None => {},
        }
        self.myinstants_preview_audio_url = None;
        self.pending_preview_sound = None;
        self.trim_timeline_scrub_resume_pending = false;
    }

    /// Clears the status line.
    pub fn clear_status(&mut self)
        ensures
            *final(self) == (SoundFxApp { status: None, ..*old(self) }),
    {
        self.status = None;
    }

    /// The tag filters selected in the library.
    pub fn active_audio_tag_filters(&self) -> (r: &[String])
        ensures
            r@ == self.library_audio_tag_filters@,
    {
        self.library_audio_tag_filters.as_slice()
    }

    /// The position of the selected sound.
    pub fn selected_sound_index(&self) -> (r: Option<usize>)
        ensures
            match r {
                Some(i) => selected_index(*self) == Some(i as int),
                None => selected_index(*self) is None,
            },
    {
        match self.selected {
            Some(id) => find_sound_index(&self.sounds, id),
            None => None,
        }
    }

    /// Pushes a snapshot onto a trim history stack, dropping the oldest entry
    /// beyond `TRIM_HISTORY_LIMIT`.
    pub fn push_trim_history_entry<T>(stack: &mut Vec<T>, snapshot: T)
        ensures
            final(stack)@ == history_pushed(old(stack)@, snapshot),
            old(stack)@.len() <= TRIM_HISTORY_LIMIT ==> final(stack)@.len() <= TRIM_HISTORY_LIMIT,
    {
        push_history(stack, snapshot);
    }

    /// Drops every undo and redo snapshot of the sound.
    pub fn clear_trim_history_for_sound<D>(
        undo: &mut Vec<TrimSnapshot<D>>,
        redo: &mut Vec<TrimSnapshot<D>>,
        sound_id: u128,
    )
        ensures
            final(undo)@ == keep(old(undo)@, other_sound::<D>(sound_id)),
            final(redo)@ == keep(old(redo)@, other_sound::<D>(sound_id)),
    {
        drop_sound_snapshots(undo, sound_id);
        drop_sound_snapshots(redo, sound_id);
    }

    /// Records an edit of the trim settings: when `changed` (the settings
    /// before and after differ), `before` goes onto the undo stack and the
    /// redo stack is cleared.
    pub fn push_trim_undo_snapshot<D>(
        undo: &mut Vec<TrimSnapshot<D>>,
        redo: &mut Vec<TrimSnapshot<D>>,
        before: TrimSnapshot<D>,
        changed: bool,
    )
        ensures
            changed ==> final(undo)@ == history_pushed(old(undo)@, before) && final(redo)@.len()
                == 0,
            !changed ==> final(undo)@ == old(undo)@ && final(redo)@ == old(redo)@,
    {
        if changed {
            push_history(undo, before);
            redo.clear();
        }
    }

    /// Records an edit of the timeline: `before` goes onto the undo stack and
    /// the redo stack is cleared.
    pub fn push_trim_timeline_undo_snapshot_changed<T>(
        undo: &mut Vec<T>,
        redo: &mut Vec<T>,
        before: T,
    )
        ensures
            final(undo)@ == history_pushed(old(undo)@, before),
            final(redo)@.len() == 0,
    {
        push_history(undo, before);
        redo.clear();
    }

    /// Records an edit of the timeline that started from `before`, unless
    /// the timeline equals `before` again: then `before` goes onto the undo
    /// stack and the redo stack is cleared.
    pub fn push_trim_timeline_undo_snapshot(
        &self,
        undo: &mut Vec<TrimTimelineState>,
        redo: &mut Vec<TrimTimelineState>,
        before: TrimTimelineState,
    )
        ensures
            timeline_unchanged(self.trim_timeline_state, before) ==> final(undo)@ == old(undo)@
                && final(redo)@ == old(redo)@,
            !timeline_unchanged(self.trim_timeline_state, before) ==> final(undo)@ == history_pushed(
                old(undo)@,
                before,
            ) && final(redo)@.len() == 0,
    {
        let unchanged = match &self.trim_timeline_state {
            Some(st) => timeline_states_equal(st, &before),
            None => false,
        };
        if !unchanged {
            Self::push_trim_timeline_undo_snapshot_changed(undo, redo, before);
        }
    }

    /// Three empty rows.
    pub fn default_trim_timeline_rows() -> (rows: Vec<TrimTimelineRow>)
        ensures
            rows@.len() == 3,
            forall|i: int| 0 <= i < 3 ==> rows@[i].clips@.len() == 0 && !rows@[i].muted,
    {
        let mut rows: Vec<TrimTimelineRow> = Vec::new();
        rows.push(TrimTimelineRow::new());
        rows.push(TrimTimelineRow::new());
        rows.push(TrimTimelineRow::new());
        rows
    }

    /// A new, disabled timeline anchored to `sound_id`, with snapping on and
    /// three empty rows.
    pub fn default_trim_timeline_state(sound_id: u128) -> (state: TrimTimelineState)
        ensures
            state.sound_id == sound_id,
            !state.enabled,
            state.snap_enabled,
            state.selected_clip_id is None,
            state.selected_clip_ids@.len() == 0,
            state.rows@.len() == 3,
            forall|i: int| 0 <= i < 3 ==> state.rows@[i].clips@.len() == 0 && !state.rows@[i].muted,
            !state.timeline_is_playing,
    {
        TrimTimelineState {
            sound_id,
            enabled: false,
            snap_enabled: true,
            selected_clip_id: None,
            selected_clip_ids: Vec::new(),
            rows: Self::default_trim_timeline_rows(),
            timeline_is_playing: false,
        }
    }

    /// Keeps at least three rows and exactly one empty row at the end (beyond
    /// the third).
    pub fn normalize_trim_timeline_rows(rows: &mut Vec<TrimTimelineRow>)
        ensures
            rows_normalized(final(rows)@, old(rows)@),
    {
        let ghost orig = rows@;
        while rows.len() < 3
            invariant
                orig == old(rows)@,
                forall|i: int| 0 <= i < rows@.len() && i < orig.len() ==> rows@[i] == orig[i],
                rows@.len() >= orig.len(),
                forall|i: int| orig.len() <= i < rows@.len() ==> rows@[i].clips@.len() == 0 && !rows@[i].muted,
            decreases 3 - rows.len(),
        {
            let ghost before = rows@;
            rows.push(TrimTimelineRow::new());
            assert forall|i: int| 0 <= i < before.len() implies rows@[i] == before[i] by {}
        }
        while rows.len() > 3 && rows[rows.len() - 1].clips.len() == 0 && rows[rows.len() - 2].clips.len() == 0
            invariant
                orig == old(rows)@,
                rows@.len() >= 3,
                forall|i: int| 0 <= i < rows@.len() && i < orig.len() ==> rows@[i] == orig[i],
                forall|i: int| orig.len() <= i < rows@.len() ==> rows@[i].clips@.len() == 0 && !rows@[i].muted,
                forall|i: int| rows@.len() <= i < orig.len() ==> orig[i].clips@.len() == 0,
                rows@.len() < orig.len() ==> rows@.last().clips@.len() == 0,
            decreases rows.len(),
        {
            let ghost before = rows@;
            rows.pop();
            assert forall|i: int| 0 <= i < rows@.len() implies rows@[i] == before[i] by {}
        }
        if rows[rows.len() - 1].clips.len() > 0 {
            let ghost before = rows@;
            rows.push(TrimTimelineRow::new());
            assert forall|i: int| 0 <= i < before.len() implies rows@[i] == before[i] by {}
        }
    }

    /// The clip selected on the timeline: its row, its position in the row
    /// and the clip itself.
    pub fn trim_timeline_selected_clip_from_state(
        state: &TrimTimelineState,
    ) -> (r: Option<(usize, usize, TrimTimelineClip)>)
        ensures
            selected_clip_found(*state, r),
    {
        match state.selected_clip_id {
            Some(id) => locate_clip(&state.rows, id),
            None => None,
        }
    }

    /// The clip selected on the timeline of `sound_id`, when that timeline is
    /// enabled.
    pub fn trim_timeline_selected_clip_snapshot(&self, sound_id: u128) -> (r: Option<
        (usize, usize, TrimTimelineClip),
    >)
        ensures
            match active_timeline_for(*self, sound_id) {
                Some(st) => selected_clip_found(st, r),
                None => r is None,
            },
    {
        match &self.trim_timeline_state {
            Some(state) => {
                if state.sound_id == sound_id && state.enabled {
                    Self::trim_timeline_selected_clip_from_state(state)
                } else {
                    None
                }
            },
            None => None,
        }
    }

    /// The sound of the enabled timeline.
    pub fn timeline_mode_active_sound_id(&self) -> (r: Option<u128>)
        ensures
            r == (match self.trim_timeline_state {
                Some(st) => if st.enabled {
                    Some(st.sound_id)
                } else {
                    None
                },
                None => None,
            }),
    {
        match &self.trim_timeline_state {
            Some(state) => {
                if state.enabled {
                    Some(state.sound_id)
                } else {
                    None
                }
            },
            None => None,
        }
    }

    /// A sound is being dragged while the timeline is enabled, so the drag
    /// targets the timeline.
    pub fn trim_timeline_drag_capture_active(&self) -> (r: bool)
        ensures
            r == (self.pending_sound_drag is Some && timeline_enabled(*self)),
    {
        self.pending_sound_drag.is_some() && match &self.trim_timeline_state {
            Some(state) => state.enabled,
            None => false,
        }
    }

    /// Starts the delete animation of a clip unless it already runs; returns
    /// whether it started. The caller records the start time.
    pub fn trim_timeline_begin_clip_delete_animation(&mut self, clip_id: u128) -> (started: bool)
        ensures
            crate::model::id_sets_distinct(*old(self)) ==> crate::model::id_sets_distinct(*final(self)),
            started == !old(self).trim_timeline_clip_delete_animating@.contains(clip_id),
            started ==> final(self).trim_timeline_clip_delete_animating@ == old(
                self,
            ).trim_timeline_clip_delete_animating@.push(clip_id),
            *final(self) == (SoundFxApp {
                trim_timeline_clip_delete_animating: final(self).trim_timeline_clip_delete_animating,
                ..*old(self)
            }),
            !started ==> *final(self) == *old(self),
            old(self).trim_timeline_clip_delete_animating@.no_duplicates()
                ==> final(self).trim_timeline_clip_delete_animating@.no_duplicates(),
    {
        if crate::folders::contains_id(&self.trim_timeline_clip_delete_animating, clip_id) {
            return false;
        }
        proof {
            if self.trim_timeline_clip_delete_animating@.no_duplicates() {
                crate::model::lemma_push_no_duplicates(self.trim_timeline_clip_delete_animating@, clip_id);
            }
        }
        self.trim_timeline_clip_delete_animating.push(clip_id);
        true
    }

    /// Starts deleting the clip selected on the timeline of `sound_id` (with
    /// its animation). Returns whether a deletion started.
    pub fn trim_timeline_delete_selected_clip(&mut self, sound_id: u128) -> (started: bool)
        ensures
            crate::model::id_sets_distinct(*old(self)) ==> crate::model::id_sets_distinct(*final(self)),
            match active_timeline_for(*old(self), sound_id) {
                Some(st) => match st.selected_clip_id {
                    Some(id) => if clip_present(st.rows@, id) {
                        started == !old(self).trim_timeline_clip_delete_animating@.contains(id) && (
                        started ==> final(self).trim_timeline_clip_delete_animating@ == old(
                            self,
                        ).trim_timeline_clip_delete_animating@.push(id))
                    } else {
                        !started
                    },
                    None => !started,
                },
                None => !started,
            },
            *final(self) == (SoundFxApp {
                trim_timeline_clip_delete_animating: final(self).trim_timeline_clip_delete_animating,
                ..*old(self)
            }),
            !started ==> *final(self) == *old(self),
            old(self).trim_timeline_clip_delete_animating@.no_duplicates()
                ==> final(self).trim_timeline_clip_delete_animating@.no_duplicates(),
    {
        match self.trim_timeline_selected_clip_snapshot(sound_id) {
            Some((_, _, clip)) => self.trim_timeline_begin_clip_delete_animation(clip.id),
            None => false,
        }
    }

    /// Anchors the timeline to `sound_id` (or the sound `anchor_sound_id`
    /// picks instead), creating a disabled timeline first if there is none,
    /// and normalizes its rows. Returns the anchor. A new timeline also stops
    /// scrubbing and clip animations; the caller clamps the playhead and
    /// resets the view when it created one.
    pub fn sync_trim_timeline_state_for(&mut self, sound_id: u128) -> (resolved: u128)
        ensures
            crate::model::id_sets_distinct(*old(self)) ==> crate::model::id_sets_distinct(*final(self)),
            resolved == anchor_sound_id(*old(self), sound_id),
            final(self).trim_timeline_state is Some,
            timeline_resynced(old(self).trim_timeline_state, final(self).trim_timeline_state->0, resolved),
            old(self).trim_timeline_state is None ==> !final(self).trim_timeline_scrub_resume_pending
                && final(self).trim_timeline_clip_delete_animating@.len() == 0,
            *final(self) == (SoundFxApp {
                trim_timeline_state: final(self).trim_timeline_state,
                trim_timeline_scrub_resume_pending: final(self).trim_timeline_scrub_resume_pending,
                trim_timeline_clip_delete_animating: final(self).trim_timeline_clip_delete_animating,
                ..*old(self)
            }),
            old(self).trim_timeline_state is Some ==> final(self).trim_timeline_scrub_resume_pending
                == old(self).trim_timeline_scrub_resume_pending
                && final(self).trim_timeline_clip_delete_animating == old(self).trim_timeline_clip_delete_animating,
    {
        let resolved = self.resolve_trim_timeline_anchor_sound_id(sound_id);
        let mut state = match self.trim_timeline_state.take() {
            Some(st) => st,
            None => {
                self.trim_timeline_clip_delete_animating = Vec::new();
                self.trim_timeline_scrub_resume_pending = false;
                Self::default_trim_timeline_state(resolved)
            },
        };
        state.sound_id = resolved;
        Self::normalize_trim_timeline_rows(&mut state.rows);
        self.trim_timeline_state = Some(state);
        resolved
    }

    /// Switches the timeline on or off, anchored to the selected sound (or
    /// the first one). Switching on clears the clip selection and opens the
    /// editor; switching off forgets the drop target. Every preview stops.
    /// Returns whether the timeline was switched on; the caller then resets
    /// the playhead and the view, and stops the audio output.
    #[verifier::rlimit(40)]
    pub fn toggle_timeline_mode(&mut self) -> (opened: bool)
        ensures
            crate::model::id_sets_distinct(*old(self)) ==> crate::model::id_sets_distinct(*final(self)),
            opened == !timeline_enabled(*old(self)),
            final(self).trim_timeline_state is Some,
            ({
                let st = final(self).trim_timeline_state->0;
                &&& st.sound_id == anchor_sound_id(*old(self), toggle_fallback(*old(self)))
                &&& st.enabled == opened
                &&& !st.timeline_is_playing
                &&& opened ==> st.selected_clip_id is None
                &&& match old(self).trim_timeline_state {
                    Some(o) => {
                        &&& rows_normalized(st.rows@, o.rows@)
                        &&& st.snap_enabled == o.snap_enabled
                        &&& st.selected_clip_ids == o.selected_clip_ids
                        &&& !opened ==> st.selected_clip_id == o.selected_clip_id
                    },
                    None => {
                        &&& st.rows@.len() == 3
                        &&& forall|i: int| 0 <= i < 3 ==> st.rows@[i].clips@.len() == 0 && !st.rows@[i].muted
                        &&& st.snap_enabled
                        &&& st.selected_clip_ids@.len() == 0
                    },
                }
            }),
            final(self).app_view == (if opened { AppView::Editor } else { old(self).app_view }),
            final(self).trim_timeline_drop_target_row == (if opened {
                old(self).trim_timeline_drop_target_row
            } else {
                None
            }),
            final(self).myinstants_preview_audio_url is None,
            final(self).pending_preview_sound is None,
            !final(self).trim_timeline_scrub_resume_pending,
            old(self).trim_timeline_state is None ==> final(self).trim_timeline_clip_delete_animating@.len() == 0,
            old(self).trim_timeline_state is Some ==> final(self).trim_timeline_clip_delete_animating
                == old(self).trim_timeline_clip_delete_animating,
            *final(self) == (SoundFxApp {
                trim_timeline_state: final(self).trim_timeline_state,
                app_view: final(self).app_view,
                trim_timeline_drop_target_row: final(self).trim_timeline_drop_target_row,
                myinstants_preview_audio_url: None,
                pending_preview_sound: None,
                trim_timeline_scrub_resume_pending: false,
                trim_timeline_clip_delete_animating: final(self).trim_timeline_clip_delete_animating,
                ..*old(self)
            }),
    {
        let fallback = match self.selected {
            Some(id) => id,
            None => if self.sounds.len() > 0 {
                self.sounds[0].id
            } else {
                0
            },
        };
        self.sync_trim_timeline_state_for(fallback);
        let mut opened = false;
        let mut state = self.trim_timeline_state.take().unwrap();
        let was_enabled = state.enabled;
        if !was_enabled {
            state.selected_clip_id = None;
            if state.rows.len() == 0 {
                state.rows = Self::default_trim_timeline_rows();
            }
            opened = true;
        }
        state.enabled = !was_enabled;
        self.trim_timeline_state = Some(state);
        if opened {
            self.app_view = AppView::Editor;
        } else {
            self.trim_timeline_drop_target_row = None;
        }
        self.stop_preview();
        opened
    }

    /// Fills the tag field of the editor from the selected sound when another
    /// sound got selected; empties it when none is selected.
    pub fn sync_editor_tags_input(&mut self)
        ensures
            match selected_index(*old(self)) {
                None => final(self).editor_tags_input@.len() == 0
                    && *final(self) == (SoundFxApp {
                    editor_tags_input: final(self).editor_tags_input,
                    editor_tags_input_sound_id: None,
                    ..*old(self)
                }),
                Some(i) => if old(self).editor_tags_input_sound_id != Some(old(self).sounds@[i].id) {
                    final(self).editor_tags_input@ == spec_join(
                        strs(old(self).sounds@[i].tags@),
                        tag_separator(),
                    ) && *final(self) == (SoundFxApp {
                        editor_tags_input: final(self).editor_tags_input,
                        editor_tags_input_sound_id: Some(old(self).sounds@[i].id),
                        ..*old(self)
                    })
                } else {
                    *final(self) == *old(self)
                },
            },
    {
        let index = match self.selected_sound_index() {
            Some(i) => i,
            None => {
                self.editor_tags_input = String::new();
                self.editor_tags_input_sound_id = None;
                return;
            },
        };
        proof {
            lemma_first_index(sound_views(self.sounds@), |s: SoundView| s.id == self.selected->0);
        }
        let id = self.sounds[index].id;
        if self.editor_tags_input_sound_id != Some(id) {
            self.editor_tags_input = Self::join_tags(&self.sounds[index].tags);
            self.editor_tags_input_sound_id = Some(id);
        }
    }

    /// Removes the selected sound from the library and returns its former
    /// position and the sound. The caller drops its trim history, stops its
    /// playback, removes its files and reports the result to
    /// `finish_delete_selected`.
    pub fn delete_selected(&mut self) -> (removed: Option<(usize, SoundEffect)>)
        ensures
            match selected_index(*old(self)) {
                None => removed is None && *final(self) == *old(self),
                Some(i) => removed == Some((i as usize, old(self).sounds@[i]))
                    && final(self).sounds@ == old(self).sounds@.remove(i)
                    && *final(self) == (SoundFxApp { sounds: final(self).sounds, ..*old(self) }),
            },
    {
        let index = match self.selected_sound_index() {
            Some(i) => i,
            None => {
                return None;
            },
        };
        proof {
            lemma_first_index(sound_views(self.sounds@), |s: SoundView| s.id == self.selected->0);
        }
        let sound = self.sounds.remove(index);
        Some((index, sound))
    }

    /// Completes `delete_selected` once the files are removed: on success the
    /// sound that took the removed one's place (or the one before it) gets
    /// selected and the library is to be saved; on failure the error is shown.
    pub fn finish_delete_selected(&mut self, index: usize, result: Result<(), String>)
        ensures
            match result {
                Ok(()) => *final(self) == (SoundFxApp {
                    selected: if index < old(self).sounds@.len() {
                        Some(old(self).sounds@[index as int].id)
                    } else if (if index == 0 { 0 } else { index - 1 }) < old(self).sounds@.len() {
                        Some(old(self).sounds@[if index == 0 { 0 } else { index - 1 }].id)
                    } else {
                        None
                    },
                    pending_save: true,
                    ..*old(self)
                }),
                Err(e) => *final(self) == (SoundFxApp { status: Some(e), ..*old(self) }),
            },
    {
        match result {
            Ok(()) => {
                let before = if index == 0 { 0 } else { index - 1 };
                self.selected = if index < self.sounds.len() {
                    Some(self.sounds[index].id)
                } else if before < self.sounds.len() {
                    Some(self.sounds[before].id)
                } else {
                    None
                };
                self.pending_save = true;
            },
            Err(e) => {
                self.status = Some(e);
            },
        }
    }

    /// Whether the sound whose export was postponed may be exported now: it
    /// is no longer selected and the library is saved (`saved`: the outcome
    /// of saving when a save was pending). Returns the sound to export.
    pub fn maybe_start_pending_processed_export(&mut self, saved: bool) -> (export: Option<u128>)
        ensures
            match old(self).pending_processed_export_sound {
                Some(id) => if old(self).selected == Some(id) || (old(self).pending_save && !saved) {
                    export is None && *final(self) == *old(self)
                } else {
                    export == Some(id) && *final(self) == (SoundFxApp {
                        pending_processed_export_sound: None,
                        ..*old(self)
                    })
                },
                None => export is None && *final(self) == *old(self),
            },
    {
        let sound_id = match self.pending_processed_export_sound {
            Some(id) => id,
            None => {
                return None;
            },
        };
        if self.selected == Some(sound_id) {
            return None;
        }
        if self.pending_save && !saved {
            return None;
        }
        self.pending_processed_export_sound = None;
        Some(sound_id)
    }

    /// The sound the timeline is anchored to, see `anchor_sound_id`.
    pub fn resolve_trim_timeline_anchor_sound_id(&self, fallback_sound_id: u128) -> (r: u128)
        ensures
            r == anchor_sound_id(*self, fallback_sound_id),
    {
        if sound_exists_exec(&self.sounds, fallback_sound_id) {
            return fallback_sound_id;
        }
        match &self.trim_timeline_state {
            Some(state) => {
                if sound_exists_exec(&self.sounds, state.sound_id) {
                    return state.sound_id;
                }
                match self.first_existing_clip_source(&state.rows) {
                    Some(id) => {
                        return id;
                    },
                    None => {},
                }
            },
            None => {},
        }
        match self.selected {
            Some(id) => {
                if sound_exists_exec(&self.sounds, id) {
                    return id;
                }
            },
            None => {},
        }
        if self.sounds.len() > 0 {
            self.sounds[0].id
        } else {
            fallback_sound_id
        }
    }

    /// The source of the first clip whose source sound exists.
    fn first_existing_clip_source(&self, rows: &Vec<TrimTimelineRow>) -> (r: Option<u128>)
        ensures
            match first_index(flat_clips(rows@), |c: TrimTimelineClip| sound_exists(*self, c.source_sound_id)) {
                Some(i) => r == Some(flat_clips(rows@)[i].source_sound_id),
                None => r is None,
            },
    {
        let ghost p = |c: TrimTimelineClip| sound_exists(*self, c.source_sound_id);
        let mut r: usize = 0;
        while r < rows.len()
            invariant
                r <= rows.len(),
                p == (|c: TrimTimelineClip| sound_exists(*self, c.source_sound_id)),
                first_index(flat_clips(rows@.take(r as int)), p) is None,
            decreases rows.len() - r,
        {
            let ghost prefix = flat_clips(rows@.take(r as int));
            assert(rows@.take(r + 1).drop_last() =~= rows@.take(r as int));
            assert(flat_clips(rows@.take(r + 1)) == prefix + rows@[r as int].clips@);
            let mut c: usize = 0;
            while c < rows[r].clips.len()
                invariant
                    r < rows.len(),
                    c <= rows@[r as int].clips@.len(),
                    p == (|c: TrimTimelineClip| sound_exists(*self, c.source_sound_id)),
                    prefix == flat_clips(rows@.take(r as int)),
                    flat_clips(rows@.take(r + 1)) == prefix + rows@[r as int].clips@,
                    first_index(prefix + rows@[r as int].clips@.take(c as int), p) is None,
                decreases rows@[r as int].clips@.len() - c,
            {
                let ghost cur = prefix + rows@[r as int].clips@.take(c as int);
                assert((prefix + rows@[r as int].clips@.take(c + 1)).drop_last() =~= cur);
                if sound_exists_exec(&self.sounds, rows[r].clips[c].source_sound_id) {
                    proof {
                        let whole = flat_clips(rows@);
                        let nxt = prefix + rows@[r as int].clips@.take(c + 1);
                        assert(first_index(nxt, p) == Some(nxt.len() - 1));
                        lemma_flat_prefix(rows@, r + 1);
                        let fr = flat_clips(rows@.take(r + 1));
                        assert(fr == prefix + rows@[r as int].clips@);
                        assert(nxt =~= fr.subrange(0, nxt.len() as int));
                        assert(whole.subrange(0, nxt.len() as int) =~= fr.subrange(0, nxt.len() as int));
                        lemma_first_index_prefix(nxt, whole, p, r, c);
                    }
                    return Some(rows[r].clips[c].source_sound_id);
                }
                c = c + 1;
            }
            assert(rows@[r as int].clips@.take(c as int) =~= rows@[r as int].clips@);
            r = r + 1;
        }
        assert(rows@.take(rows.len() as int) =~= rows@);
        None
    }
}

/// The clips of the first `k` rows come first among all clips.
proof fn lemma_flat_prefix(rows: Seq<TrimTimelineRow>, k: int)
    requires
        0 <= k <= rows.len(),
    ensures
        flat_clips(rows.take(k)).len() <= flat_clips(rows).len(),
        flat_clips(rows).subrange(0, flat_clips(rows.take(k)).len() as int) == flat_clips(
            rows.take(k),
        ),
    decreases rows.len(),
{
    if k == rows.len() {
        assert(rows.take(k) =~= rows);
        assert(flat_clips(rows).subrange(0, flat_clips(rows).len() as int) =~= flat_clips(rows));
    } else {
        let d = rows.drop_last();
        assert(rows.take(k) =~= d.take(k));
        lemma_flat_prefix(d, k);
        let a = flat_clips(d);
        let b = flat_clips(rows.take(k));
        assert(flat_clips(rows) == a + rows.last().clips@);
        assert((a + rows.last().clips@).subrange(0, b.len() as int) =~= a.subrange(0, b.len() as int));
    }
}

/// `st` is the timeline state after `sync_trim_timeline_state_for`: the
/// former state (or a new disabled one with snapping on) anchored to
/// `resolved`, with normalized rows.
pub open spec fn timeline_resynced(old: Option<TrimTimelineState>, st: TrimTimelineState, resolved: u128) -> bool {
    &&& st.sound_id == resolved
    &&& match old {
        Some(o) => {
            &&& rows_normalized(st.rows@, o.rows@)
            &&& st.enabled == o.enabled
            &&& st.snap_enabled == o.snap_enabled
            &&& st.selected_clip_id == o.selected_clip_id
            &&& st.selected_clip_ids == o.selected_clip_ids
            &&& st.timeline_is_playing == o.timeline_is_playing
        },
        None => {
            &&& st.rows@.len() == 3
            &&& forall|i: int| 0 <= i < 3 ==> st.rows@[i].clips@.len() == 0 && !st.rows@[i].muted
            &&& !st.enabled
            &&& st.snap_enabled
            &&& st.selected_clip_id is None
            &&& st.selected_clip_ids@.len() == 0
            &&& !st.timeline_is_playing
        },
    }
}

/// The sound `toggle_timeline_mode` anchors to when it can: the selected
/// sound, else the first sound, else the nil id.
pub open spec fn toggle_fallback(app: SoundFxApp) -> u128 {
    match app.selected {
        Some(id) => id,
        None => if app.sounds@.len() > 0 {
            app.sounds@[0].id
        } else {
            0
        },
    }
}

/// The timeline exists and is switched on.
pub open spec fn timeline_enabled(app: SoundFxApp) -> bool {
    app.trim_timeline_state is Some && app.trim_timeline_state->0.enabled
}

/// A first match in a prefix is the first match of the whole sequence.
proof fn lemma_first_index_prefix(
    nxt: Seq<TrimTimelineClip>,
    whole: Seq<TrimTimelineClip>,
    p: spec_fn(TrimTimelineClip) -> bool,
    r: usize,
    c: usize,
)
    requires
        first_index(nxt, p) == Some(nxt.len() - 1),
        nxt.len() <= whole.len(),
        whole.subrange(0, nxt.len() as int) == nxt,
    ensures
        first_index(whole, p) == Some(nxt.len() - 1),
        whole[nxt.len() - 1] == nxt[nxt.len() - 1],
{
    lemma_first_index(nxt, p);
    lemma_first_index(whole, p);
    assert forall|j: int| 0 <= j < nxt.len() implies whole[j] == nxt[j] by {
        assert(whole.subrange(0, nxt.len() as int)[j] == whole[j]);
    }
}


/// The distance between two row positions.
pub open spec fn row_distance(a: int, b: int) -> int {
    if a < b {
        b - a
    } else {
        a - b
    }
}

/// Row `r` is free, and no free row is nearer to `c`, nor as near and above it.
pub open spec fn nearest_free_row(occupied: Seq<bool>, c: int, r: int) -> bool {
    &&& 0 <= r < occupied.len()
    &&& !occupied[r]
    &&& forall|j: int|
        0 <= j < occupied.len() && !occupied[j] ==> row_distance(r, c) < row_distance(j, c) || (
        row_distance(r, c) == row_distance(j, c) && r <= j)
}

impl SoundFxApp {
    /// The row a pasted clip goes to: the preferred row (the last one when
    /// the index is past the end) when it is free at the playhead, else the
    /// free row nearest to it (the upper one of two equally near), else a new
    /// empty row added at the bottom. `occupied[i]` says whether row `i` has a
    /// clip at the playhead.
    pub fn trim_timeline_pick_paste_row(
        state: &mut TrimTimelineState,
        preferred_row_index: usize,
        occupied: &Vec<bool>,
    ) -> (row: usize)
        requires
            old(state).rows@.len() > 0,
            occupied@.len() == old(state).rows@.len(),
        ensures
            ({
                let n = old(state).rows@.len();
                let c = if preferred_row_index < n {
                    preferred_row_index as int
                } else {
                    n - 1
                };
                if !occupied@[c] {
                    row == c && *final(state) == *old(state)
                } else if exists|j: int| 0 <= j < n && !occupied@[j] {
                    nearest_free_row(occupied@, c, row as int) && *final(state) == *old(state)
                } else {
                    &&& row == n
                    &&& final(state).rows@.len() == n + 1
                    &&& final(state).rows@.take(n as int) == old(state).rows@
                    &&& final(state).rows@[n as int].clips@.len() == 0
                    &&& !final(state).rows@[n as int].muted
                    &&& *final(state) == (TrimTimelineState { rows: final(state).rows, ..*old(state) })
                }
            }),
    {
        let n = state.rows.len();
        let c = if preferred_row_index < n {
            preferred_row_index
        } else {
            n - 1
        };
        if !occupied[c] {
            return c;
        }
        let mut best: Option<usize> = None;
        let mut best_distance: usize = usize::MAX;
        let mut i: usize = 0;
        while i < n
            invariant
                i <= n,
                n == occupied@.len(),
                c < n,
                match best {
                    Some(b) => {
                        &&& b < i
                        &&& !occupied@[b as int]
                        &&& best_distance == row_distance(b as int, c as int)
                        &&& forall|j: int|
                            0 <= j < i && !occupied@[j] ==> row_distance(b as int, c as int) < row_distance(j, c as int) || (
                            row_distance(b as int, c as int) == row_distance(j, c as int) && b <= j)
                    },
                    None => forall|j: int| 0 <= j < i ==> occupied@[j],
                },
            decreases n - i,
        {
            if !occupied[i] {
                let d = if i < c {
                    c - i
                } else {
                    i - c
                };
                if best.is_none() || d < best_distance {
                    best_distance = d;
                    best = Some(i);
                }
            }
            i = i + 1;
        }
        match best {
            Some(b) => b,
            None => {
                let ghost before = state.rows@;
                state.rows.push(TrimTimelineRow::new());
                assert(state.rows@.take(n as int) =~= before);
                n
            },
        }
    }
}


/// The position of the latest snapshot of the sound in a history stack.
pub open spec fn last_snapshot_of<D>(stack: Seq<TrimSnapshot<D>>, sound_id: u128) -> Option<int>
    decreases stack.len(),
{
    if stack.len() == 0 {
        None
    } else if stack.last().sound_id == sound_id {
        Some(stack.len() - 1)
    } else {
        last_snapshot_of(stack.drop_last(), sound_id)
    }
}

/// The latest snapshot of the sound in a history stack.
pub open spec fn latest_snapshot<D>(stack: Seq<TrimSnapshot<D>>, sound_id: u128) -> Option<TrimSnapshot<D>> {
    match last_snapshot_of(stack, sound_id) {
        Some(i) => Some(stack[i]),
        None => None,
    }
}

/// The history stack without the latest snapshot of the sound.
pub open spec fn snapshot_taken<D>(stack: Seq<TrimSnapshot<D>>, sound_id: u128) -> Seq<TrimSnapshot<D>> {
    match last_snapshot_of(stack, sound_id) {
        Some(i) => stack.remove(i),
        None => stack,
    }
}

/// `last_snapshot_of` finds the latest snapshot of the sound, if any.
pub proof fn lemma_last_snapshot_of<D>(stack: Seq<TrimSnapshot<D>>, sound_id: u128)
    ensures
        match last_snapshot_of(stack, sound_id) {
            Some(i) => 0 <= i < stack.len() && stack[i].sound_id == sound_id && forall|j: int|
                i < j < stack.len() ==> stack[j].sound_id != sound_id,
            None => forall|j: int| 0 <= j < stack.len() ==> stack[j].sound_id != sound_id,
        },
    decreases stack.len(),
{
    if stack.len() > 0 && stack.last().sound_id != sound_id {
        let d = stack.drop_last();
        lemma_last_snapshot_of(d, sound_id);
        assert forall|j: int| 0 <= j < d.len() implies d[j] == stack[j] by {}
        match last_snapshot_of(d, sound_id) {
            Some(i) => {
                assert(stack[i] == d[i]);
                assert forall|j: int| i < j < stack.len() implies stack[j].sound_id != sound_id by {
                    if j < d.len() {
                        assert(stack[j] == d[j]);
                    }
                }
            },
            None => {
                assert forall|j: int| 0 <= j < stack.len() implies stack[j].sound_id != sound_id by {
                    if j < d.len() {
                        assert(stack[j] == d[j]);
                    }
                }
            },
        }
    }
}

/// Removes and returns the latest snapshot of the sound from a history stack.
pub fn take_last_trim_snapshot<D>(stack: &mut Vec<TrimSnapshot<D>>, sound_id: u128) -> (r: Option<TrimSnapshot<D>>)
    ensures
        r == latest_snapshot(old(stack)@, sound_id),
        final(stack)@ == snapshot_taken(old(stack)@, sound_id),
{
    let ghost s = stack@;
    let mut i: usize = stack.len();
    assert(s.take(s.len() as int) =~= s);
    while i > 0
        invariant
            i <= stack.len(),
            stack@ == s,
            s == old(stack)@,
            last_snapshot_of(s, sound_id) == last_snapshot_of(s.take(i as int), sound_id),
        decreases i,
    {
        assert(s.take(i as int).drop_last() =~= s.take(i - 1));
        assert(s.take(i as int).last() == s[i - 1]);
        if stack[i - 1].sound_id == sound_id {
            assert(s.take(i as int).len() == i);
            assert(last_snapshot_of(s.take(i as int), sound_id) == Some(i - 1));
            let taken = stack.remove(i - 1);
            return Some(taken);
        }
        i = i - 1;
    }
    assert(s.take(0) =~= Seq::<TrimSnapshot<D>>::empty());
    None
}

impl SoundFxApp {
    /// Undo (`undo_pressed`) or redo (`redo_pressed`, which wins) of the trim
    /// settings of the selected sound, unless `blocked` (another panel or a
    /// text field has the keyboard): takes the latest snapshot of the sound
    /// from the undo or the redo stack. Returns whether it is a redo, and the
    /// snapshot to apply; once applied, the settings it replaced go onto the
    /// other stack (`push_trim_history_entry`).
    pub fn handle_trim_undo_redo<D>(
        &self,
        undo: &mut Vec<TrimSnapshot<D>>,
        redo: &mut Vec<TrimSnapshot<D>>,
        blocked: bool,
        redo_pressed: bool,
        undo_pressed: bool,
    ) -> (r: Option<(bool, TrimSnapshot<D>)>)
        ensures
            ({
                let id = match selected_index(*self) {
                    Some(i) => self.sounds@[i].id,
                    None => 0,
                };
                if blocked || selected_index(*self) is None || (!redo_pressed && !undo_pressed) {
                    r is None && final(undo)@ == old(undo)@ && final(redo)@ == old(redo)@
                } else if redo_pressed {
                    &&& final(undo)@ == old(undo)@
                    &&& final(redo)@ == snapshot_taken(old(redo)@, id)
                    &&& r == match latest_snapshot(old(redo)@, id) {
                        Some(snap) => Some((true, snap)),
                        None => None,
                    }
                } else {
                    &&& final(redo)@ == old(redo)@
                    &&& final(undo)@ == snapshot_taken(old(undo)@, id)
                    &&& r == match latest_snapshot(old(undo)@, id) {
                        Some(snap) => Some((false, snap)),
                        None => None,
                    }
                }
            }),
    {
        if blocked {
            return None;
        }
        let index = match self.selected_sound_index() {
            Some(i) => i,
            None => {
                return None;
            },
        };
        proof {
            lemma_first_index(sound_views(self.sounds@), |s: SoundView| s.id == self.selected->0);
        }
        let sound_id = self.sounds[index].id;
        if redo_pressed {
            match take_last_trim_snapshot(redo, sound_id) {
                Some(snap) => Some((true, snap)),
                None => None,
            }
        } else if undo_pressed {
            match take_last_trim_snapshot(undo, sound_id) {
                Some(snap) => Some((false, snap)),
                None => None,
            }
        } else {
            None
        }
    }
}


impl SoundFxApp {
    /// Completes an undo (or a redo, `is_redo`) once the application has
    /// applied the snapshot `handle_trim_undo_redo` handed out (`applied`:
    /// it differed from the sound's settings): the settings it replaced,
    /// `replaced`, go onto the redo stack (the undo stack after a redo).
    pub fn finish_trim_undo_redo<D>(
        undo: &mut Vec<TrimSnapshot<D>>,
        redo: &mut Vec<TrimSnapshot<D>>,
        is_redo: bool,
        replaced: TrimSnapshot<D>,
        applied: bool,
    )
        ensures
            !applied ==> final(undo)@ == old(undo)@ && final(redo)@ == old(redo)@,
            applied && is_redo ==> final(undo)@ == history_pushed(old(undo)@, replaced) && final(redo)@
                == old(redo)@,
            applied && !is_redo ==> final(redo)@ == history_pushed(old(redo)@, replaced) && final(undo)@
                == old(undo)@,
    {
        if applied {
            if is_redo {
                push_history(undo, replaced);
            } else {
                push_history(redo, replaced);
            }
        }
    }
}


/// The mathematical value of a timeline row: its clips and whether it is muted.
pub open spec fn rows_view(rows: Seq<TrimTimelineRow>) -> Seq<(Seq<TrimTimelineClip>, bool)> {
    rows.map_values(|r: TrimTimelineRow| (r.clips@, r.muted))
}

/// The mathematical value of a timeline state.
pub open spec fn timeline_view(st: TrimTimelineState) -> (
    u128,
    bool,
    bool,
    Option<u128>,
    Seq<u128>,
    Seq<(Seq<TrimTimelineClip>, bool)>,
    bool,
) {
    (
        st.sound_id,
        st.enabled,
        st.snap_enabled,
        st.selected_clip_id,
        st.selected_clip_ids@,
        rows_view(st.rows@),
        st.timeline_is_playing,
    )
}

pub open spec fn timeline_views(s: Seq<TrimTimelineState>) -> Seq<
    (u128, bool, bool, Option<u128>, Seq<u128>, Seq<(Seq<TrimTimelineClip>, bool)>, bool),
> {
    s.map_values(|st: TrimTimelineState| timeline_view(st))
}

/// `rows_normalized` on row values.
pub open spec fn rows_view_normalized(
    rows: Seq<(Seq<TrimTimelineClip>, bool)>,
    old: Seq<(Seq<TrimTimelineClip>, bool)>,
) -> bool {
    &&& rows.len() >= 3
    &&& rows.last().0.len() == 0
    &&& rows.len() > 3 ==> rows[rows.len() - 2].0.len() > 0
    &&& forall|i: int| 0 <= i < rows.len() && i < old.len() ==> rows[i] == old[i]
    &&& forall|i: int| old.len() <= i < rows.len() ==> rows[i].0.len() == 0 && !rows[i].1
    &&& forall|i: int| rows.len() <= i < old.len() ==> old[i].0.len() == 0
}

proof fn lemma_rows_normalized_view(rows: Seq<TrimTimelineRow>, old: Seq<TrimTimelineRow>)
    requires
        rows_normalized(rows, old),
    ensures
        rows_view_normalized(rows_view(rows), rows_view(old)),
{
}

/// The (row, position) of the first clip with id `id`, rows in order.
pub open spec fn find_clip_v(rv: Seq<(Seq<TrimTimelineClip>, bool)>, id: u128) -> Option<(int, int)>
    decreases rv.len(),
{
    if rv.len() == 0 {
        None
    } else {
        match find_clip_v(rv.drop_last(), id) {
            Some(p) => Some(p),
            None => match first_index(rv.last().0, |c: TrimTimelineClip| c.id == id) {
                Some(c) => Some((rv.len() - 1, c)),
                None => None,
            },
        }
    }
}

/// The rows without the first clip with id `id`, and whether there was one.
pub open spec fn clip_removed_v(rv: Seq<(Seq<TrimTimelineClip>, bool)>, id: u128) -> (
    Seq<(Seq<TrimTimelineClip>, bool)>,
    bool,
) {
    match find_clip_v(rv, id) {
        Some((r, c)) => (rv.update(r, (rv[r].0.remove(c), rv[r].1)), true),
        None => (rv, false),
    }
}

/// The rows once the clips `ids` are removed in turn, and whether any was there.
pub open spec fn clips_removed_v(rv: Seq<(Seq<TrimTimelineClip>, bool)>, ids: Seq<u128>) -> (
    Seq<(Seq<TrimTimelineClip>, bool)>,
    bool,
)
    decreases ids.len(),
{
    if ids.len() == 0 {
        (rv, false)
    } else {
        let r = clips_removed_v(rv, ids.drop_last());
        let l = clip_removed_v(r.0, ids.last());
        (l.0, r.1 || l.1)
    }
}

proof fn lemma_find_clip_prefix(rv: Seq<(Seq<TrimTimelineClip>, bool)>, id: u128, k: int)
    requires
        0 <= k <= rv.len(),
        find_clip_v(rv.take(k), id) is Some,
    ensures
        find_clip_v(rv, id) == find_clip_v(rv.take(k), id),
        0 <= find_clip_v(rv, id).unwrap().0 < k,
    decreases rv.len(),
{
    if k < rv.len() {
        assert(rv.drop_last().take(k) =~= rv.take(k));
        lemma_find_clip_prefix(rv.drop_last(), id, k);
    } else {
        assert(rv.take(k) =~= rv);
        lemma_find_clip_found(rv, id);
    }
}

proof fn lemma_find_clip_found(rv: Seq<(Seq<TrimTimelineClip>, bool)>, id: u128)
    ensures
        match find_clip_v(rv, id) {
            Some((r, c)) => 0 <= r < rv.len() && 0 <= c < rv[r].0.len() && rv[r].0[c].id == id,
            None => true,
        },
    decreases rv.len(),
{
    if rv.len() > 0 {
        lemma_find_clip_found(rv.drop_last(), id);
        lemma_first_index(rv.last().0, |c: TrimTimelineClip| c.id == id);
    }
}

/// Removes the first clip with id `id`; returns whether there was one.
fn remove_first_clip(rows: &mut Vec<TrimTimelineRow>, id: u128) -> (removed: bool)
    ensures
        rows_view(final(rows)@) == clip_removed_v(rows_view(old(rows)@), id).0,
        removed == clip_removed_v(rows_view(old(rows)@), id).1,
{
    let ghost rv = rows_view(rows@);
    let mut r: usize = 0;
    while r < rows.len()
        invariant
            r <= rows.len(),
            rv == rows_view(rows@),
            rows@ == old(rows)@,
            find_clip_v(rv.take(r as int), id) is None,
        decreases rows.len() - r,
    {
        proof {
            assert(rv.take(r + 1).drop_last() =~= rv.take(r as int));
            assert(rv.take(r + 1).last() == rv[r as int]);
            lemma_first_index(rv[r as int].0, |c: TrimTimelineClip| c.id == id);
        }
        let mut c: usize = 0;
        let mut found = false;
        let mut at: usize = 0;
        while c < rows[r].clips.len()
            invariant
                r < rows.len(),
                rv == rows_view(rows@),
                rows@ == old(rows)@,
                c <= rows@[r as int].clips@.len(),
                found ==> at < c && rows@[r as int].clips@[at as int].id == id,
                forall|x: int| 0 <= x < c && !(found && x >= at) ==> rows@[r as int].clips@[x].id != id,
            decreases rows@[r as int].clips@.len() - c,
        {
            if !found && rows[r].clips[c].id == id {
                found = true;
                at = c;
            }
            c = c + 1;
        }
        assert(rv[r as int].0 == rows@[r as int].clips@);
        if found {
            proof {
                assert(first_index(rv[r as int].0, |c: TrimTimelineClip| c.id == id) == Some(at as int));
                assert(find_clip_v(rv.take(r + 1), id) == Some((r as int, at as int)));
                lemma_find_clip_prefix(rv, id, r + 1);
            }
            let mut row = rows.remove(r);
            row.clips.remove(at);
            rows.insert(r, row);
            proof {
                assert(rows_view(rows@) =~= rv.update(r as int, (rv[r as int].0.remove(at as int), rv[r as int].1)));
            }
            return true;
        }
        proof {
            assert(first_index(rv[r as int].0, |c: TrimTimelineClip| c.id == id) is None);
        }
        r = r + 1;
    }
    proof {
        assert(rv.take(rv.len() as int) =~= rv);
    }
    false
}

/// A copy of a timeline state.
pub fn clone_trim_timeline_state(st: &TrimTimelineState) -> (r: TrimTimelineState)
    ensures
        timeline_view(r) == timeline_view(*st),
{
    let mut rows: Vec<TrimTimelineRow> = Vec::new();
    let mut i: usize = 0;
    while i < st.rows.len()
        invariant
            i <= st.rows.len(),
            rows_view(rows@) == rows_view(st.rows@).take(i as int),
        decreases st.rows.len() - i,
    {
        let mut clips: Vec<TrimTimelineClip> = Vec::new();
        let mut j: usize = 0;
        while j < st.rows[i].clips.len()
            invariant
                i < st.rows.len(),
                j <= st.rows@[i as int].clips@.len(),
                clips@ == st.rows@[i as int].clips@.take(j as int),
            decreases st.rows@[i as int].clips@.len() - j,
        {
            clips.push(st.rows[i].clips[j].clone());
            j = j + 1;
            assert(clips@ =~= st.rows@[i as int].clips@.take(j as int));
        }
        assert(clips@ =~= st.rows@[i as int].clips@);
        let ghost before = rows_view(rows@);
        let ghost cv = clips@;
        rows.push(TrimTimelineRow { clips, muted: st.rows[i].muted });
        proof {
            assert(rows_view(rows@) =~= before.push((cv, st.rows@[i as int].muted)));
            assert(rows_view(st.rows@).take(i + 1) =~= rows_view(st.rows@).take(i as int).push(
                rows_view(st.rows@)[i as int],
            ));
        }
        i = i + 1;
    }
    assert(rows_view(st.rows@).take(st.rows@.len() as int) =~= rows_view(st.rows@));
    let mut ids: Vec<u128> = Vec::new();
    let mut k: usize = 0;
    while k < st.selected_clip_ids.len()
        invariant
            k <= st.selected_clip_ids.len(),
            ids@ == st.selected_clip_ids@.take(k as int),
        decreases st.selected_clip_ids.len() - k,
    {
        ids.push(st.selected_clip_ids[k]);
        k = k + 1;
        assert(ids@ =~= st.selected_clip_ids@.take(k as int));
    }
    assert(ids@ =~= st.selected_clip_ids@);
    TrimTimelineState {
        sound_id: st.sound_id,
        enabled: st.enabled,
        snap_enabled: st.snap_enabled,
        selected_clip_id: st.selected_clip_id,
        selected_clip_ids: ids,
        rows,
        timeline_is_playing: st.timeline_is_playing,
    }
}

/// Whether an id is listed in `l`.
pub open spec fn listed_in(l: Seq<u128>) -> spec_fn(u128) -> bool {
    |id: u128| l.contains(id)
}

/// Whether an id is missing from `l`.
pub open spec fn not_listed_in(l: Seq<u128>) -> spec_fn(u128) -> bool {
    |id: u128| !l.contains(id)
}

/// The selected clip once the clips `removed` are gone.
pub open spec fn selection_after(sel: Option<u128>, removed: Seq<u128>) -> Option<u128> {
    match sel {
        Some(c) => if removed.contains(c) {
            None
        } else {
            sel
        },
        None => None,
    }
}

/// Splits `anim` into the ids that `finished` does not list and those it
/// does, each in order.
fn split_finished(anim: &Vec<u128>, finished: &Vec<u128>) -> (r: (Vec<u128>, Vec<u128>))
    ensures
        r.0@ == keep(anim@, not_listed_in(finished@)),
        r.1@ == keep(anim@, listed_in(finished@)),
{
    let mut rest: Vec<u128> = Vec::new();
    let mut fin: Vec<u128> = Vec::new();
    let mut i: usize = 0;
    while i < anim.len()
        invariant
            i <= anim.len(),
            rest@ == keep(anim@.take(i as int), not_listed_in(finished@)),
            fin@ == keep(anim@.take(i as int), listed_in(finished@)),
        decreases anim.len() - i,
    {
        let id = anim[i];
        proof {
            assert(anim@.take(i + 1).drop_last() =~= anim@.take(i as int));
            assert(anim@.take(i + 1).last() == id);
        }
        if crate::folders::contains_id(finished, id) {
            fin.push(id);
        } else {
            rest.push(id);
        }
        i = i + 1;
    }
    assert(anim@.take(anim@.len() as int) =~= anim@);
    (rest, fin)
}

/// Whether two clip lists are equal.
fn clips_equal(a: &Vec<TrimTimelineClip>, b: &Vec<TrimTimelineClip>) -> (r: bool)
    ensures
        r == (a@ == b@),
{
    if a.len() != b.len() {
        return false;
    }
    let mut i: usize = 0;
    while i < a.len()
        invariant
            a@.len() == b@.len(),
            i <= a.len(),
            forall|j: int| 0 <= j < i ==> a@[j] == b@[j],
        decreases a.len() - i,
    {
        if a[i].id != b[i].id || a[i].source_sound_id != b[i].source_sound_id {
            return false;
        }
        i = i + 1;
    }
    assert(a@ =~= b@);
    true
}

/// Whether two row lists hold the same clips and mute flags.
fn rows_equal(a: &Vec<TrimTimelineRow>, b: &Vec<TrimTimelineRow>) -> (r: bool)
    ensures
        r == (rows_view(a@) == rows_view(b@)),
{
    if a.len() != b.len() {
        assert(rows_view(a@).len() != rows_view(b@).len());
        return false;
    }
    let mut i: usize = 0;
    while i < a.len()
        invariant
            a@.len() == b@.len(),
            i <= a.len(),
            forall|j: int| 0 <= j < i ==> rows_view(a@)[j] == rows_view(b@)[j],
        decreases a.len() - i,
    {
        if a[i].muted != b[i].muted || !clips_equal(&a[i].clips, &b[i].clips) {
            assert(rows_view(a@)[i as int] != rows_view(b@)[i as int]);
            return false;
        }
        i = i + 1;
    }
    assert(rows_view(a@) =~= rows_view(b@));
    true
}

/// Whether the timeline is there and equals `before`.
pub open spec fn timeline_unchanged(state: Option<TrimTimelineState>, before: TrimTimelineState) -> bool {
    match state {
        Some(st) => timeline_view(st) == timeline_view(before),
        None => false,
    }
}

/// Whether two id lists are equal.
fn ids_equal(a: &Vec<u128>, b: &Vec<u128>) -> (r: bool)
    ensures
        r == (a@ == b@),
{
    if a.len() != b.len() {
        return false;
    }
    let mut i: usize = 0;
    while i < a.len()
        invariant
            a@.len() == b@.len(),
            i <= a.len(),
            forall|j: int| 0 <= j < i ==> a@[j] == b@[j],
        decreases a.len() - i,
    {
        if a[i] != b[i] {
            return false;
        }
        i = i + 1;
    }
    assert(a@ =~= b@);
    true
}

/// Whether two timeline states are equal.
fn timeline_states_equal(a: &TrimTimelineState, b: &TrimTimelineState) -> (r: bool)
    ensures
        r == (timeline_view(*a) == timeline_view(*b)),
{
    let same_selection = match (a.selected_clip_id, b.selected_clip_id) {
        (Some(x), Some(y)) => x == y,
        (None, None) => true,
        _ => false,
    };
    a.sound_id == b.sound_id && a.enabled == b.enabled && a.snap_enabled == b.snap_enabled && same_selection
        && a.timeline_is_playing == b.timeline_is_playing && ids_equal(&a.selected_clip_ids, &b.selected_clip_ids)
        && rows_equal(&a.rows, &b.rows)
}

proof fn lemma_clips_removed_none(rv: Seq<(Seq<TrimTimelineClip>, bool)>, ids: Seq<u128>)
    ensures
        !clips_removed_v(rv, ids).1 ==> clips_removed_v(rv, ids).0 == rv,
    decreases ids.len(),
{
    if ids.len() > 0 {
        lemma_clips_removed_none(rv, ids.drop_last());
    }
}

proof fn lemma_history_pushed_views(stack: Seq<TrimTimelineState>, entry: TrimTimelineState)
    ensures
        timeline_views(history_pushed(stack, entry)) == history_pushed(
            timeline_views(stack),
            timeline_view(entry),
        ),
{
    let p = stack.push(entry);
    assert(timeline_views(p) =~= timeline_views(stack).push(timeline_view(entry)));
    if stack.len() + 1 > TRIM_HISTORY_LIMIT {
        assert(timeline_views(p.subrange(1, (stack.len() + 1) as int)) =~= timeline_views(p).subrange(
            1,
            (stack.len() + 1) as int,
        ));
    }
}

impl SoundFxApp {
    /// Ends the delete animations of the clips `finished` lists (the caller
    /// tells which have run their time): they leave the animating set, and
    /// each one still on the timeline is removed from it, first row first;
    /// a removed clip that was selected is deselected. When a clip was
    /// removed the rows are normalized. If the timeline changed, its state
    /// from before goes onto `undo` and `redo` is cleared. Returns whether a
    /// clip was removed. Without a timeline nothing happens.
    #[verifier::rlimit(40)]
    pub fn trim_timeline_finish_clip_deletions(
        &mut self,
        finished: &Vec<u128>,
        undo: &mut Vec<TrimTimelineState>,
        redo: &mut Vec<TrimTimelineState>,
    ) -> (removed: bool)
        ensures
            crate::model::id_sets_distinct(*old(self)) ==> crate::model::id_sets_distinct(*final(self)),
            match old(self).trim_timeline_state {
                None => {
                    &&& *final(self) == *old(self)
                    &&& final(undo)@ == old(undo)@
                    &&& final(redo)@ == old(redo)@
                    &&& !removed
                },
                Some(st) => {
                    let fin = keep(old(self).trim_timeline_clip_delete_animating@, listed_in(finished@));
                    let cr = clips_removed_v(rows_view(st.rows@), fin);
                    let n = final(self).trim_timeline_state->0;
                    &&& final(self).trim_timeline_clip_delete_animating@ == keep(
                        old(self).trim_timeline_clip_delete_animating@,
                        not_listed_in(finished@),
                    )
                    &&& final(self).trim_timeline_state is Some
                    &&& *final(self) == (SoundFxApp {
                        trim_timeline_state: final(self).trim_timeline_state,
                        trim_timeline_clip_delete_animating: final(self).trim_timeline_clip_delete_animating,
                        ..*old(self)
                    })
                    &&& removed == cr.1
                    &&& n.sound_id == st.sound_id
                    &&& n.enabled == st.enabled
                    &&& n.snap_enabled == st.snap_enabled
                    &&& n.selected_clip_id == selection_after(st.selected_clip_id, fin)
                    &&& n.selected_clip_ids@ == st.selected_clip_ids@
                    &&& n.timeline_is_playing == st.timeline_is_playing
                    &&& cr.1 ==> rows_view_normalized(rows_view(n.rows@), cr.0)
                    &&& !cr.1 ==> rows_view(n.rows@) == rows_view(st.rows@)
                    &&& timeline_view(n) != timeline_view(st) ==> timeline_views(final(undo)@)
                        == history_pushed(timeline_views(old(undo)@), timeline_view(st))
                        && final(redo)@.len() == 0
                    &&& timeline_view(n) == timeline_view(st) ==> final(undo)@ == old(undo)@
                        && final(redo)@ == old(redo)@
                    &&& old(self).trim_timeline_clip_delete_animating@.no_duplicates()
                        ==> final(self).trim_timeline_clip_delete_animating@.no_duplicates()
                },
            },
    {
        let mut st = match self.trim_timeline_state.take() {
            Some(s) => s,
            None => {
                return false;
            },
        };
        let ghost st0 = st;
        let ghost rv0 = rows_view(st.rows@);
        let (rest, fin) = split_finished(&self.trim_timeline_clip_delete_animating, finished);
        proof {
            if self.trim_timeline_clip_delete_animating@.no_duplicates() {
                crate::model::lemma_keep_no_duplicates(
                    self.trim_timeline_clip_delete_animating@,
                    not_listed_in(finished@),
                );
            }
        }
        self.trim_timeline_clip_delete_animating = rest;
        let before = clone_trim_timeline_state(&st);
        let mut removed_any = false;
        let mut i: usize = 0;
        while i < fin.len()
            invariant
                i <= fin.len(),
                rows_view(st.rows@) == clips_removed_v(rv0, fin@.take(i as int)).0,
                removed_any == clips_removed_v(rv0, fin@.take(i as int)).1,
                st.selected_clip_id == selection_after(st0.selected_clip_id, fin@.take(i as int)),
                st.sound_id == st0.sound_id,
                st.enabled == st0.enabled,
                st.snap_enabled == st0.snap_enabled,
                st.selected_clip_ids@ == st0.selected_clip_ids@,
                st.timeline_is_playing == st0.timeline_is_playing,
            decreases fin.len() - i,
        {
            let id = fin[i];
            proof {
                assert(fin@.take(i + 1).drop_last() =~= fin@.take(i as int));
                assert(fin@.take(i + 1).last() == id);
                assert(fin@.take(i + 1) =~= fin@.take(i as int).push(id));
            }
            let r = remove_first_clip(&mut st.rows, id);
            removed_any = removed_any || r;
            match st.selected_clip_id {
                Some(c) => {
                    if c == id {
                        st.selected_clip_id = None;
                    }
                },
                None => {},
            }
            i = i + 1;
        }
        assert(fin@.take(fin@.len() as int) =~= fin@);
        proof {
            lemma_clips_removed_none(rv0, fin@);
        }
        if removed_any {
            let ghost pre = st.rows@;
            Self::normalize_trim_timeline_rows(&mut st.rows);
            proof {
                lemma_rows_normalized_view(st.rows@, pre);
            }
        }
        proof {
            lemma_history_pushed_views(undo@, before);
            assert(timeline_view(before) == timeline_view(st0));
        }
        self.trim_timeline_state = Some(st);
        self.push_trim_timeline_undo_snapshot(undo, redo, before);
        removed_any
    }
}

/// One undo (or redo, `is_redo`) of the timeline: the last state of the
/// stack it takes from becomes the timeline, and the timeline it replaces,
/// if there was one, goes onto the other stack. With nothing to take,
/// nothing changes. Gives the timeline, the undo stack and the redo stack.
pub open spec fn timeline_undo_step<T>(state: Option<T>, undo: Seq<T>, redo: Seq<T>, is_redo: bool) -> (
    Option<T>,
    Seq<T>,
    Seq<T>,
) {
    let from = if is_redo {
        redo
    } else {
        undo
    };
    let to = if is_redo {
        undo
    } else {
        redo
    };
    if from.len() == 0 {
        (state, undo, redo)
    } else {
        let to2 = match state {
            Some(c) => to.push(c),
            None => to,
        };
        if is_redo {
            (Some(from.last()), to2, from.drop_last())
        } else {
            (Some(from.last()), from.drop_last(), to2)
        }
    }
}

impl SoundFxApp {
    /// Ctrl+Z (undo) or Ctrl+Shift+Z (redo, `is_redo`) on the timeline: see
    /// `timeline_undo_step`. Returns whether a state was restored.
    pub fn trim_timeline_undo_redo(
        &mut self,
        undo: &mut Vec<TrimTimelineState>,
        redo: &mut Vec<TrimTimelineState>,
        is_redo: bool,
    ) -> (applied: bool)
        ensures
            applied == (if is_redo {
                old(redo)@.len() > 0
            } else {
                old(undo)@.len() > 0
            }),
            (final(self).trim_timeline_state, final(undo)@, final(redo)@) == timeline_undo_step(
                old(self).trim_timeline_state,
                old(undo)@,
                old(redo)@,
                is_redo,
            ),
            *final(self) == (SoundFxApp { trim_timeline_state: final(self).trim_timeline_state, ..*old(self) }),
    {
        let snapshot = if is_redo {
            redo.pop()
        } else {
            undo.pop()
        };
        match snapshot {
            None => false,
            Some(restored) => {
                match self.trim_timeline_state.take() {
                    Some(current) => {
                        if is_redo {
                            undo.push(current);
                        } else {
                            redo.push(current);
                        }
                    },
                    None => {},
                }
                self.trim_timeline_state = Some(restored);
                true
            },
        }
    }
}

/// Whether the row holds the clip `id`.
pub open spec fn row_holds(row: TrimTimelineRow, id: u128) -> bool {
    exists|j: int| 0 <= j < row.clips@.len() && row.clips@[j].id == id
}

fn row_holds_exec(row: &TrimTimelineRow, id: u128) -> (r: bool)
    ensures
        r == row_holds(*row, id),
{
    let mut j: usize = 0;
    while j < row.clips.len()
        invariant
            j <= row.clips@.len(),
            forall|k: int| 0 <= k < j ==> row.clips@[k].id != id,
        decreases row.clips@.len() - j,
    {
        if row.clips[j].id == id {
            return true;
        }
        j = j + 1;
    }
    false
}

/// The selection after removing a row: cleared when the row held the
/// selected clip.
pub open spec fn selection_without_row(sel: Option<u128>, row: TrimTimelineRow) -> Option<u128> {
    match sel {
        Some(c) => if row_holds(row, c) {
            None
        } else {
            sel
        },
        None => None,
    }
}

/// The clip selection after a click on `clip_id`: with Shift (`additive`)
/// the clip joins the selection or leaves it; without, it alone is
/// selected.
pub open spec fn clicked_selection(ids: Seq<u128>, clip_id: u128, additive: bool) -> Seq<u128> {
    if !additive {
        seq![clip_id]
    } else if ids.contains(clip_id) {
        without(ids, clip_id)
    } else {
        ids.push(clip_id)
    }
}

/// Whether there is a timeline with a row at `row_index`, and it is not the
/// first row when `not_first`.
pub open spec fn has_row(state: Option<TrimTimelineState>, row_index: usize, not_first: bool) -> bool {
    match state {
        Some(st) => row_index < st.rows@.len() && (not_first ==> row_index > 0),
        None => false,
    }
}

impl SoundFxApp {
    /// The remove button of a timeline row: every row but the first can be
    /// removed, and a removed row that held the selected clip takes the
    /// selection with it. Returns whether a row was removed; the caller
    /// normalizes the rows afterwards.
    pub fn trim_timeline_remove_row(&mut self, row_index: usize) -> (removed: bool)
        ensures
            removed == has_row(old(self).trim_timeline_state, row_index, true),
            !removed ==> *final(self) == *old(self),
            removed ==> ({
                let st = old(self).trim_timeline_state->0;
                let n = final(self).trim_timeline_state->0;
                &&& final(self).trim_timeline_state is Some
                &&& n.rows@ == st.rows@.remove(row_index as int)
                &&& n == (TrimTimelineState {
                    rows: n.rows,
                    selected_clip_id: selection_without_row(st.selected_clip_id, st.rows@[row_index as int]),
                    ..st
                })
                &&& *final(self) == (SoundFxApp { trim_timeline_state: final(self).trim_timeline_state, ..*old(self) })
            }),
    {
        let mut st = match self.trim_timeline_state.take() {
            Some(s) => s,
            None => {
                return false;
            },
        };
        if row_index == 0 || row_index >= st.rows.len() {
            self.trim_timeline_state = Some(st);
            return false;
        }
        match st.selected_clip_id {
            Some(c) => {
                if row_holds_exec(&st.rows[row_index], c) {
                    st.selected_clip_id = None;
                }
            },
            None => {},
        }
        st.rows.remove(row_index);
        self.trim_timeline_state = Some(st);
        true
    }

    /// The mute button of a timeline row: the row is muted or unmuted.
    /// Returns whether there was such a row.
    pub fn trim_timeline_toggle_row_mute(&mut self, row_index: usize) -> (toggled: bool)
        ensures
            toggled == has_row(old(self).trim_timeline_state, row_index, false),
            !toggled ==> *final(self) == *old(self),
            toggled ==> ({
                let st = old(self).trim_timeline_state->0;
                let n = final(self).trim_timeline_state->0;
                &&& final(self).trim_timeline_state is Some
                &&& n.rows@ == st.rows@.update(
                    row_index as int,
                    TrimTimelineRow { muted: !st.rows@[row_index as int].muted, ..st.rows@[row_index as int] },
                )
                &&& n == (TrimTimelineState { rows: n.rows, ..st })
                &&& *final(self) == (SoundFxApp { trim_timeline_state: final(self).trim_timeline_state, ..*old(self) })
            }),
    {
        let mut st = match self.trim_timeline_state.take() {
            Some(s) => s,
            None => {
                return false;
            },
        };
        if row_index >= st.rows.len() {
            self.trim_timeline_state = Some(st);
            return false;
        }
        let ghost rows0 = st.rows@;
        let mut row = st.rows.remove(row_index);
        row.muted = !row.muted;
        st.rows.insert(row_index, row);
        assert(st.rows@ =~= rows0.update(
            row_index as int,
            TrimTimelineRow { muted: !rows0[row_index as int].muted, ..rows0[row_index as int] },
        ));
        self.trim_timeline_state = Some(st);
        true
    }

    /// A click on the clip `clip_id` of the timeline: with Shift
    /// (`additive`) the clip joins the selection or leaves it, and the first
    /// clip of the selection becomes the selected clip (none when the
    /// selection is empty); without Shift the clip alone is selected.
    /// Returns whether there was a timeline.
    pub fn trim_timeline_click_clip(&mut self, clip_id: u128, additive: bool) -> (clicked: bool)
        ensures
            clicked == old(self).trim_timeline_state is Some,
            !clicked ==> *final(self) == *old(self),
            clicked ==> ({
                let st = old(self).trim_timeline_state->0;
                let n = final(self).trim_timeline_state->0;
                let ids = clicked_selection(st.selected_clip_ids@, clip_id, additive);
                &&& final(self).trim_timeline_state is Some
                &&& n.selected_clip_ids@ == ids
                &&& n.selected_clip_id == (if ids.len() == 0 {
                    None
                } else {
                    Some(ids[0])
                })
                &&& n == (TrimTimelineState {
                    selected_clip_ids: n.selected_clip_ids,
                    selected_clip_id: n.selected_clip_id,
                    ..st
                })
                &&& *final(self) == (SoundFxApp { trim_timeline_state: final(self).trim_timeline_state, ..*old(self) })
                &&& st.selected_clip_ids@.no_duplicates() ==> n.selected_clip_ids@.no_duplicates()
                &&& !additive ==> n.selected_clip_ids@.no_duplicates()
            }),
    {
        let mut st = match self.trim_timeline_state.take() {
            Some(s) => s,
            None => {
                return false;
            },
        };
        if additive {
            if crate::folders::contains_id(&st.selected_clip_ids, clip_id) {
                st.selected_clip_ids = crate::tree::without_id(&st.selected_clip_ids, clip_id);
            } else {
                proof {
                    if st.selected_clip_ids@.no_duplicates() {
                        crate::model::lemma_push_no_duplicates(st.selected_clip_ids@, clip_id);
                    }
                }
                st.selected_clip_ids.push(clip_id);
            }
        } else {
            st.selected_clip_ids = Vec::new();
            st.selected_clip_ids.push(clip_id);
            assert(st.selected_clip_ids@ =~= seq![clip_id]);
        }
        st.selected_clip_id = if st.selected_clip_ids.len() == 0 {
            None
        } else {
            Some(st.selected_clip_ids[0])
        };
        self.trim_timeline_state = Some(st);
        true
    }
}

} // verus!
