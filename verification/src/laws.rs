use vstd::prelude::*;
use crate::editor::{
    TRIM_HISTORY_LIMIT, TrimSnapshot, history_pushed, latest_snapshot, rows_normalized, snapshot_taken,
    timeline_undo_step,
};
use crate::folders::{
    count_in_branch, count_in_folder, in_branch, listed_pred, listed_sound_indices, listed_sounds, sound_listed,
};
use crate::importing::{
    FolderRef, ImportEntry, StepView, any_contains_audio, audio_count, audio_counts, contains_audio,
    entry_skipped, file_steps, lemma_file_steps_add, plan_entries, plan_entry,
};
use crate::model::{
    SoundFxApp, SoundView, TrimTimelineRow, first_index, keep, keep_indices, lemma_first_index, sound_views,
    without,
};
use crate::tags::{
    collect_tags, has_tag, is_tag_separator, parse_tags_spec, remove_tag, spec_join, split_tags, tag_separator,
    toggle_tag,
};
use crate::text::{
    eq_ignore_case, is_white_space, spec_lower, spec_lower_char, spec_normalize, spec_trim, trim_end,
    trim_start,
};
use crate::tree::{TreeState, delete_branch_step, favorite_toggled, outside_branch, sound_outside_branch};

verus! {

/// Keeping elements by position gives the same elements as keeping them directly.
pub proof fn lemma_keep_indices_map<A>(s: Seq<A>, p: spec_fn(A) -> bool)
    requires
        s.len() <= usize::MAX,
    ensures
        keep(s, p) == keep_indices(s, p).map_values(|i: usize| s[i as int]),
        forall|k: int| 0 <= k < keep_indices(s, p).len() ==> #[trigger] keep_indices(s, p)[k] < s.len(),
    decreases s.len(),
{
    if s.len() > 0 {
        let d = s.drop_last();
        lemma_keep_indices_map(d, p);
        let ki = keep_indices(d, p);
        let a = ki.map_values(|i: usize| d[i as int]);
        let b = ki.map_values(|i: usize| s[i as int]);
        assert forall|k: int| 0 <= k < a.len() implies #[trigger] a[k] == b[k] by {
            assert(k < ki.len());
            assert(ki[k] < d.len());
            assert(d[ki[k] as int] == s[ki[k] as int]);
        }
        assert(a =~= b);
        if p(s.last()) {
            let ks = keep_indices(s, p);
            assert(ks == ki.push((s.len() - 1) as usize));
            let c = ks.map_values(|i: usize| s[i as int]);
            let e = b.push(s.last());
            assert forall|k: int| 0 <= k < c.len() implies #[trigger] c[k] == e[k] by {
                assert(c[k] == s[ks[k] as int]);
                if k < ki.len() {
                    assert(ks[k] == ki[k]);
                    assert(e[k] == b[k]);
                    assert(b[k] == s[ki[k] as int]);
                } else {
                    assert(ks[k] == (s.len() - 1) as usize);
                    assert(e[k] == s.last());
                }
            }
            assert(c =~= e);
        }
    }
}

/// Every element kept satisfies the predicate.
pub proof fn lemma_keep_satisfies<A>(s: Seq<A>, p: spec_fn(A) -> bool)
    ensures
        forall|k: int| 0 <= k < keep(s, p).len() ==> p(#[trigger] keep(s, p)[k]),
    decreases s.len(),
{
    if s.len() > 0 {
        let d = s.drop_last();
        lemma_keep_satisfies(d, p);
        let kd = keep(d, p);
        if p(s.last()) {
            assert forall|k: int| 0 <= k < keep(s, p).len() implies p(#[trigger] keep(s, p)[k]) by {
                if k < kd.len() {
                    assert(keep(s, p)[k] == kd[k]);
                }
            }
        }
    }
}

/// Listing a folder's sounds and listing their positions agree: the sounds
/// listed are the sounds at the positions listed.
pub proof fn law_listed_sounds_match_indices(app: SoundFxApp, folder_id: Option<u128>, include_descendants: bool)
    ensures
        listed_sounds(app, folder_id, include_descendants, false) == listed_sound_indices(
            app,
            folder_id,
            include_descendants,
        ).map_values(|i: usize| sound_views(app.sounds@)[i as int]),
{
    let v = sound_views(app.sounds@);
    assert(app.sounds.len() == app.sounds@.len());
    let pf = listed_pred(app, folder_id, include_descendants, false, true);
    let pr = listed_pred(app, folder_id, include_descendants, false, false);
    lemma_keep_indices_map(v, pf);
    lemma_keep_indices_map(v, pr);
    let f = |i: usize| v[i as int];
    assert((keep_indices(v, pf) + keep_indices(v, pr)).map_values(f) =~= keep_indices(v, pf).map_values(f)
        + keep_indices(v, pr).map_values(f));
}

/// Deleting a folder removes its whole branch: no remaining folder and no
/// remaining sound belongs to it, and the selection left it.
pub proof fn law_delete_branch_leaves_nothing(t: TreeState, root: u128)
    ensures
        ({
            let d = delete_branch_step(t, root);
            &&& forall|i: int| 0 <= i < d.folders.len() ==> !in_branch(t.folders, root, #[trigger] d.folders[i].id)
            &&& forall|i: int|
                0 <= i < d.sounds.len() ==> !(#[trigger] d.sounds[i].folder_id is Some && in_branch(
                    t.folders,
                    root,
                    d.sounds[i].folder_id->0,
                ))
            &&& d.current is Some ==> !in_branch(t.folders, root, d.current->0)
        }),
{
    lemma_keep_satisfies(t.folders, outside_branch(t.folders, root));
    lemma_keep_satisfies(t.sounds, sound_outside_branch(t.folders, root));
}

/// A folder's total sound count includes the sounds placed directly in it.
pub proof fn law_total_count_covers_direct(fs: Seq<crate::model::Folder>, sounds: Seq<SoundView>, root: u128)
    ensures
        count_in_folder(sounds, Some(root)) <= count_in_branch(fs, sounds, root),
    decreases sounds.len(),
{
    if sounds.len() > 0 {
        law_total_count_covers_direct(fs, sounds.drop_last(), root);
    }
}

/// Without a matching tag, `remove_tag` changes nothing.
proof fn lemma_remove_absent(tags: Seq<Seq<char>>, tag: Seq<char>)
    requires
        !has_tag(tags, tag),
    ensures
        remove_tag(tags, tag) == tags,
    decreases tags.len(),
{
    if tags.len() > 0 {
        let d = tags.drop_last();
        assert(!has_tag(d, tag)) by {
            if has_tag(d, tag) {
                let i = choose|i: int| 0 <= i < d.len() && eq_ignore_case(#[trigger] d[i], tag);
                assert(tags[i] == d[i]);
            }
        }
        lemma_remove_absent(d, tag);
        assert(!eq_ignore_case(tags.last(), tag)) by {
            if eq_ignore_case(tags.last(), tag) {
                assert(eq_ignore_case(tags[tags.len() - 1], tag));
            }
        }
        assert(d.push(tags.last()) =~= tags);
    }
}

/// Clicking a tag chip twice gives the tag list back: adding a tag that is
/// not there and removing it again restores the list.
pub proof fn law_toggle_tag_twice(tags: Seq<Seq<char>>, tag: Seq<char>)
    requires
        !has_tag(tags, tag),
    ensures
        toggle_tag(toggle_tag(tags, tag, false), tag, true) == tags,
{
    let added = tags.push(tag);
    assert(added.drop_last() =~= tags);
    assert(eq_ignore_case(tag, tag));
    lemma_remove_absent(tags, tag);
}

/// Normalizing the rows of the timeline twice changes nothing the second time.
pub proof fn law_normalize_rows_idempotent(
    once: Seq<TrimTimelineRow>,
    twice: Seq<TrimTimelineRow>,
    orig: Seq<TrimTimelineRow>,
)
    requires
        rows_normalized(once, orig),
        rows_normalized(twice, once),
    ensures
        twice == once,
{
    let n = once.len();
    let m = twice.len();
    if m < n {
        if m == n - 1 {
            assert(twice[m - 1] == once[m - 1]);
        } else {
            assert(once[n - 2].clips@.len() == 0);
        }
    } else if m > n {
        if m - 2 >= n {
            assert(twice[m - 2].clips@.len() == 0);
        } else {
            assert(twice[m - 2] == once[n - 1]);
        }
    }
    assert(twice =~= once);
}


/// No separator occurs in the text.
pub open spec fn plain(s: Seq<char>) -> bool {
    forall|i: int| 0 <= i < s.len() ==> !is_tag_separator(#[trigger] s[i])
}

/// A list of tags as `parse_tags` gives it: each tag non-empty, in normal
/// form and free of separators, and no tag twice.
pub open spec fn normal_tag_list(ts: Seq<Seq<char>>) -> bool {
    &&& forall|i: int| 0 <= i < ts.len() ==> (#[trigger] ts[i]).len() > 0
    &&& forall|i: int| 0 <= i < ts.len() ==> spec_normalize(#[trigger] ts[i]) == ts[i]
    &&& forall|i: int| 0 <= i < ts.len() ==> plain(#[trigger] ts[i])
    &&& forall|i: int, j: int| 0 <= i < j < ts.len() ==> #[trigger] ts[i] != #[trigger] ts[j]
}

/// The text has no white space at either end.
pub open spec fn trimmed(s: Seq<char>) -> bool {
    s.len() == 0 || (!is_white_space(s[0]) && !is_white_space(s[s.len() - 1]))
}

proof fn lemma_trim_start_lower(s: Seq<char>)
    ensures
        trim_start(spec_lower(s)) == spec_lower(trim_start(s)),
    decreases s.len(),
{
    if s.len() > 0 {
        assert(spec_lower(s)[0] == spec_lower_char(s[0]));
        if is_white_space(s[0]) {
            assert(spec_lower(s).subrange(1, s.len() as int) =~= spec_lower(s.subrange(1, s.len() as int)));
            lemma_trim_start_lower(s.subrange(1, s.len() as int));
        }
    }
}

proof fn lemma_trim_end_lower(s: Seq<char>)
    ensures
        trim_end(spec_lower(s)) == spec_lower(trim_end(s)),
    decreases s.len(),
{
    if s.len() > 0 {
        assert(spec_lower(s)[s.len() - 1] == spec_lower_char(s[s.len() - 1]));
        if is_white_space(s[s.len() - 1]) {
            assert(spec_lower(s).subrange(0, s.len() - 1) =~= spec_lower(s.subrange(0, s.len() - 1)));
            lemma_trim_end_lower(s.subrange(0, s.len() - 1));
        }
    }
}

/// Trimming and lower-casing can be done in either order.
proof fn lemma_trim_lower(s: Seq<char>)
    ensures
        spec_trim(spec_lower(s)) == spec_lower(spec_trim(s)),
{
    lemma_trim_start_lower(s);
    lemma_trim_end_lower(trim_start(s));
}

/// `trim_start` drops a prefix; what is left starts with no white space.
proof fn lemma_trim_start_shape(s: Seq<char>)
    ensures
        exists|k: int| 0 <= k <= s.len() && trim_start(s) == s.subrange(k, s.len() as int),
        trim_start(s).len() > 0 ==> !is_white_space(trim_start(s)[0]),
    decreases s.len(),
{
    if s.len() > 0 && is_white_space(s[0]) {
        let t = s.subrange(1, s.len() as int);
        lemma_trim_start_shape(t);
        let k = choose|k: int| 0 <= k <= t.len() && trim_start(t) == t.subrange(k, t.len() as int);
        assert(t.subrange(k, t.len() as int) =~= s.subrange(k + 1, s.len() as int));
    } else {
        assert(s.subrange(0, s.len() as int) =~= s);
    }
}

/// `trim_end` drops a suffix; what is left ends with no white space.
proof fn lemma_trim_end_shape(s: Seq<char>)
    ensures
        exists|k: int| 0 <= k <= s.len() && trim_end(s) == s.subrange(0, k),
        trim_end(s).len() > 0 ==> !is_white_space(trim_end(s)[trim_end(s).len() - 1]),
    decreases s.len(),
{
    if s.len() > 0 && is_white_space(s[s.len() - 1]) {
        let t = s.subrange(0, s.len() - 1);
        lemma_trim_end_shape(t);
        let k = choose|k: int| 0 <= k <= t.len() && trim_end(t) == t.subrange(0, k);
        assert(t.subrange(0, k) =~= s.subrange(0, k));
    } else {
        assert(s.subrange(0, s.len() as int) =~= s);
    }
}

/// The trimmed text is a piece of the text with no white space at either end.
proof fn lemma_trim_shape(s: Seq<char>)
    ensures
        trimmed(spec_trim(s)),
        exists|a: int, b: int| 0 <= a <= b <= s.len() && spec_trim(s) == s.subrange(a, b),
{
    let u = trim_start(s);
    lemma_trim_start_shape(s);
    lemma_trim_end_shape(u);
    let a = choose|k: int| 0 <= k <= s.len() && u == s.subrange(k, s.len() as int);
    let b = choose|k: int| 0 <= k <= u.len() && trim_end(u) == u.subrange(0, k);
    assert(u.subrange(0, b) =~= s.subrange(a, a + b));
    let t = trim_end(u);
    if t.len() > 0 {
        assert(t[0] == u[0]);
    }
}

/// A text without white space at its ends is its own trim.
proof fn lemma_trim_trimmed(s: Seq<char>)
    requires
        trimmed(s),
    ensures
        spec_trim(s) == s,
{
    if s.len() > 0 {
        assert(trim_start(s) == s);
        assert(trim_end(s) == s);
    }
}

/// The normal form of a text is its own normal form.
proof fn lemma_normalize_idempotent(s: Seq<char>)
    ensures
        spec_normalize(spec_normalize(s)) == spec_normalize(s),
{
    let t = spec_trim(s);
    lemma_trim_lower(t);
    lemma_trim_shape(s);
    lemma_trim_trimmed(t);
    crate::text::lemma_lower_idempotent(t);
}

/// Lower-casing neither makes nor removes a separator.
proof fn lemma_lower_plain(s: Seq<char>)
    requires
        plain(s),
    ensures
        plain(spec_lower(s)),
{
    assert forall|i: int| 0 <= i < spec_lower(s).len() implies !is_tag_separator(#[trigger] spec_lower(s)[i]) by {
        assert(!is_tag_separator(s[i]));
    }
}

/// The normal form of a text without separators has none.
proof fn lemma_normalize_plain(s: Seq<char>)
    requires
        plain(s),
    ensures
        plain(spec_normalize(s)),
{
    lemma_trim_shape(s);
    let (a, b) = choose|a: int, b: int| 0 <= a <= b <= s.len() && spec_trim(s) == s.subrange(a, b);
    assert(plain(spec_trim(s))) by {
        assert forall|i: int| 0 <= i < spec_trim(s).len() implies !is_tag_separator(#[trigger] spec_trim(s)[i]) by {
            assert(spec_trim(s)[i] == s[a + i]);
        }
    }
    lemma_lower_plain(spec_trim(s));
}

/// The pieces `str::split` gives contain no separator.
proof fn lemma_split_plain(s: Seq<char>)
    ensures
        forall|i: int| 0 <= i < split_tags(s).len() ==> plain(#[trigger] split_tags(s)[i]),
    decreases s.len(),
{
    crate::tags::lemma_split_nonempty(s);
    if s.len() > 0 {
        let d = s.drop_last();
        lemma_split_plain(d);
        crate::tags::lemma_split_nonempty(d);
        let ps = split_tags(d);
        if !is_tag_separator(s.last()) {
            let l = ps.last().push(s.last());
            assert(plain(l)) by {
                assert(plain(ps[ps.len() - 1]));
            }
        }
    }
}

/// Collecting pieces without separators gives a normal tag list.
proof fn lemma_collect_normal(pieces: Seq<Seq<char>>)
    requires
        forall|i: int| 0 <= i < pieces.len() ==> plain(#[trigger] pieces[i]),
    ensures
        normal_tag_list(collect_tags(pieces)),
    decreases pieces.len(),
{
    if pieces.len() > 0 {
        let d = pieces.drop_last();
        assert forall|i: int| 0 <= i < d.len() implies plain(#[trigger] d[i]) by {
            assert(d[i] == pieces[i]);
        }
        lemma_collect_normal(d);
        let r = collect_tags(d);
        let t = spec_normalize(pieces.last());
        lemma_normalize_idempotent(pieces.last());
        assert(plain(pieces[pieces.len() - 1]));
        lemma_normalize_plain(pieces.last());
        if !(t.len() == 0 || r.contains(t)) {
            let rr = r.push(t);
            assert forall|i: int, j: int| 0 <= i < j < rr.len() implies #[trigger] rr[i] != #[trigger] rr[j] by {
                if j == r.len() {
                    assert(rr[i] == r[i]);
                    if r[i] == t {
                        assert(r.contains(t));
                    }
                }
            }
        }
    }
}

/// What `parse_tags` gives is a normal tag list.
pub proof fn lemma_parse_normal(text: Seq<char>)
    ensures
        normal_tag_list(parse_tags_spec(text)),
{
    lemma_split_plain(text);
    lemma_collect_normal(split_tags(text));
}

/// Appending text without separators extends the last piece.
proof fn lemma_split_append_plain(x: Seq<char>, y: Seq<char>)
    requires
        plain(y),
    ensures
        split_tags(x + y) == split_tags(x).update(split_tags(x).len() - 1, split_tags(x).last() + y),
    decreases y.len(),
{
    crate::tags::lemma_split_nonempty(x);
    if y.len() == 0 {
        assert(x + y =~= x);
        assert(split_tags(x).last() + y =~= split_tags(x).last());
        assert(split_tags(x).update(split_tags(x).len() - 1, split_tags(x).last()) =~= split_tags(x));
    } else {
        let yd = y.drop_last();
        assert(plain(yd)) by {
            assert forall|i: int| 0 <= i < yd.len() implies !is_tag_separator(#[trigger] yd[i]) by {
                assert(yd[i] == y[i]);
            }
        }
        lemma_split_append_plain(x, yd);
        assert((x + y).drop_last() =~= x + yd);
        assert((x + y).last() == y.last());
        assert(!is_tag_separator(y[y.len() - 1]));
        let ps = split_tags(x);
        assert((ps.last() + yd).push(y.last()) =~= ps.last() + y);
        assert(split_tags(x + y) =~= ps.update(ps.len() - 1, ps.last() + y));
    }
}

/// The pieces that splitting the joined tags gives: the first tag, then each
/// further tag behind the space of the separator.
pub open spec fn joined_pieces(ts: Seq<Seq<char>>) -> Seq<Seq<char>> {
    Seq::new(ts.len(), |i: int| if i == 0 { ts[0] } else { seq![' '] + ts[i] })
}

proof fn lemma_split_join(ts: Seq<Seq<char>>)
    requires
        ts.len() > 0,
        forall|i: int| 0 <= i < ts.len() ==> plain(#[trigger] ts[i]),
    ensures
        split_tags(spec_join(ts, tag_separator())) == joined_pieces(ts),
    decreases ts.len(),
{
    if ts.len() == 1 {
        assert(plain(ts[0]));
        lemma_split_append_plain(Seq::empty(), ts[0]);
        assert(Seq::<char>::empty() + ts[0] =~= ts[0]);
        assert(split_tags(ts[0]) =~= joined_pieces(ts));
    } else {
        let d = ts.drop_last();
        assert forall|i: int| 0 <= i < d.len() implies plain(#[trigger] d[i]) by {
            assert(d[i] == ts[i]);
        }
        lemma_split_join(d);
        let j = spec_join(d, tag_separator());
        let t = ts.last();
        assert(plain(ts[ts.len() - 1]));
        let st = seq![' '] + t;
        assert(plain(st)) by {
            assert forall|i: int| 0 <= i < st.len() implies !is_tag_separator(#[trigger] st[i]) by {
                if i > 0 {
                    assert(st[i] == t[i - 1]);
                }
            }
        }
        assert(spec_join(ts, tag_separator()) =~= j.push(',') + st);
        lemma_split_append_plain(j.push(','), st);
        assert(j.push(',').drop_last() =~= j);
        assert(is_tag_separator(j.push(',').last()));
        assert(split_tags(j.push(',')) == split_tags(j).push(Seq::empty()));
        assert(Seq::<char>::empty() + st =~= st);
        assert(split_tags(spec_join(ts, tag_separator())) =~= joined_pieces(ts));
    }
}

/// Collecting the pieces of joined normal tags gives the tags back.
proof fn lemma_collect_joined(ts: Seq<Seq<char>>)
    requires
        normal_tag_list(ts),
    ensures
        collect_tags(joined_pieces(ts)) == ts,
    decreases ts.len(),
{
    if ts.len() > 0 {
        let d = ts.drop_last();
        assert(normal_tag_list(d)) by {
            assert forall|i: int, j: int| 0 <= i < j < d.len() implies #[trigger] d[i] != #[trigger] d[j] by {
                assert(ts[i] != ts[j]);
            }
        }
        lemma_collect_joined(d);
        assert(joined_pieces(ts).drop_last() =~= joined_pieces(d));
        let t = ts.last();
        let n = ts.len() - 1;
        assert(spec_normalize(ts[n]) == ts[n]);
        assert(ts[n].len() > 0);
        if n > 0 {
            let st = seq![' '] + t;
            assert(st.subrange(1, st.len() as int) =~= t);
            assert(trim_start(st) == trim_start(t));
            assert(spec_trim(st) == spec_trim(t));
        }
        assert(spec_normalize(joined_pieces(ts).last()) == t);
        assert(!d.contains(t)) by {
            if d.contains(t) {
                let i = choose|i: int| 0 <= i < d.len() && d[i] == t;
                assert(ts[i] != ts[n]);
            }
        }
        assert(d.push(t) =~= ts);
    }
}

/// Writing the tags of a text back as a tag list and reading them again
/// gives the same tags: `parse_tags(join_tags(parse_tags(t))) == parse_tags(t)`.
pub proof fn law_parse_join_roundtrip(text: Seq<char>)
    ensures
        parse_tags_spec(spec_join(parse_tags_spec(text), tag_separator())) == parse_tags_spec(text),
{
    let ts = parse_tags_spec(text);
    lemma_parse_normal(text);
    if ts.len() == 0 {
        let e = Seq::<char>::empty();
        assert(spec_join(ts, tag_separator()) == e);
        assert(e.len() == 0);
        let ps = split_tags(e);
        assert(ps == seq![e]);
        assert(ps.drop_last() =~= Seq::<Seq<char>>::empty());
        assert(ps.last() == e);
        assert(spec_normalize(e) =~= e);
        let none = Seq::<Seq<char>>::empty();
        assert(collect_tags(none) == none);
        assert(collect_tags(ps.drop_last()) == none);
        assert(collect_tags(ps) =~= ts);
    } else {
        lemma_split_join(ts);
        lemma_collect_joined(ts);
    }
}


/// Every entry of the tree is either a file or a directory, not both.
pub open spec fn kinds_exclusive(e: ImportEntry) -> bool
    decreases e,
{
    e.is_dir != e.is_file && (e.is_dir ==> kinds_exclusive_all(e.children@))
}

/// Every entry of the trees is either a file or a directory, not both.
pub open spec fn kinds_exclusive_all(cs: Seq<ImportEntry>) -> bool
    decreases cs,
{
    cs.len() == 0 || (kinds_exclusive_all(cs.drop_last()) && kinds_exclusive(cs.last()))
}

proof fn lemma_no_audio(e: ImportEntry)
    requires
        !contains_audio(e),
    ensures
        audio_count(e) == 0,
    decreases e,
{
    if !entry_skipped(e) && !e.is_file && e.is_dir && e.readable {
        lemma_no_audio_all(e.children@);
    }
}

proof fn lemma_no_audio_all(cs: Seq<ImportEntry>)
    requires
        !any_contains_audio(cs),
    ensures
        audio_counts(cs) == 0,
    decreases cs,
{
    if cs.len() > 0 {
        lemma_no_audio_all(cs.drop_last());
        lemma_no_audio(cs.last());
    }
}

proof fn lemma_plan_entry_files(e: ImportEntry, target: FolderRef, created: nat)
    requires
        kinds_exclusive(e),
    ensures
        file_steps(plan_entry(e, target, created).0) == audio_count(e),
    decreases e,
{
    if !entry_skipped(e) && e.is_dir {
        if !contains_audio(e) {
            if e.readable {
                lemma_no_audio_all(e.children@);
            }
        } else {
            let inner = plan_entries(e.children@, FolderRef::New(created as usize), created + 1);
            let name = crate::importing::folder_display_name(crate::importing::name_view(e.file_name));
            let head = seq![StepView::CreateFolder { name: name, parent: target }];
            lemma_plan_entries_files(e.children@, FolderRef::New(created as usize), created + 1);
            lemma_file_steps_add(head, inner.0);
            assert(head.drop_last() =~= Seq::<StepView>::empty());
            assert(file_steps(head.drop_last()) == 0);
            assert(file_steps(head) == 0);
        }
    } else if !entry_skipped(e) && e.supported_audio {
        let one = seq![StepView::ImportFile { token: e.token, folder: target }];
        assert(one.drop_last() =~= Seq::<StepView>::empty());
        assert(file_steps(one.drop_last()) == 0);
        assert(file_steps(one) == 1);
    }
}

proof fn lemma_plan_entries_files(cs: Seq<ImportEntry>, target: FolderRef, created: nat)
    requires
        kinds_exclusive_all(cs),
    ensures
        file_steps(plan_entries(cs, target, created).0) == audio_counts(cs),
    decreases cs,
{
    if cs.len() > 0 {
        let first = plan_entries(cs.drop_last(), target, created);
        lemma_plan_entries_files(cs.drop_last(), target, created);
        lemma_plan_entry_files(cs.last(), target, first.2);
        lemma_file_steps_add(first.0, plan_entry(cs.last(), target, first.2).0);
    }
}

/// The number of audio files an import expects (the total its progress
/// counts towards) is the number of files its plan imports, for entries that
/// are each a file or a directory.
pub proof fn law_import_plan_matches_count(entries: Seq<ImportEntry>, target_folder_id: Option<u128>)
    requires
        kinds_exclusive_all(entries),
    ensures
        file_steps(plan_entries(entries, FolderRef::Existing(target_folder_id), 0).0) == audio_counts(entries),
{
    lemma_plan_entries_files(entries, FolderRef::Existing(target_folder_id), 0);
}


/// Carrying out the plan of an import reports progress once per file, so
/// the last report counts exactly the total the import expected (for
/// entries that are each a file or a directory).
pub proof fn law_import_progress_reaches_total(
    entries: Seq<ImportEntry>,
    target_folder_id: Option<u128>,
    names: Seq<Seq<char>>,
    labels: Seq<Seq<char>>,
    fids: Seq<u128>,
    sids: Seq<u128>,
)
    requires
        kinds_exclusive_all(entries),
    ensures
        crate::importing::executed(
            plan_entries(entries, FolderRef::Existing(target_folder_id), 0).0,
            names,
            labels,
            fids,
            sids,
        ).2.len() == audio_counts(entries),
{
    let s = plan_entries(entries, FolderRef::Existing(target_folder_id), 0).0;
    law_import_plan_matches_count(entries, target_folder_id);
    crate::importing::lemma_executed_lens(s, names, labels, fids, sids);
}

/// The first position whose element satisfies `p` is the one `first_index` gives.
proof fn lemma_first_index_unique<A>(s: Seq<A>, p: spec_fn(A) -> bool, i: int)
    requires
        0 <= i < s.len(),
        p(s[i]),
        forall|j: int| 0 <= j < i ==> !p(s[j]),
    ensures
        first_index(s, p) == Some(i),
{
    lemma_first_index(s, p);
    match first_index(s, p) {
        Some(k) => {
            if k < i {
                assert(!p(s[k]));
            } else if k > i {
                assert(!p(s[i]));
            }
        },
        None => {
            assert(!p(s[i]));
        },
    }
}

/// Marking a sound as favorite and unmarking it again gives the library back.
pub proof fn law_toggle_favorite_twice(sounds: Seq<SoundView>, id: u128)
    ensures
        favorite_toggled(favorite_toggled(sounds, id), id) == sounds,
{
    let p = |s: SoundView| s.id == id;
    lemma_first_index(sounds, p);
    match first_index(sounds, p) {
        Some(i) => {
            let t = favorite_toggled(sounds, id);
            assert forall|j: int| 0 <= j < i implies !p(#[trigger] t[j]) by {
                assert(t[j] == sounds[j]);
                assert(!p(sounds[j]));
            }
            lemma_first_index_unique(t, p, i);
            assert(favorite_toggled(t, id) =~= sounds);
        },
        None => {},
    }
}


/// Every sound a folder view lists lies in the view's part of the tree and
/// passes the search query, the tag filters and the favorites-only switch.
pub proof fn law_listed_sounds_pass_filters(
    app: SoundFxApp,
    folder_id: Option<u128>,
    include_descendants: bool,
    direct: bool,
)
    ensures
        forall|k: int|
            0 <= k < listed_sounds(app, folder_id, include_descendants, direct).len() ==> sound_listed(
                app,
                folder_id,
                include_descendants,
                direct,
                #[trigger] listed_sounds(app, folder_id, include_descendants, direct)[k],
            ),
{
    let v = sound_views(app.sounds@);
    let pf = listed_pred(app, folder_id, include_descendants, direct, true);
    let pr = listed_pred(app, folder_id, include_descendants, direct, false);
    lemma_keep_satisfies(v, pf);
    lemma_keep_satisfies(v, pr);
    let l = listed_sounds(app, folder_id, include_descendants, direct);
    assert forall|k: int| 0 <= k < l.len() implies sound_listed(app, folder_id, include_descendants, direct, #[trigger] l[k]) by {
        if k < keep(v, pf).len() {
            assert(l[k] == keep(v, pf)[k]);
            assert(pf(keep(v, pf)[k]));
        } else {
            assert(l[k] == keep(v, pr)[k - keep(v, pf).len()]);
            assert(pr(keep(v, pr)[k - keep(v, pf).len()]));
        }
    }
}

/// A tag in normal form stays as it is when normalized again.
pub proof fn law_normalize_tag_idempotent(tag: Seq<char>)
    ensures
        spec_normalize(spec_normalize(tag)) == spec_normalize(tag),
{
    lemma_normalize_idempotent(tag);
}


/// Undoing a trim edit and then redoing it gives back both histories, and the
/// redo hands back the settings the undo replaced. This holds when the latest
/// undo entry is the sound's and neither history is full.
pub proof fn law_undo_then_redo<D>(
    undo: Seq<TrimSnapshot<D>>,
    redo: Seq<TrimSnapshot<D>>,
    sound_id: u128,
    current: D,
)
    requires
        undo.len() > 0,
        undo.last().sound_id == sound_id,
        undo.len() <= TRIM_HISTORY_LIMIT,
        redo.len() < TRIM_HISTORY_LIMIT,
    ensures
        latest_snapshot(undo, sound_id) is Some,
        ({
            let restored = latest_snapshot(undo, sound_id)->0;
            let undo1 = snapshot_taken(undo, sound_id);
            let redo1 = history_pushed(redo, TrimSnapshot { sound_id, data: current });
            let back = latest_snapshot(redo1, sound_id);
            let redo2 = snapshot_taken(redo1, sound_id);
            let undo2 = history_pushed(undo1, TrimSnapshot { sound_id, data: restored.data });
            &&& back == Some(TrimSnapshot { sound_id, data: current })
            &&& redo2 == redo
            &&& undo2 == undo
        }),
{
    let restored = undo.last();
    let undo1 = undo.remove(undo.len() - 1);
    assert(undo1 =~= undo.drop_last());
    assert(undo1.push(TrimSnapshot { sound_id, data: restored.data }) =~= undo);
    let c = TrimSnapshot { sound_id, data: current };
    let redo1 = redo.push(c);
    assert(redo1.last() == c);
    assert(redo1.remove(redo1.len() - 1) =~= redo);
}


/// Without `x`, removing `x` keeps everything.
proof fn lemma_without_absent<A>(s: Seq<A>, x: A)
    requires
        !s.contains(x),
    ensures
        without(s, x) == s,
    decreases s.len(),
{
    if s.len() > 0 {
        let d = s.drop_last();
        assert(!d.contains(x)) by {
            if d.contains(x) {
                let i = choose|i: int| 0 <= i < d.len() && d[i] == x;
                assert(s[i] == x);
            }
        }
        lemma_without_absent(d, x);
        assert(s.last() != x) by {
            if s.last() == x {
                assert(s[s.len() - 1] == x);
            }
        }
        assert(d.push(s.last()) =~= s);
    }
}

/// A trim commit marks its sound as in flight (`start_trim_commit_job` only
/// starts one for a sound not in flight), and its result clears the mark
/// (`poll_trim_commit_jobs`): afterwards the sounds in flight are those of
/// before.
pub proof fn law_commit_clears_in_flight_mark(in_flight: Seq<u128>, sound_id: u128)
    requires
        !in_flight.contains(sound_id),
    ensures
        without(in_flight.push(sound_id), sound_id) == in_flight,
{
    let p = |y: u128| y != sound_id;
    let pushed = in_flight.push(sound_id);
    assert(pushed.drop_last() =~= in_flight);
    assert(!p(pushed.last()));
    lemma_without_absent(in_flight, sound_id);
}


/// Every step of an import plan refers to an existing folder or to a folder
/// the plan creates earlier, so carrying the plan out in order never meets a
/// folder it has not made yet.
pub proof fn law_plan_refers_to_earlier_folders(entries: Seq<ImportEntry>, target_folder_id: Option<u128>)
    requires
        crate::importing::entries_size(entries) <= usize::MAX,
    ensures
        crate::importing::refs_ok(plan_entries(entries, FolderRef::Existing(target_folder_id), 0).0, 0),
{
    crate::importing::lemma_plan_entries_refs(entries, FolderRef::Existing(target_folder_id), 0);
}


/// Carrying out the plan of an import into `target_folder_id` records every
/// new folder under the target or under a folder created before it, and
/// every new sound in the target or in one of the new folders, whatever ids
/// the new folders (`fids`) and sounds (`sids`) get.
pub proof fn law_imported_records_refer_to_target_or_new_folders(
    entries: Seq<ImportEntry>,
    target_folder_id: Option<u128>,
    names: Seq<Seq<char>>,
    labels: Seq<Seq<char>>,
    fids: Seq<u128>,
    sids: Seq<u128>,
)
    requires
        crate::importing::entries_size(entries) <= usize::MAX,
    ensures
        ({
            let s = plan_entries(entries, FolderRef::Existing(target_folder_id), 0).0;
            let ex = crate::importing::executed(s, names, labels, fids, sids);
            &&& forall|k: int| 0 <= k < ex.0.len() ==> (#[trigger] ex.0[k]).0 == fids[k]
            &&& forall|k: int|
                0 <= k < ex.0.len() ==> (#[trigger] ex.0[k]).2 == target_folder_id || exists|j: int|
                    0 <= j < k && ex.0[k].2 == Some(ex.0[j].0)
            &&& forall|m: int|
                0 <= m < ex.1.len() ==> (#[trigger] ex.1[m]).folder_id == target_folder_id || exists|j: int|
                    0 <= j < ex.0.len() && ex.1[m].folder_id == Some(ex.0[j].0)
        }),
{
    let t = FolderRef::Existing(target_folder_id);
    crate::importing::lemma_plan_entries_refs(entries, t, 0);
    crate::importing::lemma_plan_entries_within(entries, t, 0);
    crate::importing::lemma_executed_parents(
        plan_entries(entries, t, 0).0,
        target_folder_id,
        names,
        labels,
        fids,
        sids,
    );
}

proof fn lemma_contains_iff_count(e: ImportEntry)
    ensures
        contains_audio(e) == (audio_count(e) > 0),
    decreases e,
{
    lemma_any_contains_iff_counts(e.children@);
}

proof fn lemma_any_contains_iff_counts(cs: Seq<ImportEntry>)
    ensures
        any_contains_audio(cs) == (audio_counts(cs) > 0),
    decreases cs,
{
    if cs.len() > 0 {
        lemma_any_contains_iff_counts(cs.drop_last());
        lemma_contains_iff_count(cs.last());
    }
}

/// A path holds a supported audio file exactly when counting its audio
/// files finds at least one: `path_contains_supported_audio(e) ==
/// (count_importable_audio_files(e) > 0)`.
pub proof fn law_contains_audio_iff_count(entry: ImportEntry)
    ensures
        contains_audio(entry) == (audio_count(entry) > 0),
{
    lemma_contains_iff_count(entry);
}


/// After an undo of a sound's trim settings, a redo hands back exactly the
/// settings the undo replaced, and a further undo hands back the settings
/// the first undo restored, wherever the sound's entries stand in the
/// histories and however full they are.
pub proof fn law_undo_redo_round_trip<D>(
    undo: Seq<TrimSnapshot<D>>,
    redo: Seq<TrimSnapshot<D>>,
    sound_id: u128,
    current: D,
)
    requires
        latest_snapshot(undo, sound_id) is Some,
    ensures
        ({
            let restored = latest_snapshot(undo, sound_id)->0;
            let redo1 = history_pushed(redo, TrimSnapshot { sound_id, data: current });
            let undo2 = history_pushed(
                snapshot_taken(undo, sound_id),
                TrimSnapshot { sound_id, data: restored.data },
            );
            &&& restored.sound_id == sound_id
            &&& latest_snapshot(redo1, sound_id) == Some(TrimSnapshot { sound_id, data: current })
            &&& latest_snapshot(undo2, sound_id) == Some(restored)
        }),
{
    crate::editor::lemma_last_snapshot_of(undo, sound_id);
    let restored = latest_snapshot(undo, sound_id)->0;
    let c = TrimSnapshot { sound_id, data: current };
    let redo1 = history_pushed(redo, c);
    assert(redo1.len() > 0 && redo1.last() == c);
    let u1 = snapshot_taken(undo, sound_id);
    let r = TrimSnapshot { sound_id, data: restored.data };
    let undo2 = history_pushed(u1, r);
    assert(undo2.len() > 0 && undo2.last() == r);
    assert(r == restored);
}


/// Undoing a recorded edit of the timeline restores the state before it,
/// and redoing it brings the edited state back: once an edit from `before`
/// to `current` is recorded (which empties the redo stack), an undo makes
/// the timeline `before`, and a redo makes it `current` again with both
/// stacks as they were after the edit.
pub proof fn law_timeline_undo_restores_edit<T>(undo: Seq<T>, before: T, current: T)
    ensures
        ({
            let u1 = history_pushed(undo, before);
            let a = timeline_undo_step(Some(current), u1, Seq::<T>::empty(), false);
            let b = timeline_undo_step(a.0, a.1, a.2, true);
            &&& a.0 == Some(before)
            &&& a.2 == seq![current]
            &&& b.0 == Some(current)
            &&& b.1 == u1
            &&& b.2.len() == 0
        }),
{
    let u1 = history_pushed(undo, before);
    let p = undo.push(before);
    if undo.len() + 1 > TRIM_HISTORY_LIMIT {
        assert(u1 =~= p.subrange(1, (undo.len() + 1) as int));
        assert(u1.last() == p.last());
    }
    assert(u1.len() > 0 && u1.last() == before);
    let a = timeline_undo_step(Some(current), u1, Seq::<T>::empty(), false);
    assert(a.2 =~= seq![current]);
    assert(a.1.push(before) =~= u1);
    let b = timeline_undo_step(a.0, a.1, a.2, true);
    assert(b.2 =~= Seq::<T>::empty());
}


/// Finishing an import moves only what the import placed directly in its
/// target: a sound placed elsewhere (in a sub-folder the import created)
/// keeps its folder, a sound placed in the target goes to the target that
/// still exists, and nothing else of a sound changes.
pub proof fn law_import_keeps_sounds_of_sub_folders(
    ss: Seq<SoundView>,
    target: Option<u128>,
    existing: Option<u128>,
)
    ensures
        crate::jobs::retargeted_sounds(ss, target, existing).len() == ss.len(),
        forall|m: int|
            0 <= m < ss.len() && ss[m].folder_id != target ==> #[trigger] crate::jobs::retargeted_sounds(
                ss,
                target,
                existing,
            )[m] == ss[m],
        forall|m: int|
            0 <= m < ss.len() && ss[m].folder_id == target ==> #[trigger] crate::jobs::retargeted_sounds(
                ss,
                target,
                existing,
            )[m] == (SoundView { folder_id: existing, ..ss[m] }),
{
}

/// Finishing an import keeps the shape of the imported folder tree: a folder
/// whose parent is another imported folder keeps that parent, a folder made
/// directly in the target goes under the target that still exists, and
/// nothing else of a folder changes.
pub proof fn law_import_keeps_nested_folders(
    fs: Seq<crate::model::Folder>,
    target: Option<u128>,
    existing: Option<u128>,
)
    ensures
        crate::jobs::retargeted_folders(fs, target, existing).len() == fs.len(),
        forall|k: int|
            0 <= k < fs.len() && fs[k].parent_id != target ==> #[trigger] crate::jobs::retargeted_folders(
                fs,
                target,
                existing,
            )[k] == fs[k],
        forall|k: int|
            0 <= k < fs.len() && fs[k].parent_id == target ==> #[trigger] crate::jobs::retargeted_folders(
                fs,
                target,
                existing,
            )[k] == (crate::model::Folder { parent_id: existing, ..fs[k] }),
{
}

/// A trim commit with the timeline closed (absent or switched off) commits
/// the selected sound when it exists; with the timeline switched on it
/// commits the timeline's sound when that exists.
pub proof fn law_commit_targets_selected_unless_timeline_open(app: SoundFxApp)
    ensures
        ({
            let resolved = crate::editor::anchor_sound_id(app, crate::jobs::commit_fallback(app));
            &&& !(app.trim_timeline_state is Some && app.trim_timeline_state->0.enabled) ==> forall|i: int|
                0 <= i < app.sounds@.len() && app.selected == Some(#[trigger] app.sounds@[i].id) ==> resolved
                    == app.sounds@[i].id
            &&& app.trim_timeline_state is Some && app.trim_timeline_state->0.enabled ==> forall|i: int|
                0 <= i < app.sounds@.len() && #[trigger] app.sounds@[i].id
                    == app.trim_timeline_state->0.sound_id ==> resolved == app.trim_timeline_state->0.sound_id
        }),
{
}

/// Every sound a library listing shows carries every selected tag filter,
/// up to ASCII case.
pub proof fn law_listed_sounds_carry_every_filter_tag(
    app: SoundFxApp,
    folder_id: Option<u128>,
    include_descendants: bool,
    direct: bool,
)
    ensures
        forall|k: int, f: int|
            #![trigger listed_sounds(app, folder_id, include_descendants, direct)[k], app.library_audio_tag_filters@[f]]
            0 <= k < listed_sounds(app, folder_id, include_descendants, direct).len() && 0 <= f
                < app.library_audio_tag_filters@.len() ==> has_tag(
                listed_sounds(app, folder_id, include_descendants, direct)[k].tags,
                app.library_audio_tag_filters@[f]@,
            ),
{
    law_listed_sounds_pass_filters(app, folder_id, include_descendants, direct);
    let l = listed_sounds(app, folder_id, include_descendants, direct);
    assert forall|k: int, f: int|
        #![trigger l[k], app.library_audio_tag_filters@[f]]
        0 <= k < l.len() && 0 <= f < app.library_audio_tag_filters@.len() implies has_tag(
        l[k].tags,
        app.library_audio_tag_filters@[f]@,
    ) by {
        assert(sound_listed(app, folder_id, include_descendants, direct, l[k]));
        assert(crate::model::strs(app.library_audio_tag_filters@)[f] == app.library_audio_tag_filters@[f]@);
        assert(has_tag(l[k].tags, crate::model::strs(app.library_audio_tag_filters@)[f]));
    }
}

/// While searching, a folder stays visible when a sound placed directly in
/// it matches the query, by its name or by one of its tags, carries every
/// selected tag filter and passes the favorites switch.
pub proof fn law_folder_with_matching_sound_stays_visible(app: SoundFxApp, id: u128, k: int)
    requires
        0 <= k < app.sounds@.len(),
        app.sounds@[k]@.folder_id == Some(id),
        app.folder_import_select_mode != Some(id),
        crate::text::spec_contains(spec_lower(app.sounds@[k]@.name), spec_normalize(app.library_audio_query@))
            || exists|t: int|
            0 <= t < app.sounds@[k]@.tags.len() && crate::text::spec_contains(
                spec_lower(#[trigger] app.sounds@[k]@.tags[t]),
                spec_normalize(app.library_audio_query@),
            ),
        forall|f: int|
            0 <= f < app.library_audio_tag_filters@.len() ==> has_tag(
                app.sounds@[k]@.tags,
                #[trigger] app.library_audio_tag_filters@[f]@,
            ),
        !app.library_favorites_only_audio || app.sounds@[k]@.favorite,
    ensures
        crate::folders::folder_has_hit(app, id),
        crate::folders::folder_exists(app.folders@, id) ==> crate::folders::folder_search_matches(app, id),
{
    let s = app.sounds@[k]@;
    assert(crate::tags::sound_query_matches(s, app.library_audio_query@));
    assert forall|f: int| 0 <= f < crate::model::strs(app.library_audio_tag_filters@).len() implies has_tag(
        s.tags,
        #[trigger] crate::model::strs(app.library_audio_tag_filters@)[f],
    ) by {
        assert(crate::model::strs(app.library_audio_tag_filters@)[f] == app.library_audio_tag_filters@[f]@);
    }
    assert(sound_listed(app, Some(id), false, true, app.sounds@[k]@));
    assert(crate::folders::folder_has_hit(app, id));
    if crate::folders::folder_exists(app.folders@, id) {
        assert(in_branch(app.folders@, id, id));
    }
}


/// Every element that satisfies the predicate is kept.
proof fn lemma_keep_includes<A>(s: Seq<A>, p: spec_fn(A) -> bool, i: int)
    requires
        0 <= i < s.len(),
        p(s[i]),
    ensures
        keep(s, p).contains(s[i]),
    decreases s.len(),
{
    let d = s.drop_last();
    if i < s.len() - 1 {
        assert(d[i] == s[i]);
        lemma_keep_includes(d, p, i);
        let j = choose|j: int| 0 <= j < keep(d, p).len() && keep(d, p)[j] == s[i];
        if p(s.last()) {
            assert(keep(s, p)[j] == keep(d, p)[j]);
        }
    } else {
        assert(keep(s, p).last() == s[i]);
    }
}

/// A library listing shows every sound of the library that lies in the
/// view and passes the search query, the tag filters and the favorites
/// switch.
pub proof fn law_listing_shows_every_passing_sound(
    app: SoundFxApp,
    folder_id: Option<u128>,
    include_descendants: bool,
    direct: bool,
    k: int,
)
    requires
        0 <= k < app.sounds@.len(),
        sound_listed(app, folder_id, include_descendants, direct, app.sounds@[k]@),
    ensures
        listed_sounds(app, folder_id, include_descendants, direct).contains(app.sounds@[k]@),
{
    let v = sound_views(app.sounds@);
    let fav = app.sounds@[k]@.favorite;
    let pf = listed_pred(app, folder_id, include_descendants, direct, true);
    let pr = listed_pred(app, folder_id, include_descendants, direct, false);
    assert(v[k] == app.sounds@[k]@);
    let l = listed_sounds(app, folder_id, include_descendants, direct);
    if fav {
        lemma_keep_includes(v, pf, k);
        let j = choose|j: int| 0 <= j < keep(v, pf).len() && keep(v, pf)[j] == v[k];
        assert(l[j] == keep(v, pf)[j]);
    } else {
        lemma_keep_includes(v, pr, k);
        let j = choose|j: int| 0 <= j < keep(v, pr).len() && keep(v, pr)[j] == v[k];
        assert(l[keep(v, pf).len() + j] == keep(v, pr)[j]);
    }
}

} // verus!
