use vstd::prelude::*;
use crate::model::{
    Folder, SoundEffect, SoundFxApp, SoundView, VideoAsset, count_false, keep, keep_indices,
    lemma_count_false_update, sound_views, strs,
};
use crate::tags::{
    normalized_chars, query_matches, sound_matches_normalized, sound_query_matches, spec_join,
    tags_match_filters,
};
use crate::text::{
    chars_of, eq_chars, lemma_lt_total, lemma_lt_transitive, lower_chars,
    lt_chars, seq_lt, spec_lower, spec_normalize,
};

verus! {

/// Folder `j` is the parent of folder `i`.
pub open spec fn child_of(fs: Seq<Folder>, i: int, j: int) -> bool {
    fs[i].parent_id == Some(fs[j].id)
}

/// Folder `i` lies below `root`, at most `k` links away from a direct child of it.
pub open spec fn reaches(fs: Seq<Folder>, root: u128, i: int, k: nat) -> bool
    decreases k,
{
    &&& 0 <= i < fs.len()
    &&& fs[i].parent_id is Some
    &&& (fs[i].parent_id->0 == root || (k > 0 && exists|j: int|
        0 <= j < fs.len() && #[trigger] child_of(fs, i, j) && reaches(fs, root, j, (k - 1) as nat)))
}

/// Folder `i` lies somewhere below `root`.
pub open spec fn below(fs: Seq<Folder>, root: u128, i: int) -> bool {
    exists|k: nat| reaches(fs, root, i, k)
}

/// `id` is `root` or the id of a folder below `root`: the branch of `root`.
pub open spec fn in_branch(fs: Seq<Folder>, root: u128, id: u128) -> bool {
    id == root || exists|i: int| 0 <= i < fs.len() && fs[i].id == id && below(fs, root, i)
}

proof fn lemma_reaches_marked(fs: Seq<Folder>, root: u128, marks: Seq<bool>, i: int, k: nat)
    requires
        marks.len() == fs.len(),
        reaches(fs, root, i, k),
        forall|j: int| 0 <= j < fs.len() && fs[j].parent_id == Some(root) ==> marks[j],
        forall|a: int, b: int|
            0 <= a < fs.len() && 0 <= b < fs.len() && marks[a] && #[trigger] child_of(fs, b, a)
                ==> marks[b],
    ensures
        marks[i],
    decreases k,
{
    if fs[i].parent_id->0 != root {
        let j = choose|j: int|
            0 <= j < fs.len() && #[trigger] child_of(fs, i, j) && reaches(
                fs,
                root,
                j,
                (k - 1) as nat,
            );
        lemma_reaches_marked(fs, root, marks, j, (k - 1) as nat);
    }
}

/// Marks the folders that lie below `root`.
fn branch_marks(folders: &Vec<Folder>, root: u128) -> (marks: Vec<bool>)
    ensures
        marks.len() == folders.len(),
        forall|i: int| 0 <= i < folders.len() ==> (marks[i] <==> below(folders@, root, i)),
{
    let n = folders.len();
    let ghost fs = folders@;
    let mut marks: Vec<bool> = Vec::new();
    let mut stack: Vec<usize> = Vec::new();
    let mut i: usize = 0;
    while i < n
        invariant
            n == fs.len(),
            fs == folders@,
            i <= n,
            marks.len() == i,
            forall|s: int| 0 <= s < stack.len() ==> stack@[s] < i && marks[stack@[s] as int],
            stack@.no_duplicates(),
            forall|j: int| 0 <= j < i ==> (marks[j] <==> fs[j].parent_id == Some(root)),
            forall|j: int| 0 <= j < i ==> (marks[j] ==> below(fs, root, j)),
            forall|j: int| 0 <= j < i && marks[j] ==> stack@.contains(j as usize),
        decreases n - i,
    {
        if folders[i].parent_id == Some(root) {
            proof {
                assert(reaches(fs, root, i as int, 0));
            }
            let ghost before = stack@;
            marks.push(true);
            stack.push(i);
            assert(stack@[stack.len() - 1] == i);
            assert forall|j: int| 0 <= j < i + 1 && marks[j] implies stack@.contains(j as usize) by {
                if j < i {
                    let s = choose|s: int| 0 <= s < before.len() && before[s] == j as usize;
                    assert(stack@[s] == j as usize);
                }
            };
        } else {
            marks.push(false);
        }
        i = i + 1;
    }
    while stack.len() > 0
        invariant
            n == fs.len(),
            fs == folders@,
            marks.len() == n,
            forall|s: int| 0 <= s < stack.len() ==> stack@[s] < n && marks[stack@[s] as int],
            stack@.no_duplicates(),
            forall|j: int| 0 <= j < n ==> (marks[j] ==> below(fs, root, j)),
            forall|j: int| 0 <= j < n && fs[j].parent_id == Some(root) ==> marks[j],
            forall|a: int, b: int|
                0 <= a < n && 0 <= b < n && marks[a] && !stack@.contains(a as usize)
                    && #[trigger] child_of(fs, b, a) ==> marks[b],
        decreases 2 * count_false(marks@) + stack.len(),
    {
        let ghost measure = 2 * count_false(marks@) + stack.len();
        let ghost pre = stack@;
        let p = stack.pop().unwrap();
        let ghost popped = stack@;
        assert(!popped.contains(p)) by {
            if popped.contains(p) {
                let s = choose|s: int| 0 <= s < popped.len() && popped[s] == p;
                assert(pre[s] == p);
            }
        };
        assert(pre =~= popped.push(p));
        assert forall|a: int| 0 <= a < n && a != p && !popped.contains(a as usize) implies !#[trigger] pre.contains(
            a as usize,
        ) by {
            if pre.contains(a as usize) {
                let s = choose|s: int| 0 <= s < pre.len() && pre[s] == a as usize;
                assert(popped[s] == a as usize);
            }
        };
        let pid = folders[p].id;
        let mut j: usize = 0;
        while j < n
            invariant
                n == fs.len(),
                fs == folders@,
                p < n,
                pid == fs[p as int].id,
                marks[p as int],
                j <= n,
                marks.len() == n,
                !stack@.contains(p),
                forall|s: int| 0 <= s < stack.len() ==> stack@[s] < n && marks[stack@[s] as int],
                stack@.no_duplicates(),
                forall|x: int| 0 <= x < n ==> (marks[x] ==> below(fs, root, x)),
                forall|x: int| 0 <= x < n && fs[x].parent_id == Some(root) ==> marks[x],
                forall|a: int, b: int|
                    0 <= a < n && 0 <= b < n && a != p && marks[a] && !stack@.contains(a as usize)
                        && #[trigger] child_of(fs, b, a) ==> marks[b],
                forall|b: int| 0 <= b < j && #[trigger] child_of(fs, b, p as int) ==> marks[b],
                2 * count_false(marks@) + stack.len() < measure,
            decreases n - j,
        {
            if folders[j].parent_id == Some(pid) && !marks[j] {
                proof {
                    let k = choose|k: nat| reaches(fs, root, p as int, k);
                    assert(child_of(fs, j as int, p as int));
                    assert(reaches(fs, root, j as int, k + 1));
                    lemma_count_false_update(marks@, j as int);
                }
                let ghost before = stack@;
                marks.set(j, true);
                stack.push(j);
                assert(stack@.no_duplicates()) by {
                    assert forall|x: int, y: int|
                        0 <= x < stack.len() && 0 <= y < stack.len() && x != y implies stack@[x]
                        != stack@[y] by {
                        if x < before.len() && y < before.len() {
                        } else if x == before.len() {
                            assert(marks@[before[y] as int]);
                        } else {
                            assert(marks@[before[x] as int]);
                        }
                    }
                };
                assert(!stack@.contains(p)) by {
                    if stack@.contains(p) {
                        let s = choose|s: int| 0 <= s < stack.len() && stack@[s] == p;
                        if s < before.len() {
                            assert(before.contains(p));
                        }
                    }
                };
                assert forall|a: int, b: int|
                    0 <= a < n && 0 <= b < n && a != p && marks[a] && !stack@.contains(a as usize)
                        && #[trigger] child_of(fs, b, a) implies marks[b] by {
                    if a == j {
                        assert(stack@[stack.len() - 1] == j);
                    } else {
                        assert(!before.contains(a as usize)) by {
                            if before.contains(a as usize) {
                                let s = choose|s: int|
                                    0 <= s < before.len() && before[s] == a as usize;
                                assert(stack@[s] == a as usize);
                            }
                        };
                    }
                };
            }
            j = j + 1;
        }
    }
    proof {
        assert forall|i: int| 0 <= i < n implies (marks[i] <==> below(fs, root, i)) by {
            if below(fs, root, i) {
                let k = choose|k: nat| reaches(fs, root, i, k);
                lemma_reaches_marked(fs, root, marks@, i, k);
            }
        }
    }
    marks
}

} // verus!

verus! {

// ---------------------------------------------------------------------------
// Looking folders up
// ---------------------------------------------------------------------------

/// The index of the first folder with id `id` at or after `k`.
pub open spec fn find_folder_from(fs: Seq<Folder>, id: u128, k: int) -> Option<int>
    decreases fs.len() - k,
{
    if k < 0 || k >= fs.len() {
        None
    } else if fs[k].id == id {
        Some(k)
    } else {
        find_folder_from(fs, id, k + 1)
    }
}

/// The index of the first folder with id `id`.
pub open spec fn find_folder(fs: Seq<Folder>, id: u128) -> Option<int> {
    find_folder_from(fs, id, 0)
}

/// `find_folder_from` finds the first folder with the id from position `k` on.
pub proof fn lemma_find_folder_from(fs: Seq<Folder>, id: u128, k: int)
    requires
        0 <= k,
    ensures
        match find_folder_from(fs, id, k) {
            Some(i) => k <= i < fs.len() && fs[i].id == id && forall|j: int|
                k <= j < i ==> fs[j].id != id,
            None => forall|j: int| k <= j < fs.len() ==> fs[j].id != id,
        },
    decreases fs.len() - k,
{
    if k < fs.len() && fs[k].id != id {
        lemma_find_folder_from(fs, id, k + 1);
    }
}

/// `find_folder` finds the first folder with the id, if any.
pub proof fn lemma_find_folder(fs: Seq<Folder>, id: u128)
    ensures
        match find_folder(fs, id) {
            Some(i) => 0 <= i < fs.len() && fs[i].id == id && forall|j: int|
                0 <= j < i ==> fs[j].id != id,
            None => forall|j: int| 0 <= j < fs.len() ==> fs[j].id != id,
        },
{
    lemma_find_folder_from(fs, id, 0);
}

/// Some folder has id `id`.
pub open spec fn folder_exists(fs: Seq<Folder>, id: u128) -> bool {
    exists|i: int| 0 <= i < fs.len() && fs[i].id == id
}

/// The index of the first folder with id `id`.
pub fn find_folder_index(folders: &Vec<Folder>, id: u128) -> (r: Option<usize>)
    ensures
        match r {
            Some(i) => find_folder(folders@, id) == Some(i as int),
            None => find_folder(folders@, id) is None,
        },
        r is Some <==> folder_exists(folders@, id),
{
    proof {
        lemma_find_folder(folders@, id);
    }
    let mut i: usize = 0;
    while i < folders.len()
        invariant
            i <= folders.len(),
            forall|j: int| 0 <= j < i ==> folders@[j].id != id,
        decreases folders.len() - i,
    {
        if folders[i].id == id {
            proof {
                lemma_find_folder(folders@, id);
            }
            return Some(i);
        }
        i = i + 1;
    }
    None
}

/// Whether the id occurs in `ids`.
pub fn contains_id(ids: &Vec<u128>, id: u128) -> (r: bool)
    ensures
        r == ids@.contains(id),
{
    let mut i: usize = 0;
    while i < ids.len()
        invariant
            i <= ids.len(),
            forall|j: int| 0 <= j < i ==> ids@[j] != id,
        decreases ids.len() - i,
    {
        if ids[i] == id {
            return true;
        }
        i = i + 1;
    }
    false
}

/// The number of sounds placed in folder `folder_id` (`None`: at the root).
pub open spec fn count_in_folder(sounds: Seq<SoundView>, folder_id: Option<u128>) -> nat
    decreases sounds.len(),
{
    if sounds.len() == 0 {
        0
    } else {
        count_in_folder(sounds.drop_last(), folder_id) + if sounds.last().folder_id == folder_id {
            1nat
        } else {
            0nat
        }
    }
}

/// The number of sounds placed in a folder of the branch of `root`.
pub open spec fn count_in_branch(fs: Seq<Folder>, sounds: Seq<SoundView>, root: u128) -> nat
    decreases sounds.len(),
{
    if sounds.len() == 0 {
        0
    } else {
        count_in_branch(fs, sounds.drop_last(), root) + if sounds.last().folder_id is Some
            && in_branch(fs, root, sounds.last().folder_id->0) {
            1nat
        } else {
            0nat
        }
    }
}

/// The names of the folders from the top of the tree down to `id`, following
/// parent links for at most `fuel` steps.
pub open spec fn path_names(fs: Seq<Folder>, id: u128, fuel: nat) -> Seq<Seq<char>>
    decreases fuel,
{
    if fuel == 0 {
        Seq::empty()
    } else {
        match find_folder(fs, id) {
            None => Seq::empty(),
            Some(i) => match fs[i].parent_id {
                None => seq![fs[i].name@],
                Some(p) => path_names(fs, p, (fuel - 1) as nat).push(fs[i].name@),
            },
        }
    }
}

/// The separator of a folder path label.
pub open spec fn path_separator() -> Seq<char> {
    seq![' ', '/', ' ']
}

/// The folders whose parent is `parent_id`, in library order.
pub open spec fn children_of(fs: Seq<Folder>, parent_id: Option<u128>) -> Seq<Folder>
    decreases fs.len(),
{
    if fs.len() == 0 {
        Seq::empty()
    } else {
        let r = children_of(fs.drop_last(), parent_id);
        if fs.last().parent_id == parent_id {
            r.push(fs.last())
        } else {
            r
        }
    }
}

/// Folder order in listings: by lower-case name, then by name.
pub open spec fn folder_name_lt(a: Seq<char>, b: Seq<char>) -> bool {
    seq_lt(spec_lower(a), spec_lower(b)) || (spec_lower(a) == spec_lower(b) && seq_lt(a, b))
}

/// `r` is `s` sorted by name as `sort_by` sorts: by `folder_name_lt`, and
/// folders with equal names keep their order.
pub open spec fn sorted_by_name(r: Seq<Folder>, s: Seq<Folder>) -> bool {
    exists|p: Seq<int>|
        #![trigger p.len()]
        p.len() == s.len() && r.len() == s.len() && (forall|i: int|
            0 <= i < p.len() ==> 0 <= #[trigger] p[i] < s.len() && r[i] == s[p[i]]) && (forall|
            i: int,
            j: int,
        | 0 <= i < j < p.len() ==> #[trigger] p[i] != #[trigger] p[j]) && (forall|i: int, j: int|
            0 <= i < j < r.len() ==> folder_name_lt(#[trigger] r[i].name@, #[trigger] r[j].name@)
                || (r[i].name@ == r[j].name@ && p[i] < p[j]))
}

} // verus!

verus! {

/// Folder `id` has at least one child folder.
pub open spec fn has_child(fs: Seq<Folder>, id: u128) -> bool {
    exists|j: int| 0 <= j < fs.len() && fs[j].parent_id == Some(id)
}

/// The folder ids that are collapsed when the tree is reset: those of folders
/// that have children.
pub open spec fn collapsed_by_default(fs: Seq<Folder>, id: u128) -> bool {
    exists|i: int| 0 <= i < fs.len() && fs[i].id == id && has_child(fs, fs[i].id)
}

/// Folders with different names are ordered one way or the other.
pub proof fn lemma_folder_lt_total(a: Seq<char>, b: Seq<char>)
    requires
        a != b,
    ensures
        folder_name_lt(a, b) || folder_name_lt(b, a),
{
    if spec_lower(a) != spec_lower(b) {
        lemma_lt_total(spec_lower(a), spec_lower(b));
    } else {
        lemma_lt_total(a, b);
    }
}

/// The folder order is transitive.
pub proof fn lemma_folder_lt_transitive(a: Seq<char>, b: Seq<char>, c: Seq<char>)
    requires
        folder_name_lt(a, b),
        folder_name_lt(b, c),
    ensures
        folder_name_lt(a, c),
{
    if seq_lt(spec_lower(a), spec_lower(b)) && seq_lt(spec_lower(b), spec_lower(c)) {
        lemma_lt_transitive(spec_lower(a), spec_lower(b), spec_lower(c));
    } else if spec_lower(a) == spec_lower(b) && spec_lower(b) == spec_lower(c) {
        lemma_lt_transitive(a, b, c);
    }
}

/// Whether `a` sorts before `b` in folder listings.
fn folder_lt(a: &String, b: &String) -> (r: bool)
    ensures
        r == folder_name_lt(a@, b@),
{
    let x = chars_of(a.as_str());
    let y = chars_of(b.as_str());
    let lx = lower_chars(&x);
    let ly = lower_chars(&y);
    if lt_chars(&lx, &ly) {
        true
    } else if eq_chars(&lx, &ly) {
        lt_chars(&x, &y)
    } else {
        false
    }
}

/// The names of the folders from the top of the tree down to `id`.
fn path_names_exec(folders: &Vec<Folder>, id: u128, fuel: usize) -> (r: Vec<String>)
    ensures
        strs(r@) == path_names(folders@, id, fuel as nat),
    decreases fuel,
{
    if fuel == 0 {
        return Vec::new();
    }
    let found = find_folder_index(folders, id);
    proof {
        lemma_find_folder(folders@, id);
    }
    match found {
        None => Vec::new(),
        Some(i) => match folders[i].parent_id {
            None => {
                let mut r: Vec<String> = Vec::new();
                r.push(folders[i].name.clone());
                assert(strs(r@) =~= seq![folders@[i as int].name@]);
                r
            },
            Some(p) => {
                let mut r = path_names_exec(folders, p, fuel - 1);
                let ghost before = strs(r@);
                r.push(folders[i].name.clone());
                assert(strs(r@) =~= before.push(folders@[i as int].name@));
                r
            },
        },
    }
}

/// The strings joined with `" / "`.
fn join_path(parts: &Vec<String>) -> (r: String)
    ensures
        r@ == spec_join(strs(parts@), path_separator()),
{
    let mut r = String::new();
    let mut i: usize = 0;
    while i < parts.len()
        invariant
            i <= parts.len(),
            r@ == spec_join(strs(parts@).take(i as int), path_separator()),
        decreases parts.len() - i,
    {
        assert(strs(parts@).take(i + 1).drop_last() =~= strs(parts@).take(i as int));
        if i > 0 {
            proof {
                reveal_strlit(" / ");
            }
            r.append(" / ");
            assert(" / "@ =~= path_separator());
        }
        r.append(parts[i].as_str());
        i = i + 1;
    }
    assert(strs(parts@).take(parts.len() as int) =~= strs(parts@));
    r
}

impl SoundFxApp {
    /// The ids of the branch of `root_id`: the folder itself and every folder below it.
    pub fn folder_branch_ids(&self, root_id: u128) -> (ids: Vec<u128>)
        ensures
            forall|id: u128| ids@.contains(id) <==> in_branch(self.folders@, root_id, id),
            ids@.no_duplicates(),
    {
        let marks = branch_marks(&self.folders, root_id);
        let ghost fs = self.folders@;
        let mut ids: Vec<u128> = Vec::new();
        ids.push(root_id);
        assert forall|id: u128| ids@.contains(id) <==> id == root_id by {
            if id == root_id {
                assert(ids@[0] == id);
            }
        }
        let mut i: usize = 0;
        while i < self.folders.len()
            invariant
                i <= self.folders.len(),
                fs == self.folders@,
                marks.len() == fs.len(),
                forall|k: int| 0 <= k < fs.len() ==> (marks[k] <==> below(fs, root_id, k)),
                forall|id: u128|
                    ids@.contains(id) <==> (id == root_id || exists|k: int|
                        0 <= k < i && marks[k] && fs[k].id == id),
                ids@.no_duplicates(),
            decreases self.folders.len() - i,
        {
            if marks[i] && !contains_id(&ids, self.folders[i].id) {
                let ghost before = ids@;
                ids.push(self.folders[i].id);
                assert forall|id: u128|
                    ids@.contains(id) <==> (id == root_id || exists|k: int|
                        0 <= k < i + 1 && marks[k] && fs[k].id == id) by {
                    if ids@.contains(id) {
                        let s = choose|s: int| 0 <= s < ids@.len() && ids@[s] == id;
                        if s < before.len() {
                            assert(before.contains(id));
                        }
                    }
                    if exists|k: int| 0 <= k < i + 1 && marks[k] && fs[k].id == id {
                        let k = choose|k: int| 0 <= k < i + 1 && marks[k] && fs[k].id == id;
                        if k < i {
                            assert(before.contains(id));
                            let s = choose|s: int| 0 <= s < before.len() && before[s] == id;
                            assert(ids@[s] == id);
                        } else {
                            assert(ids@[before.len() as int] == id);
                        }
                    }
                    if id == root_id {
                        assert(before.contains(id));
                        let s = choose|s: int| 0 <= s < before.len() && before[s] == id;
                        assert(ids@[s] == id);
                    }
                }
                assert(ids@.no_duplicates()) by {
                    assert forall|a: int, b: int| 0 <= a < b < ids@.len() implies ids@[a] != ids@[b] by {
                        if b == before.len() {
                            assert(before.contains(before[a]));
                        }
                    }
                }
            } else if marks[i] {
                let ghost id_i = fs[i as int].id;
                assert forall|id: u128|
                    ids@.contains(id) <==> (id == root_id || exists|k: int|
                        0 <= k < i + 1 && marks[k] && fs[k].id == id) by {
                    if id == id_i {
                        assert(ids@.contains(id));
                    }
                }
            }
            i = i + 1;
        }
        ids
    }

    /// The number of sounds placed directly in the folder.
    pub fn direct_sound_count_for_folder(&self, folder_id: u128) -> (r: usize)
        ensures
            r == count_in_folder(sound_views(self.sounds@), Some(folder_id)),
    {
        let ghost v = sound_views(self.sounds@);
        let mut count: usize = 0;
        let mut i: usize = 0;
        while i < self.sounds.len()
            invariant
                i <= self.sounds.len(),
                v == sound_views(self.sounds@),
                count == count_in_folder(v.take(i as int), Some(folder_id)),
                count <= i,
            decreases self.sounds.len() - i,
        {
            assert(v.take(i + 1).drop_last() =~= v.take(i as int));
            if self.sounds[i].folder_id == Some(folder_id) {
                count = count + 1;
            }
            i = i + 1;
        }
        assert(v.take(v.len() as int) =~= v);
        count
    }

    /// The number of sounds placed anywhere in the branch of the folder.
    pub fn total_sound_count_for_folder(&self, folder_id: u128) -> (r: usize)
        ensures
            r == count_in_branch(self.folders@, sound_views(self.sounds@), folder_id),
    {
        let ids = self.folder_branch_ids(folder_id);
        let ghost v = sound_views(self.sounds@);
        let mut count: usize = 0;
        let mut i: usize = 0;
        while i < self.sounds.len()
            invariant
                i <= self.sounds.len(),
                v == sound_views(self.sounds@),
                forall|id: u128| ids@.contains(id) <==> in_branch(self.folders@, folder_id, id),
                count == count_in_branch(self.folders@, v.take(i as int), folder_id),
                count <= i,
            decreases self.sounds.len() - i,
        {
            assert(v.take(i + 1).drop_last() =~= v.take(i as int));
            match self.sounds[i].folder_id {
                Some(f) => {
                    if contains_id(&ids, f) {
                        count = count + 1;
                    }
                },
                None => {},
            }
            i = i + 1;
        }
        assert(v.take(v.len() as int) =~= v);
        count
    }

    /// The folder's path from the top of the tree, names joined by `" / "`.
    /// The walk up stops at a missing parent, and after as many steps as there
    /// are folders (only parent links that form a cycle need that many).
    pub fn folder_path_label(&self, folder_id: u128) -> (r: String)
        requires
            self.folders.len() < usize::MAX,
        ensures
            r@ == spec_join(
                path_names(self.folders@, folder_id, (self.folders.len() + 1) as nat),
                path_separator(),
            ),
    {
        let names = path_names_exec(&self.folders, folder_id, self.folders.len() + 1);
        join_path(&names)
    }

    /// The child folders of `parent_id` (`None`: top level), sorted by name
    /// ignoring ASCII case, then by name.
    pub fn sorted_child_folders(&self, parent_id: Option<u128>) -> (r: Vec<Folder>)
        ensures
            sorted_by_name(r@, children_of(self.folders@, parent_id)),
    {
        let mut children: Vec<Folder> = Vec::new();
        let mut i: usize = 0;
        while i < self.folders.len()
            invariant
                i <= self.folders.len(),
                children@ == children_of(self.folders@.take(i as int), parent_id),
            decreases self.folders.len() - i,
        {
            assert(self.folders@.take(i + 1).drop_last() =~= self.folders@.take(i as int));
            if self.folders[i].parent_id == parent_id {
                children.push(self.folders[i].clone());
            }
            i = i + 1;
        }
        assert(self.folders@.take(self.folders.len() as int) =~= self.folders@);
        let ghost s = children@;
        let mut r: Vec<Folder> = Vec::new();
        let ghost mut perm: Seq<int> = Seq::empty();
        let mut k: usize = 0;
        while k < children.len()
            invariant
                k <= children.len(),
                s == children@,
                perm.len() == k,
                r.len() == k,
                forall|x: int| 0 <= x < k ==> 0 <= #[trigger] perm[x] < k && r@[x] == s[perm[x]],
                forall|x: int, y: int| 0 <= x < y < k ==> #[trigger] perm[x] != #[trigger] perm[y],
                forall|x: int, y: int|
                    0 <= x < y < k ==> folder_name_lt(#[trigger] r@[x].name@, #[trigger] r@[y].name@)
                        || (r@[x].name@ == r@[y].name@ && perm[x] < perm[y]),
            decreases children.len() - k,
        {
            let mut q: usize = 0;
            while q < r.len() && !folder_lt(&children[k].name, &r[q].name)
                invariant
                    q <= r.len(),
                    k < children.len(),
                    s == children@,
                    forall|x: int| 0 <= x < q ==> !folder_name_lt(s[k as int].name@, #[trigger] r@[x].name@),
                decreases r.len() - q,
            {
                q = q + 1;
            }
            let ghost old_r = r@;
            let ghost old_p = perm;
            let ghost nk = s[k as int];
            proof {
                assert forall|x: int| 0 <= x < q implies folder_name_lt(old_r[x].name@, nk.name@) || (
                old_r[x].name@ == nk.name@ && old_p[x] < k) by {
                    if old_r[x].name@ != nk.name@ {
                        lemma_folder_lt_total(old_r[x].name@, nk.name@);
                    }
                }
                assert forall|x: int| q <= x < old_r.len() implies folder_name_lt(nk.name@, old_r[x].name@) by {
                    if x > q {
                        if folder_name_lt(old_r[q as int].name@, old_r[x].name@) {
                            lemma_folder_lt_transitive(nk.name@, old_r[q as int].name@, old_r[x].name@);
                        }
                    }
                }
            }
            r.insert(q, children[k].clone());
            proof {
                old_r.insert_ensures(q as int, nk);
                old_p.insert_ensures(q as int, k as int);
                perm = old_p.insert(q as int, k as int);
                let nr = r@;
                assert forall|x: int| 0 <= x < k + 1 implies 0 <= #[trigger] perm[x] < k + 1 && nr[x] == s[perm[x]] by {
                    if x > q {
                        assert(perm[x] == old_p[x - 1]);
                        assert(nr[x] == old_r[x - 1]);
                    }
                }
                assert forall|x: int, y: int| 0 <= x < y < k + 1 implies #[trigger] perm[x] != #[trigger] perm[y] by {
                    if x > q {
                        assert(perm[x] == old_p[x - 1]);
                    }
                    if y > q {
                        assert(perm[y] == old_p[y - 1]);
                    }
                }
                assert forall|x: int, y: int| 0 <= x < y < k + 1 implies folder_name_lt(#[trigger] nr[x].name@, #[trigger] nr[y].name@)
                    || (nr[x].name@ == nr[y].name@ && perm[x] < perm[y]) by {
                    if y < q {
                    } else if y == q {
                    } else if x < q {
                        assert(nr[y] == old_r[y - 1]);
                        assert(perm[y] == old_p[y - 1]);
                        assert(nr[x] == old_r[x]);
                        assert(perm[x] == old_p[x]);
                        if folder_name_lt(nr[x].name@, nk.name@) {
                            lemma_folder_lt_transitive(nr[x].name@, nk.name@, nr[y].name@);
                        } else {
                            assert(nr[x].name@ == nk.name@);
                        }
                    } else if x == q {
                        assert(nr[y] == old_r[y - 1]);
                    } else {
                        assert(nr[x] == old_r[x - 1]);
                        assert(nr[y] == old_r[y - 1]);
                        assert(perm[x] == old_p[x - 1]);
                        assert(perm[y] == old_p[y - 1]);
                    }
                }
            }
            k = k + 1;
        }
        assert(perm.len() == s.len());
        r
    }

    /// The ids of the folders that have child folders; these start collapsed.
    pub fn default_library_collapsed_folders(&self) -> (r: Vec<u128>)
        ensures
            forall|id: u128| r@.contains(id) <==> collapsed_by_default(self.folders@, id),
            r@.no_duplicates(),
    {
        let ghost fs = self.folders@;
        let mut r: Vec<u128> = Vec::new();
        let mut i: usize = 0;
        while i < self.folders.len()
            invariant
                i <= self.folders.len(),
                fs == self.folders@,
                forall|id: u128|
                    r@.contains(id) <==> exists|k: int|
                        0 <= k < i && fs[k].id == id && has_child(fs, fs[k].id),
                r@.no_duplicates(),
            decreases self.folders.len() - i,
        {
            let id = self.folders[i].id;
            let mut j: usize = 0;
            let mut found = false;
            while j < self.folders.len()
                invariant
                    j <= self.folders.len(),
                    fs == self.folders@,
                    found <==> exists|x: int| 0 <= x < j && fs[x].parent_id == Some(id),
                decreases self.folders.len() - j,
            {
                if self.folders[j].parent_id == Some(id) {
                    found = true;
                }
                j = j + 1;
            }
            if found && contains_id(&r, id) {
                assert forall|x: u128|
                    r@.contains(x) <==> exists|k: int|
                        0 <= k < i + 1 && fs[k].id == x && has_child(fs, fs[k].id) by {
                    if x == id {
                        assert(has_child(fs, fs[i as int].id));
                    }
                }
            } else if found {
                let ghost before = r@;
                r.push(id);
                assert(r@.no_duplicates()) by {
                    assert forall|a: int, b: int| 0 <= a < b < r@.len() implies r@[a] != r@[b] by {
                        if b == before.len() {
                            assert(before.contains(before[a]));
                        }
                    }
                }
                assert forall|x: u128|
                    r@.contains(x) <==> exists|k: int|
                        0 <= k < i + 1 && fs[k].id == x && has_child(fs, fs[k].id) by {
                    if r@.contains(x) {
                        let s = choose|s: int| 0 <= s < r@.len() && r@[s] == x;
                        if s < before.len() {
                            assert(before.contains(x));
                        }
                    }
                    if exists|k: int| 0 <= k < i + 1 && fs[k].id == x && has_child(fs, fs[k].id) {
                        let k = choose|k: int| 0 <= k < i + 1 && fs[k].id == x && has_child(fs, fs[k].id);
                        if k < i {
                            assert(before.contains(x));
                            let s = choose|s: int| 0 <= s < before.len() && before[s] == x;
                            assert(r@[s] == x);
                        } else {
                            assert(r@[before.len() as int] == x);
                        }
                    }
                }
            } else {
                assert forall|x: u128|
                    r@.contains(x) <==> exists|k: int|
                        0 <= k < i + 1 && fs[k].id == x && has_child(fs, fs[k].id) by {
                    if exists|k: int| 0 <= k < i + 1 && fs[k].id == x && has_child(fs, fs[k].id) {
                        let k = choose|k: int| 0 <= k < i + 1 && fs[k].id == x && has_child(fs, fs[k].id);
                        if k == i {
                            let w = choose|w: int| 0 <= w < fs.len() && fs[w].parent_id == Some(fs[k].id);
                            assert(false);
                        }
                    }
                }
            }
            i = i + 1;
        }
        r
    }
}

} // verus!

verus! {

/// The ids a folder scope accepts: the folder's branch, or the folder alone.
pub open spec fn scope_accepts(
    fs: Seq<Folder>,
    root: u128,
    include_descendants: bool,
    id: u128,
) -> bool {
    if include_descendants {
        in_branch(fs, root, id)
    } else {
        id == root
    }
}

/// Whether the sound lies in the listed part of the tree: outside the folder
/// being imported into when the import picker is open; otherwise in the given
/// folder (with its descendants, or placed directly in it when `direct`), or
/// anywhere when no folder is given (and not `direct`).
pub open spec fn sound_in_scope(
    app: SoundFxApp,
    folder_id: Option<u128>,
    include_descendants: bool,
    direct: bool,
    s: SoundView,
) -> bool {
    match app.folder_import_select_mode {
        Some(m) => s.folder_id != Some(m),
        None => if direct {
            s.folder_id == folder_id
        } else {
            match folder_id {
                None => true,
                Some(root) => s.folder_id is Some && scope_accepts(
                    app.folders@,
                    root,
                    include_descendants,
                    s.folder_id->0,
                ),
            }
        },
    }
}

/// Whether the sound passes the search query, the tag filters and the
/// favorites-only switch of the sound library.
pub open spec fn sound_passes_filters(app: SoundFxApp, s: SoundView) -> bool {
    &&& sound_query_matches(s, app.library_audio_query@)
    &&& tags_match_filters(s.tags, strs(app.library_audio_tag_filters@))
    &&& (!app.library_favorites_only_audio || s.favorite)
}

/// Whether the sound is listed.
pub open spec fn sound_listed(
    app: SoundFxApp,
    folder_id: Option<u128>,
    include_descendants: bool,
    direct: bool,
    s: SoundView,
) -> bool {
    sound_in_scope(app, folder_id, include_descendants, direct, s) && sound_passes_filters(app, s)
}

/// Listed sounds that are (`fav`) or are not favorites.
pub open spec fn listed_pred(
    app: SoundFxApp,
    folder_id: Option<u128>,
    include_descendants: bool,
    direct: bool,
    fav: bool,
) -> spec_fn(SoundView) -> bool {
    |s: SoundView| sound_listed(app, folder_id, include_descendants, direct, s) && s.favorite == fav
}

/// Listed videos that are (`fav`) or are not favorites.
pub open spec fn video_pred(app: SoundFxApp, fav: bool) -> spec_fn(VideoAsset) -> bool {
    |v: VideoAsset|
        query_matches(v.name@, app.library_video_query@) && (!app.library_favorites_only_video
            || v.favorite) && v.favorite == fav
}

/// The listed sounds, favorites first, each group in library order.
pub open spec fn listed_sounds(
    app: SoundFxApp,
    folder_id: Option<u128>,
    include_descendants: bool,
    direct: bool,
) -> Seq<SoundView> {
    keep(sound_views(app.sounds@), listed_pred(app, folder_id, include_descendants, direct, true))
        + keep(
        sound_views(app.sounds@),
        listed_pred(app, folder_id, include_descendants, direct, false),
    )
}

/// The positions of the listed sounds, favorites first, each group in library order.
pub open spec fn listed_sound_indices(
    app: SoundFxApp,
    folder_id: Option<u128>,
    include_descendants: bool,
) -> Seq<usize> {
    keep_indices(
        sound_views(app.sounds@),
        listed_pred(app, folder_id, include_descendants, false, true),
    ) + keep_indices(
        sound_views(app.sounds@),
        listed_pred(app, folder_id, include_descendants, false, false),
    )
}

/// A search query is entered.
pub open spec fn search_active(app: SoundFxApp) -> bool {
    spec_normalize(app.library_audio_query@).len() > 0
}

/// The folder itself matches the search: its name does, or a sound placed
/// directly in it is listed.
pub open spec fn folder_has_hit(app: SoundFxApp, id: u128) -> bool {
    ||| (match find_folder(app.folders@, id) {
        Some(i) => query_matches(app.folders@[i].name@, app.library_audio_query@),
        None => false,
    })
    ||| exists|k: int|
        0 <= k < app.sounds@.len() && sound_listed(app, Some(id), false, true, #[trigger] app.sounds@[k]@)
}

/// The folder stays visible while searching: no query is entered, or the
/// folder exists and something in its branch matches.
pub open spec fn folder_search_matches(app: SoundFxApp, id: u128) -> bool {
    ||| !search_active(app)
    ||| (folder_exists(app.folders@, id) && exists|x: u128|
        in_branch(app.folders@, id, x) && #[trigger] folder_has_hit(app, x))
}

/// Folders that stay visible while searching.
pub open spec fn search_pred(app: SoundFxApp) -> spec_fn(Folder) -> bool {
    |f: Folder| folder_search_matches(app, f.id)
}

/// The listed videos, favorites first, each group in library order.
pub open spec fn listed_videos(app: SoundFxApp) -> Seq<VideoAsset> {
    keep(app.video_assets@, video_pred(app, true)) + keep(app.video_assets@, video_pred(app, false))
}

impl SoundFxApp {
    /// Whether sound `i` is listed; `ids` are the ids the folder scope accepts.
    fn sound_listed_at(
        &self,
        i: usize,
        folder_id: Option<u128>,
        include_descendants: bool,
        direct: bool,
        ids: &Vec<u128>,
        q: &Vec<char>,
    ) -> (r: bool)
        requires
            i < self.sounds.len(),
            q@ == spec_normalize(self.library_audio_query@),
            folder_id is Some ==> forall|id: u128|
                ids@.contains(id) <==> scope_accepts(
                    self.folders@,
                    folder_id->0,
                    include_descendants,
                    id,
                ),
        ensures
            r == sound_listed(*self, folder_id, include_descendants, direct, self.sounds@[i as int]@),
    {
        let sound = &self.sounds[i];
        let in_scope = match self.folder_import_select_mode {
            Some(m) => sound.folder_id != Some(m),
            None => if direct {
                sound.folder_id == folder_id
            } else {
                match folder_id {
                    None => true,
                    Some(_) => match sound.folder_id {
                        Some(f) => contains_id(ids, f),
                        None => false,
                    },
                }
            },
        };
        if !in_scope {
            return false;
        }
        if !sound_matches_normalized(sound, q) {
            return false;
        }
        if !Self::sound_tag_matches_filters(&sound.tags, &self.library_audio_tag_filters) {
            return false;
        }
        !self.library_favorites_only_audio || sound.favorite
    }

    /// The ids accepted by the scope of `folder_id`.
    fn scope_ids(&self, folder_id: Option<u128>, include_descendants: bool) -> (ids: Vec<u128>)
        ensures
            folder_id is Some ==> forall|id: u128|
                ids@.contains(id) <==> scope_accepts(
                    self.folders@,
                    folder_id->0,
                    include_descendants,
                    id,
                ),
    {
        match folder_id {
            None => Vec::new(),
            Some(root) => {
                if include_descendants {
                    self.folder_branch_ids(root)
                } else {
                    let mut ids: Vec<u128> = Vec::new();
                    ids.push(root);
                    assert forall|id: u128| ids@.contains(id) <==> id == root by {
                        if id == root {
                            assert(ids@[0] == id);
                        }
                    }
                    ids
                }
            },
        }
    }

    /// The listed sounds, favorites first.
    fn listed_sounds_exec(&self, folder_id: Option<u128>, include_descendants: bool, direct: bool) -> (r: Vec<SoundEffect>)
        ensures
            sound_views(r@) == listed_sounds(*self, folder_id, include_descendants, direct),
    {
        let ids = self.scope_ids(folder_id, include_descendants);
        let q = normalized_chars(self.library_audio_query.as_str());
        let ghost v = sound_views(self.sounds@);
        let ghost pf = listed_pred(*self, folder_id, include_descendants, direct, true);
        let ghost pr = listed_pred(*self, folder_id, include_descendants, direct, false);
        let mut favorites: Vec<SoundEffect> = Vec::new();
        let mut regular: Vec<SoundEffect> = Vec::new();
        let mut i: usize = 0;
        while i < self.sounds.len()
            invariant
                i <= self.sounds.len(),
                v == sound_views(self.sounds@),
                q@ == spec_normalize(self.library_audio_query@),
                folder_id is Some ==> forall|id: u128|
                    ids@.contains(id) <==> scope_accepts(
                        self.folders@,
                        folder_id->0,
                        include_descendants,
                        id,
                    ),
                pf == listed_pred(*self, folder_id, include_descendants, direct, true),
                pr == listed_pred(*self, folder_id, include_descendants, direct, false),
                sound_views(favorites@) == keep(v.take(i as int), pf),
                sound_views(regular@) == keep(v.take(i as int), pr),
            decreases self.sounds.len() - i,
        {
            assert(v.take(i + 1).drop_last() =~= v.take(i as int));
            assert(v.take(i + 1).last() == self.sounds@[i as int]@);
            assert(keep(v.take(i + 1), pf) == (if pf(v[i as int]) { keep(v.take(i as int), pf).push(v[i as int]) } else { keep(v.take(i as int), pf) }));
            assert(keep(v.take(i + 1), pr) == (if pr(v[i as int]) { keep(v.take(i as int), pr).push(v[i as int]) } else { keep(v.take(i as int), pr) }));
            if self.sound_listed_at(i, folder_id, include_descendants, direct, &ids, &q) {
                let c = self.sounds[i].clone();
                if self.sounds[i].favorite {
                    let ghost before = favorites@;
                    favorites.push(c);
                    assert(sound_views(favorites@) =~= sound_views(before).push(c@));
                } else {
                    let ghost before = regular@;
                    regular.push(c);
                    assert(sound_views(regular@) =~= sound_views(before).push(c@));
                }
            }
            i = i + 1;
        }
        assert(v.take(v.len() as int) =~= v);
        let ghost f = favorites@;
        let ghost g = regular@;
        favorites.append(&mut regular);
        assert(sound_views(favorites@) =~= sound_views(f) + sound_views(g));
        favorites
    }

    /// Whether a search query is entered.
    pub fn library_search_active(&self) -> (r: bool)
        ensures
            r == search_active(*self),
    {
        let q = normalized_chars(self.library_audio_query.as_str());
        q.len() > 0
    }

    /// Whether the folder's name matches the search query.
    pub fn folder_name_matches_query(folder: &Folder, query: &str) -> (r: bool)
        ensures
            r == query_matches(folder.name@, query@),
    {
        Self::library_query_matches(folder.name.as_str(), query)
    }

    /// The listed sounds placed directly in `folder_id` (`None`: at the top
    /// level), favorites first.
    pub fn direct_sounds_for_folder(&self, folder_id: Option<u128>) -> (r: Vec<SoundEffect>)
        ensures
            sound_views(r@) == listed_sounds(*self, folder_id, false, true),
    {
        self.listed_sounds_exec(folder_id, false, true)
    }

    /// The listed sounds of `folder_id` (`None`: the whole library), with or
    /// without its descendants, favorites first.
    pub fn filtered_library_sounds_for_folder(
        &self,
        folder_id: Option<u128>,
        include_descendants: bool,
    ) -> (r: Vec<SoundEffect>)
        ensures
            sound_views(r@) == listed_sounds(*self, folder_id, include_descendants, false),
    {
        self.listed_sounds_exec(folder_id, include_descendants, false)
    }

    /// The positions of the listed sounds of `folder_id`, favorites first.
    pub fn filtered_library_sound_indices_for_folder(
        &self,
        folder_id: Option<u128>,
        include_descendants: bool,
    ) -> (r: Vec<usize>)
        ensures
            r@ == listed_sound_indices(*self, folder_id, include_descendants),
    {
        let ids = self.scope_ids(folder_id, include_descendants);
        let q = normalized_chars(self.library_audio_query.as_str());
        let ghost v = sound_views(self.sounds@);
        let ghost pf = listed_pred(*self, folder_id, include_descendants, false, true);
        let ghost pr = listed_pred(*self, folder_id, include_descendants, false, false);
        let mut favorites: Vec<usize> = Vec::new();
        let mut regular: Vec<usize> = Vec::new();
        let mut i: usize = 0;
        while i < self.sounds.len()
            invariant
                i <= self.sounds.len(),
                v == sound_views(self.sounds@),
                q@ == spec_normalize(self.library_audio_query@),
                folder_id is Some ==> forall|id: u128|
                    ids@.contains(id) <==> scope_accepts(
                        self.folders@,
                        folder_id->0,
                        include_descendants,
                        id,
                    ),
                pf == listed_pred(*self, folder_id, include_descendants, false, true),
                pr == listed_pred(*self, folder_id, include_descendants, false, false),
                favorites@ == keep_indices(v.take(i as int), pf),
                regular@ == keep_indices(v.take(i as int), pr),
            decreases self.sounds.len() - i,
        {
            assert(v.take(i + 1).drop_last() =~= v.take(i as int));
            assert(v.take(i + 1).last() == self.sounds@[i as int]@);
            assert(v.take(i + 1).len() == i + 1);
            assert(keep_indices(v.take(i + 1), pf) == (if pf(v[i as int]) { keep_indices(v.take(i as int), pf).push(i) } else { keep_indices(v.take(i as int), pf) }));
            assert(keep_indices(v.take(i + 1), pr) == (if pr(v[i as int]) { keep_indices(v.take(i as int), pr).push(i) } else { keep_indices(v.take(i as int), pr) }));
            if self.sound_listed_at(i, folder_id, include_descendants, false, &ids, &q) {
                if self.sounds[i].favorite {
                    favorites.push(i);
                } else {
                    regular.push(i);
                }
            }
            i = i + 1;
        }
        assert(v.take(v.len() as int) =~= v);
        let ghost f = favorites@;
        let ghost g = regular@;
        favorites.append(&mut regular);
        favorites
    }

    /// The sounds of the library view: the whole library while searching,
    /// otherwise the current folder with its descendants.
    pub fn filtered_library_sounds(&self) -> (r: Vec<SoundEffect>)
        ensures
            sound_views(r@) == (if search_active(*self) {
                listed_sounds(*self, None, true, false)
            } else {
                listed_sounds(*self, self.library_current_folder, true, false)
            }),
    {
        if self.library_search_active() {
            self.filtered_library_sounds_for_folder(None, true)
        } else {
            self.filtered_library_sounds_for_folder(self.library_current_folder, true)
        }
    }

    /// The positions of the sounds of the library view.
    pub fn filtered_library_sound_indices(&self) -> (r: Vec<usize>)
        ensures
            r@ == (if search_active(*self) {
                listed_sound_indices(*self, None, true)
            } else {
                listed_sound_indices(*self, self.library_current_folder, true)
            }),
    {
        if self.library_search_active() {
            self.filtered_library_sound_indices_for_folder(None, true)
        } else {
            self.filtered_library_sound_indices_for_folder(self.library_current_folder, true)
        }
    }

    /// Whether folder `id` itself matches the search.
    fn folder_has_hit_exec(&self, id: u128, q: &Vec<char>) -> (r: bool)
        requires
            q@ == spec_normalize(self.library_audio_query@),
        ensures
            r == folder_has_hit(*self, id),
    {
        let found = find_folder_index(&self.folders, id);
        proof {
            lemma_find_folder(self.folders@, id);
        }
        match found {
            Some(i) => {
                if Self::library_query_matches(self.folders[i].name.as_str(), self.library_audio_query.as_str()) {
                    return true;
                }
            },
            None => {},
        }
        let ids = self.scope_ids(Some(id), false);
        let mut k: usize = 0;
        while k < self.sounds.len()
            invariant
                k <= self.sounds.len(),
                q@ == spec_normalize(self.library_audio_query@),
                forall|x: u128| ids@.contains(x) <==> scope_accepts(self.folders@, id, false, x),
                forall|j: int| 0 <= j < k ==> !sound_listed(*self, Some(id), false, true, #[trigger] self.sounds@[j]@),
                !(match find_folder(self.folders@, id) {
                    Some(i) => query_matches(self.folders@[i].name@, self.library_audio_query@),
                    None => false,
                }),
            decreases self.sounds.len() - k,
        {
            if self.sound_listed_at(k, Some(id), false, true, &ids, q) {
                return true;
            }
            k = k + 1;
        }
        false
    }

    /// Whether the folder stays visible while searching: its name matches, a
    /// sound placed directly in it is listed, or this holds of a folder below
    /// it.
    pub fn folder_matches_library_search(&self, folder_id: u128) -> (r: bool)
        ensures
            r == folder_search_matches(*self, folder_id),
    {
        let q = normalized_chars(self.library_audio_query.as_str());
        if q.len() == 0 {
            return true;
        }
        if find_folder_index(&self.folders, folder_id).is_none() {
            return false;
        }
        let ids = self.folder_branch_ids(folder_id);
        let mut i: usize = 0;
        while i < ids.len()
            invariant
                i <= ids.len(),
                q@ == spec_normalize(self.library_audio_query@),
                folder_exists(self.folders@, folder_id),
                forall|x: u128| ids@.contains(x) <==> in_branch(self.folders@, folder_id, x),
                forall|j: int| 0 <= j < i ==> !folder_has_hit(*self, #[trigger] ids@[j]),
            decreases ids.len() - i,
        {
            if self.folder_has_hit_exec(ids[i], &q) {
                assert(ids@.contains(ids@[i as int]));
                assert(in_branch(self.folders@, folder_id, ids@[i as int]));
                assert(folder_has_hit(*self, ids@[i as int]));
                return true;
            }
            i = i + 1;
        }
        assert forall|x: u128| in_branch(self.folders@, folder_id, x) implies !#[trigger] folder_has_hit(*self, x) by {
            assert(ids@.contains(x));
            let j = choose|j: int| 0 <= j < ids@.len() && ids@[j] == x;
            assert(!folder_has_hit(*self, ids@[j]));
        }
        false
    }

    /// The child folders shown under `parent_id`: sorted by name, and while
    /// searching only those that match the search.
    pub fn visible_child_folders(&self, parent_id: Option<u128>) -> (r: Vec<Folder>)
        ensures
            exists|s: Seq<Folder>|
                sorted_by_name(s, children_of(self.folders@, parent_id)) && r@ == (if search_active(*self) {
                    keep(s, search_pred(*self))
                } else {
                    s
                }),
    {
        let folders = self.sorted_child_folders(parent_id);
        if !self.library_search_active() {
            return folders;
        }
        let ghost s = folders@;
        let ghost p = search_pred(*self);
        let mut r: Vec<Folder> = Vec::new();
        let mut i: usize = 0;
        while i < folders.len()
            invariant
                i <= folders.len(),
                s == folders@,
                p == search_pred(*self),
                r@ == keep(s.take(i as int), p),
            decreases folders.len() - i,
        {
            assert(s.take(i + 1).drop_last() =~= s.take(i as int));
            assert(s.take(i + 1).last() == s[i as int]);
            assert(keep(s.take(i + 1), p) == (if p(s[i as int]) { keep(s.take(i as int), p).push(s[i as int]) } else { keep(s.take(i as int), p) }));
            if self.folder_matches_library_search(folders[i].id) {
                r.push(folders[i].clone());
            }
            i = i + 1;
        }
        assert(s.take(s.len() as int) =~= s);
        r
    }

    /// The videos of the video library: those matching the video search and
    /// the favorites-only switch, favorites first.
    pub fn filtered_library_videos(&self) -> (r: Vec<VideoAsset>)
        ensures
            r@ == listed_videos(*self),
    {
        let ghost v = self.video_assets@;
        let ghost pf = video_pred(*self, true);
        let ghost pr = video_pred(*self, false);
        let mut favorites: Vec<VideoAsset> = Vec::new();
        let mut regular: Vec<VideoAsset> = Vec::new();
        let mut i: usize = 0;
        while i < self.video_assets.len()
            invariant
                i <= self.video_assets.len(),
                v == self.video_assets@,
                pf == video_pred(*self, true),
                pr == video_pred(*self, false),
                favorites@ == keep(v.take(i as int), pf),
                regular@ == keep(v.take(i as int), pr),
            decreases self.video_assets.len() - i,
        {
            assert(v.take(i + 1).drop_last() =~= v.take(i as int));
            assert(v.take(i + 1).last() == v[i as int]);
            assert(keep(v.take(i + 1), pf) == (if pf(v[i as int]) { keep(v.take(i as int), pf).push(v[i as int]) } else { keep(v.take(i as int), pf) }));
            assert(keep(v.take(i + 1), pr) == (if pr(v[i as int]) { keep(v.take(i as int), pr).push(v[i as int]) } else { keep(v.take(i as int), pr) }));
            let video = &self.video_assets[i];
            if Self::library_query_matches(video.name.as_str(), self.library_video_query.as_str())
                && (!self.library_favorites_only_video || video.favorite) {
                if video.favorite {
                    favorites.push(video.clone());
                } else {
                    regular.push(video.clone());
                }
            }
            i = i + 1;
        }
        assert(v.take(v.len() as int) =~= v);
        favorites.append(&mut regular);
        favorites
    }
}

} // verus!
