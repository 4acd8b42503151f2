use vstd::prelude::*;
use crate::jobs::{LibraryImportMessage, LibraryImportResult};
use crate::model::{ActiveLibraryImport, Folder, SoundEffect, SoundFxApp, SoundView, sound_views, strs};
use crate::naming::{decimal, decimal_exec};
use crate::text::{chars_of, eq_chars, spec_trim, string_of, trim_chars};

verus! {

/// A file or directory offered for import, as the file system showed it.
pub struct ImportEntry {
    /// The application's handle for the entry's path.
    pub token: usize,
    /// The entry's file name, when it has one that is valid UTF-8.
    pub file_name: Option<String>,
    /// The bytes of the entry's file name, by which directory listings sort.
    pub sort_key: Vec<u8>,
    pub is_dir: bool,
    pub is_file: bool,
    /// The file has the extension of a supported audio format.
    pub supported_audio: bool,
    /// The entry is marked hidden or system (Windows only).
    pub hidden_or_system: bool,
    /// The directory could be listed.
    pub readable: bool,
    /// The entries the directory listed, in the order `sorted_directory_entries` gives.
    pub children: Vec<ImportEntry>,
}

/// The folder an imported item goes to: an existing one (`None`: the top
/// level), or the `k`-th folder the import creates.
#[derive(Clone, Copy, PartialEq, Eq, Structural)]
pub enum FolderRef {
    Existing(Option<u128>),
    New(usize),
}

/// One step of an import, carried out in order by the application.
pub enum ImportStep {
    /// Create a folder.
    CreateFolder { name: String, parent: FolderRef },
    /// Import the audio file with the given handle into a folder.
    ImportFile { token: usize, folder: FolderRef },
}

/// The mathematical value of an import step.
pub enum StepView {
    CreateFolder { name: Seq<char>, parent: FolderRef },
    ImportFile { token: usize, folder: FolderRef },
}

impl View for ImportStep {
    type V = StepView;

    open spec fn view(&self) -> StepView {
        match self {
            ImportStep::CreateFolder { name, parent } => StepView::CreateFolder {
                name: name@,
                parent: *parent,
            },
            ImportStep::ImportFile { token, folder } => StepView::ImportFile {
                token: *token,
                folder: *folder,
            },
        }
    }
}

/// The values of import steps.
pub open spec fn step_views(s: Seq<ImportStep>) -> Seq<StepView> {
    s.map_values(|x: ImportStep| x@)
}

/// Number of entries in the tree.
pub open spec fn entry_size(e: ImportEntry) -> nat
    decreases e,
{
    1 + entries_size(e.children@)
}

/// Number of entries in the trees.
pub open spec fn entries_size(cs: Seq<ImportEntry>) -> nat
    decreases cs,
{
    if cs.len() == 0 {
        0
    } else {
        entries_size(cs.drop_last()) + entry_size(cs.last())
    }
}

/// Names that Windows keeps for itself.
pub open spec fn reserved_name(n: Seq<char>) -> bool {
    ||| n == "System Volume Information"@
    ||| n == "Recovery"@
    ||| n == "Config.Msi"@
    ||| n == "MSOCache"@
}

/// Entries that import skips: without a (UTF-8) name, named with a leading
/// `$` or a reserved name, or hidden or system entries.
pub open spec fn skip_import(file_name: Option<Seq<char>>, hidden_or_system: bool) -> bool {
    match file_name {
        None => true,
        Some(n) => (n.len() > 0 && n[0] == '$') || reserved_name(n) || hidden_or_system,
    }
}

/// An optional file name as an optional character sequence.
pub open spec fn name_view(n: Option<String>) -> Option<Seq<char>> {
    match n {
        Some(s) => Some(s@),
        None => None,
    }
}

/// Import skips the entry (see `skip_import`).
pub open spec fn entry_skipped(e: ImportEntry) -> bool {
    skip_import(name_view(e.file_name), e.hidden_or_system)
}

/// The entry is, or holds somewhere below it, a supported audio file.
pub open spec fn contains_audio(e: ImportEntry) -> bool
    decreases e,
{
    if entry_skipped(e) {
        false
    } else if e.is_file {
        e.supported_audio
    } else if !e.is_dir || !e.readable {
        false
    } else {
        any_contains_audio(e.children@)
    }
}

/// Some entry is, or holds, a supported audio file.
pub open spec fn any_contains_audio(cs: Seq<ImportEntry>) -> bool
    decreases cs,
{
    cs.len() > 0 && (any_contains_audio(cs.drop_last()) || contains_audio(cs.last()))
}

/// The number of supported audio files the entry is or holds.
pub open spec fn audio_count(e: ImportEntry) -> nat
    decreases e,
{
    if entry_skipped(e) {
        0
    } else if e.is_file {
        if e.supported_audio {
            1
        } else {
            0
        }
    } else if !e.is_dir || !e.readable {
        0
    } else {
        audio_counts(e.children@)
    }
}

/// The number of supported audio files the entries are or hold.
pub open spec fn audio_counts(cs: Seq<ImportEntry>) -> nat
    decreases cs,
{
    if cs.len() == 0 {
        0
    } else {
        audio_counts(cs.drop_last()) + audio_count(cs.last())
    }
}

/// Strict lexicographic order of byte strings.
pub open spec fn bytes_lt(a: Seq<u8>, b: Seq<u8>) -> bool
    decreases a.len(),
{
    if a.len() == 0 {
        b.len() > 0
    } else if b.len() == 0 {
        false
    } else if a[0] != b[0] {
        a[0] < b[0]
    } else {
        bytes_lt(a.subrange(1, a.len() as int), b.subrange(1, b.len() as int))
    }
}

/// Listing order: directories first, then by file name.
pub open spec fn entry_lt(a: ImportEntry, b: ImportEntry) -> bool {
    (a.is_dir && !b.is_dir) || (a.is_dir == b.is_dir && bytes_lt(a.sort_key@, b.sort_key@))
}

/// `r` is `s` in listing order; entries that compare equal keep their order.
pub open spec fn sorted_listing(r: Seq<ImportEntry>, s: Seq<ImportEntry>) -> bool {
    exists|p: Seq<int>|
        #![trigger p.len()]
        p.len() == s.len() && r.len() == s.len() && (forall|i: int|
            0 <= i < p.len() ==> 0 <= #[trigger] p[i] < s.len() && r[i] == s[p[i]]) && (forall|
            i: int,
            j: int,
        | 0 <= i < j < p.len() ==> #[trigger] p[i] != #[trigger] p[j]) && (forall|i: int, j: int|
            0 <= i < j < r.len() ==> entry_lt(#[trigger] r[i], #[trigger] r[j]) || (!entry_lt(
                r[j],
                r[i],
            ) && p[i] < p[j]))
}

/// The name of a folder made from a directory: its trimmed name, or `Folder`.
pub open spec fn folder_display_name(file_name: Option<Seq<char>>) -> Seq<char> {
    match file_name {
        Some(n) => if spec_trim(n).len() > 0 {
            spec_trim(n)
        } else {
            "Folder"@
        },
        None => "Folder"@,
    }
}

/// The entry is imported (rather than counted as ignored).
pub open spec fn entry_imported(e: ImportEntry) -> bool {
    !entry_skipped(e) && if e.is_dir {
        contains_audio(e)
    } else {
        e.supported_audio
    }
}

/// The import steps of an entry going to `target`, when `created` folders
/// were created before it: the steps, the number of ignored entries and the
/// number of folders created afterwards.
pub open spec fn plan_entry(e: ImportEntry, target: FolderRef, created: nat) -> (Seq<StepView>, nat, nat)
    decreases e,
{
    if entry_skipped(e) {
        (Seq::empty(), 1, created)
    } else if e.is_dir {
        if !contains_audio(e) {
            (Seq::empty(), 1, created)
        } else {
            let inner = plan_entries(e.children@, FolderRef::New(created as usize), created + 1);
            (
                seq![StepView::CreateFolder { name: folder_display_name(name_view(e.file_name)), parent: target }]
                    + inner.0,
                inner.1,
                inner.2,
            )
        }
    } else if !e.supported_audio {
        (Seq::empty(), 1, created)
    } else {
        (seq![StepView::ImportFile { token: e.token, folder: target }], 0, created)
    }
}

/// The import steps of the entries in turn (see `plan_entry`).
pub open spec fn plan_entries(cs: Seq<ImportEntry>, target: FolderRef, created: nat) -> (Seq<StepView>, nat, nat)
    decreases cs,
{
    if cs.len() == 0 {
        (Seq::empty(), 0, created)
    } else {
        let first = plan_entries(cs.drop_last(), target, created);
        let last = plan_entry(cs.last(), target, first.2);
        (first.0 + last.0, first.1 + last.1, last.2)
    }
}

proof fn lemma_entries_take(cs: Seq<ImportEntry>, i: int)
    requires
        0 <= i < cs.len(),
    ensures
        cs.take(i + 1).drop_last() == cs.take(i),
        cs.take(i + 1).last() == cs[i],
{
    assert(cs.take(i + 1).drop_last() =~= cs.take(i));
}

/// Whether the bytes `a` sort before `b`.
fn bytes_lt_exec(a: &Vec<u8>, b: &Vec<u8>) -> (r: bool)
    ensures
        r == bytes_lt(a@, b@),
{
    let mut i: usize = 0;
    assert(a@.subrange(0, a.len() as int) =~= a@);
    assert(b@.subrange(0, b.len() as int) =~= b@);
    while i < a.len() && i < b.len() && a[i] == b[i]
        invariant
            i <= a.len(),
            i <= b.len(),
            bytes_lt(a@, b@) == bytes_lt(
                a@.subrange(i as int, a.len() as int),
                b@.subrange(i as int, b.len() as int),
            ),
        decreases a.len() - i,
    {
        assert(a@.subrange(i as int, a.len() as int).subrange(1, (a.len() - i) as int)
            =~= a@.subrange(i + 1, a.len() as int));
        assert(b@.subrange(i as int, b.len() as int).subrange(1, (b.len() - i) as int)
            =~= b@.subrange(i + 1, b.len() as int));
        i = i + 1;
    }
    if i == a.len() {
        i < b.len()
    } else if i == b.len() {
        false
    } else {
        a[i] < b[i]
    }
}

proof fn lemma_bytes_lt_asymmetric(a: Seq<u8>, b: Seq<u8>)
    requires
        bytes_lt(a, b),
    ensures
        !bytes_lt(b, a),
    decreases a.len(),
{
    if a.len() > 0 && b.len() > 0 && a[0] == b[0] {
        lemma_bytes_lt_asymmetric(a.subrange(1, a.len() as int), b.subrange(1, b.len() as int));
    }
}

proof fn lemma_bytes_lt_transitive(a: Seq<u8>, b: Seq<u8>, c: Seq<u8>)
    requires
        bytes_lt(a, b),
        bytes_lt(b, c),
    ensures
        bytes_lt(a, c),
    decreases a.len(),
{
    if a.len() > 0 && b.len() > 0 && c.len() > 0 && a[0] == b[0] && b[0] == c[0] {
        lemma_bytes_lt_transitive(
            a.subrange(1, a.len() as int),
            b.subrange(1, b.len() as int),
            c.subrange(1, c.len() as int),
        );
    }
}

proof fn lemma_entry_lt_transitive(a: ImportEntry, b: ImportEntry, c: ImportEntry)
    requires
        entry_lt(a, b),
        entry_lt(b, c),
    ensures
        entry_lt(a, c),
{
    if a.is_dir == b.is_dir && b.is_dir == c.is_dir {
        lemma_bytes_lt_transitive(a.sort_key@, b.sort_key@, c.sort_key@);
    }
}

proof fn lemma_bytes_equal_or_lt(a: Seq<u8>, b: Seq<u8>)
    ensures
        a == b || bytes_lt(a, b) || bytes_lt(b, a),
    decreases a.len(),
{
    if a.len() == 0 {
        if b.len() == 0 {
            assert(a =~= b);
        }
    } else if b.len() > 0 && a[0] == b[0] {
        let a1 = a.subrange(1, a.len() as int);
        let b1 = b.subrange(1, b.len() as int);
        lemma_bytes_equal_or_lt(a1, b1);
        if a1 == b1 {
            assert(a1.len() == b1.len());
            assert(a =~= b) by {
                assert forall|i: int| 0 <= i < a.len() implies a[i] == b[i] by {
                    if i > 0 {
                        assert(a[i] == a1[i - 1]);
                        assert(b[i] == b1[i - 1]);
                    }
                }
            }
        }
    }
}

impl SoundFxApp {
    /// Whether import skips an entry with this name (`None`: no UTF-8 name)
    /// and these attributes.
    pub fn should_skip_import_path(file_name: Option<&str>, hidden_or_system: bool) -> (r: bool)
        ensures
            r == skip_import(
                match file_name {
                    Some(n) => Some(n@),
                    None => None,
                },
                hidden_or_system,
            ),
    {
        let name = match file_name {
            Some(n) => n,
            None => {
                return true;
            },
        };
        let v = chars_of(name);
        if v.len() > 0 && v[0] == '$' {
            return true;
        }
        let reserved = eq_chars(&v, &chars_of("System Volume Information")) || eq_chars(
            &v,
            &chars_of("Recovery"),
        ) || eq_chars(&v, &chars_of("Config.Msi")) || eq_chars(&v, &chars_of("MSOCache"));
        reserved || hidden_or_system
    }

    fn entry_skipped_exec(entry: &ImportEntry) -> (r: bool)
        ensures
            r == entry_skipped(*entry),
    {
        match &entry.file_name {
            Some(n) => Self::should_skip_import_path(Some(n.as_str()), entry.hidden_or_system),
            None => Self::should_skip_import_path(None, entry.hidden_or_system),
        }
    }

    /// Whether the entry is, or holds somewhere below it, a supported audio file.
    pub fn path_contains_supported_audio(entry: &ImportEntry) -> (r: bool)
        ensures
            r == contains_audio(*entry),
        decreases *entry,
    {
        if Self::entry_skipped_exec(entry) {
            return false;
        }
        if entry.is_file {
            return entry.supported_audio;
        }
        if !entry.is_dir || !entry.readable {
            return false;
        }
        let ghost cs = entry.children@;
        let mut i: usize = 0;
        while i < entry.children.len()
            invariant
                i <= entry.children.len(),
                cs == entry.children@,
                !entry_skipped(*entry),
                !entry.is_file,
                entry.is_dir,
                entry.readable,
                !any_contains_audio(cs.take(i as int)),
            decreases entry.children.len() - i,
        {
            proof {
                lemma_entries_take(cs, i as int);
            }
            if Self::path_contains_supported_audio(&entry.children[i]) {
                assert(any_contains_audio(cs.take(i + 1)));
                proof {
                    lemma_any_contains_prefix(cs, i + 1);
                }
                return true;
            }
            i = i + 1;
        }
        assert(cs.take(cs.len() as int) =~= cs);
        false
    }

    /// The number of supported audio files the entry is or holds.
    pub fn count_importable_audio_files(entry: &ImportEntry) -> (r: usize)
        requires
            audio_count(*entry) <= usize::MAX,
        ensures
            r == audio_count(*entry),
        decreases *entry,
    {
        if Self::entry_skipped_exec(entry) {
            return 0;
        }
        if entry.is_file {
            return if entry.supported_audio {
                1
            } else {
                0
            };
        }
        if !entry.is_dir || !entry.readable {
            return 0;
        }
        let ghost cs = entry.children@;
        let mut total: usize = 0;
        let mut i: usize = 0;
        while i < entry.children.len()
            invariant
                i <= entry.children.len(),
                cs == entry.children@,
                audio_counts(cs) <= usize::MAX,
                total == audio_counts(cs.take(i as int)),
            decreases entry.children.len() - i,
        {
            proof {
                lemma_entries_take(cs, i as int);
                lemma_counts_prefix(cs, i + 1);
            }
            let c = Self::count_importable_audio_files(&entry.children[i]);
            total = total + c;
            i = i + 1;
        }
        assert(cs.take(cs.len() as int) =~= cs);
        total
    }

    /// The entries of a directory in listing order: directories first, then
    /// by file name; entries that compare equal keep their order.
    pub fn sorted_directory_entries(entries: Vec<ImportEntry>) -> (r: Vec<ImportEntry>)
        ensures
            sorted_listing(r@, entries@),
    {
        let ghost s = entries@;
        let n = entries.len();
        assert(s.len() == n);
        let mut rest = entries;
        let mut r: Vec<ImportEntry> = Vec::new();
        let ghost mut perm: Seq<int> = Seq::empty();
        let mut k: usize = 0;
        while rest.len() > 0
            invariant
                k <= s.len(),
                s.len() <= usize::MAX,
                rest@ == s.subrange(k as int, s.len() as int),
                perm.len() == k,
                r.len() == k,
                forall|x: int| 0 <= x < k ==> 0 <= #[trigger] perm[x] < k && r@[x] == s[perm[x]],
                forall|x: int, y: int| 0 <= x < y < k ==> #[trigger] perm[x] != #[trigger] perm[y],
                forall|x: int, y: int|
                    0 <= x < y < k ==> entry_lt(#[trigger] r@[x], #[trigger] r@[y]) || (!entry_lt(
                        r@[y],
                        r@[x],
                    ) && perm[x] < perm[y]),
            decreases rest.len(),
        {
            let e = rest.remove(0);
            assert(e == s[k as int]);
            let mut q: usize = 0;
            while q < r.len() && !(
            (e.is_dir && !r[q].is_dir) || (e.is_dir == r[q].is_dir && bytes_lt_exec(
                &e.sort_key,
                &r[q].sort_key,
            )))
                invariant
                    q <= r.len(),
                    forall|x: int| 0 <= x < q ==> !entry_lt(e, #[trigger] r@[x]),
                decreases r.len() - q,
            {
                q = q + 1;
            }
            let ghost old_r = r@;
            let ghost old_p = perm;
            let ghost ne = e;
            proof {
                assert forall|x: int| q <= x < old_r.len() implies entry_lt(ne, old_r[x]) by {
                    if x > q {
                        if entry_lt(old_r[q as int], old_r[x]) {
                            lemma_entry_lt_transitive(ne, old_r[q as int], old_r[x]);
                        } else {
                            lemma_not_lt_chain(ne, old_r[q as int], old_r[x]);
                        }
                    }
                }
            }
            r.insert(q, e);
            proof {
                old_r.insert_ensures(q as int, ne);
                old_p.insert_ensures(q as int, k as int);
                perm = old_p.insert(q as int, k as int);
                let nr = r@;
                assert forall|x: int| 0 <= x < k + 1 implies 0 <= #[trigger] perm[x] < k + 1 && nr[x] == s[perm[x]] by {
                    if x > q {
                        assert(perm[x] == old_p[x - 1]);
                        assert(nr[x] == old_r[x - 1]);
                    }
                }
                assert forall|x: int, y: int| 0 <= x < y < k + 1 implies #[trigger] perm[x] != #[trigger] perm[y] by {
                    if x > q {
                        assert(perm[x] == old_p[x - 1]);
                    }
                    if y > q {
                        assert(perm[y] == old_p[y - 1]);
                    }
                }
                assert forall|x: int, y: int| 0 <= x < y < k + 1 implies entry_lt(#[trigger] nr[x], #[trigger] nr[y])
                    || (!entry_lt(nr[y], nr[x]) && perm[x] < perm[y]) by {
                    if y < q {
                        assert(nr[x] == old_r[x]);
                        assert(nr[y] == old_r[y]);
                        assert(perm[x] == old_p[x]);
                        assert(perm[y] == old_p[y]);
                    } else if y == q {
                        assert(nr[x] == old_r[x]);
                        assert(perm[x] == old_p[x]);
                        assert(!entry_lt(ne, old_r[x]));
                    } else if x < q {
                        assert(nr[x] == old_r[x]);
                        assert(nr[y] == old_r[y - 1]);
                        assert(perm[x] == old_p[x]);
                        assert(perm[y] == old_p[y - 1]);
                    } else if x == q {
                        assert(nr[y] == old_r[y - 1]);
                    } else {
                        assert(nr[x] == old_r[x - 1]);
                        assert(nr[y] == old_r[y - 1]);
                        assert(perm[x] == old_p[x - 1]);
                        assert(perm[y] == old_p[y - 1]);
                    }
                }
            }
            k = k + 1;
            assert(rest@ =~= s.subrange(k as int, s.len() as int));
        }
        assert(perm.len() == s.len());
        r
    }

    /// Plans the import of one entry into `target`: a directory holding audio
    /// becomes a folder (`created` counts the folders planned so far) whose
    /// entries are planned in order; a supported audio file is imported;
    /// anything else is counted in `ignored`. Returns whether the entry was
    /// taken.
    pub fn import_path_entry(
        entry: &ImportEntry,
        target: FolderRef,
        plan: &mut Vec<ImportStep>,
        ignored: &mut usize,
        created: &mut usize,
    ) -> (taken: bool)
        requires
            *old(ignored) + entry_size(*entry) <= usize::MAX,
            *old(created) + entry_size(*entry) <= usize::MAX,
        ensures
            taken == entry_imported(*entry),
            ({
                let p = plan_entry(*entry, target, *old(created) as nat);
                &&& step_views(final(plan)@) == step_views(old(plan)@) + p.0
                &&& *final(ignored) == *old(ignored) + p.1
                &&& *final(created) == p.2
            }),
            *final(ignored) <= *old(ignored) + entry_size(*entry),
            *final(created) <= *old(created) + entry_size(*entry),
        decreases *entry,
    {
        if Self::entry_skipped_exec(entry) {
            *ignored = *ignored + 1;
            return false;
        }
        if entry.is_dir {
            if !Self::path_contains_supported_audio(entry) {
                *ignored = *ignored + 1;
                return false;
            }
            let name = match &entry.file_name {
                Some(n) => {
                    let v = chars_of(n.as_str());
                    let t = trim_chars(&v);
                    if t.len() > 0 {
                        string_of(&t)
                    } else {
                        String::from_str("Folder")
                    }
                },
                None => String::from_str("Folder"),
            };
            let folder_index = *created;
            let ghost before = step_views(plan@);
            plan.push(ImportStep::CreateFolder { name, parent: target });
            assert(step_views(plan@) =~= before + seq![
                StepView::CreateFolder { name: folder_display_name(name_view(entry.file_name)), parent: target },
            ]);
            *created = *created + 1;
            let ghost cs = entry.children@;
            let ghost base_steps = step_views(plan@);
            let ghost base_ignored = *ignored;
            let ghost base_created = *created;
            let mut i: usize = 0;
            while i < entry.children.len()
                invariant
                    i <= entry.children.len(),
                    cs == entry.children@,
                    base_created == folder_index + 1,
                    entry_size(*entry) == 1 + entries_size(cs),
                    base_ignored + entries_size(cs) <= usize::MAX,
                    base_created + entries_size(cs) <= usize::MAX,
                    ({
                        let p = plan_entries(cs.take(i as int), FolderRef::New(folder_index), base_created as nat);
                        &&& step_views(plan@) == base_steps + p.0
                        &&& *ignored == base_ignored + p.1
                        &&& *created == p.2
                    }),
                    *ignored <= base_ignored + entries_size(cs.take(i as int)),
                    *created <= base_created + entries_size(cs.take(i as int)),
                decreases entry.children.len() - i,
            {
                proof {
                    lemma_entries_take(cs, i as int);
                    lemma_size_prefix(cs, i + 1);
                }
                let ghost pre_steps = step_views(plan@);
                Self::import_path_entry(&entry.children[i], FolderRef::New(folder_index), plan, ignored, created);
                i = i + 1;
                assert(step_views(plan@) =~= base_steps + plan_entries(cs.take(i as int), FolderRef::New(folder_index), base_created as nat).0);
            }
            assert(cs.take(cs.len() as int) =~= cs);
            assert(step_views(plan@) =~= before + (seq![
                StepView::CreateFolder { name: folder_display_name(name_view(entry.file_name)), parent: target },
            ] + plan_entries(cs, FolderRef::New(folder_index), base_created as nat).0));
            return true;
        }
        if !entry.supported_audio {
            *ignored = *ignored + 1;
            return false;
        }
        let ghost before = step_views(plan@);
        plan.push(ImportStep::ImportFile { token: entry.token, folder: target });
        assert(step_views(plan@) =~= before + seq![StepView::ImportFile { token: entry.token, folder: target }]);
        true
    }
}

/// What importing a list of paths takes: the steps in order, the number of
/// ignored entries and the number of audio files to import.
pub struct ImportPlan {
    pub steps: Vec<ImportStep>,
    pub ignored: usize,
    pub total: usize,
}

impl SoundFxApp {
    /// Plans a background import of the entries into `target_folder_id`
    /// (`None`: the top level), entry by entry, and counts the audio files it
    /// will import.
    pub fn run_library_import_job(entries: &Vec<ImportEntry>, target_folder_id: Option<u128>) -> (plan: ImportPlan)
        requires
            entries_size(entries@) <= usize::MAX,
            audio_counts(entries@) <= usize::MAX,
        ensures
            ({
                let p = plan_entries(entries@, FolderRef::Existing(target_folder_id), 0);
                &&& step_views(plan.steps@) == p.0
                &&& plan.ignored == p.1
                &&& plan.total == audio_counts(entries@)
            }),
            refs_ok(step_views(plan.steps@), 0),
    {
        proof {
            lemma_plan_entries_refs(entries@, FolderRef::Existing(target_folder_id), 0);
        }
        let ghost cs = entries@;
        let target = FolderRef::Existing(target_folder_id);
        let mut steps: Vec<ImportStep> = Vec::new();
        let mut ignored: usize = 0;
        let mut created: usize = 0;
        let mut total: usize = 0;
        let mut i: usize = 0;
        while i < entries.len()
            invariant
                i <= entries.len(),
                cs == entries@,
                target == FolderRef::Existing(target_folder_id),
                entries_size(cs) <= usize::MAX,
                audio_counts(cs) <= usize::MAX,
                ({
                    let p = plan_entries(cs.take(i as int), target, 0);
                    &&& step_views(steps@) == p.0
                    &&& ignored == p.1
                    &&& created == p.2
                }),
                ignored <= entries_size(cs.take(i as int)),
                created <= entries_size(cs.take(i as int)),
                total == audio_counts(cs.take(i as int)),
            decreases entries.len() - i,
        {
            proof {
                lemma_entries_take(cs, i as int);
                lemma_size_prefix(cs, i + 1);
                lemma_counts_prefix(cs, i + 1);
            }
            let c = Self::count_importable_audio_files(&entries[i]);
            total = total + c;
            Self::import_path_entry(&entries[i], target, &mut steps, &mut ignored, &mut created);
            i = i + 1;
        }
        assert(cs.take(cs.len() as int) =~= cs);
        ImportPlan { steps, ignored, total }
    }

    /// Adds the sounds an import produced (already placed in their folders)
    /// in front of the library, the first one selected; clears the tag
    /// filters and opens `target_folder_id` when given. With nothing
    /// imported, reports that nothing was found when entries were ignored and
    /// no other message is shown. Returns the number of sounds added; the
    /// library is then to be saved.
    pub fn import_paths_to_folder(
        &mut self,
        imported: Vec<SoundEffect>,
        ignored: usize,
        target_folder_id: Option<u128>,
    ) -> (r: Result<usize, String>)
        ensures
            imported@.len() == 0 ==> (if ignored > 0 && old(self).status is None {
                r is Err && r->Err_0@ == crate::jobs::nothing_found_status()
            } else {
                r == Ok::<usize, String>(0)
            }) && *final(self) == *old(self),
            imported@.len() > 0 ==> {
                &&& r == Ok::<usize, String>(imported.len())
                &&& sound_views(final(self).sounds@) == sound_views(imported@) + sound_views(old(self).sounds@)
                &&& final(self).library_audio_tag_filters@.len() == 0
                &&& *final(self) == (SoundFxApp {
                    sounds: final(self).sounds,
                    selected: Some(imported@[0].id),
                    library_audio_tag_filters: final(self).library_audio_tag_filters,
                    library_current_folder: if target_folder_id is Some {
                        target_folder_id
                    } else {
                        old(self).library_current_folder
                    },
                    pending_save: true,
                    ..*old(self)
                })
            },
    {
        let count = imported.len();
        if count == 0 {
            if ignored > 0 && self.status.is_none() {
                return Err(String::from_str("No supported audio files were found"));
            }
            return Ok(0);
        }
        let first_id = imported[0].id;
        let ghost f = sound_views(imported@);
        let ghost old_sounds = sound_views(self.sounds@);
        let mut front = imported;
        let mut rest: Vec<SoundEffect> = Vec::new();
        std::mem::swap(&mut rest, &mut self.sounds);
        front.append(&mut rest);
        self.sounds = front;
        assert(sound_views(self.sounds@) =~= f + old_sounds);
        self.selected = Some(first_id);
        self.library_audio_tag_filters = Vec::new();
        if target_folder_id.is_some() {
            self.library_current_folder = target_folder_id;
        }
        self.pending_save = true;
        Ok(count)
    }

    /// Imports into the top level: leaves the current folder and the import
    /// picker, adds the imported sounds and shows an error instead when there
    /// is one. Returns the number of sounds added.
    pub fn import_paths(&mut self, imported: Vec<SoundEffect>, ignored: usize) -> (count: usize)
        ensures
            imported@.len() == 0 ==> count == 0 && *final(self) == (SoundFxApp {
                library_current_folder: None,
                folder_import_select_mode: None,
                status: if ignored > 0 && old(self).status is None {
                    final(self).status
                } else {
                    old(self).status
                },
                ..*old(self)
            }) && (ignored > 0 && old(self).status is None ==> final(self).status is Some
                && final(self).status->0@ == crate::jobs::nothing_found_status()),
            imported@.len() > 0 ==> {
                &&& count == imported.len()
                &&& sound_views(final(self).sounds@) == sound_views(imported@) + sound_views(old(self).sounds@)
                &&& final(self).library_audio_tag_filters@.len() == 0
                &&& *final(self) == (SoundFxApp {
                    sounds: final(self).sounds,
                    selected: Some(imported@[0].id),
                    library_audio_tag_filters: final(self).library_audio_tag_filters,
                    library_current_folder: None,
                    folder_import_select_mode: None,
                    pending_save: true,
                    ..*old(self)
                })
            },
    {
        self.library_current_folder = None;
        self.folder_import_select_mode = None;
        match self.import_paths_to_folder(imported, ignored, None) {
            Ok(n) => n,
            Err(e) => {
                self.status = Some(e);
                0
            },
        }
    }
}

proof fn lemma_any_contains_prefix(cs: Seq<ImportEntry>, k: int)
    requires
        0 <= k <= cs.len(),
        any_contains_audio(cs.take(k)),
    ensures
        any_contains_audio(cs),
    decreases cs.len(),
{
    if k < cs.len() {
        assert(cs.drop_last().take(k) =~= cs.take(k));
        lemma_any_contains_prefix(cs.drop_last(), k);
    } else {
        assert(cs.take(k) =~= cs);
    }
}

proof fn lemma_counts_prefix(cs: Seq<ImportEntry>, k: int)
    requires
        0 <= k <= cs.len(),
    ensures
        audio_counts(cs.take(k)) <= audio_counts(cs),
    decreases cs.len(),
{
    if k < cs.len() {
        assert(cs.drop_last().take(k) =~= cs.take(k));
        lemma_counts_prefix(cs.drop_last(), k);
    } else {
        assert(cs.take(k) =~= cs);
    }
}

proof fn lemma_size_prefix(cs: Seq<ImportEntry>, k: int)
    requires
        0 <= k <= cs.len(),
    ensures
        entries_size(cs.take(k)) <= entries_size(cs),
    decreases cs.len(),
{
    if k < cs.len() {
        assert(cs.drop_last().take(k) =~= cs.take(k));
        lemma_size_prefix(cs.drop_last(), k);
    } else {
        assert(cs.take(k) =~= cs);
    }
}

/// When `a` does not sort before `c` while `b` is equivalent to `c`, `a` does
/// not sort before `b` either.
proof fn lemma_not_lt_chain(a: ImportEntry, b: ImportEntry, c: ImportEntry)
    requires
        !entry_lt(b, c),
        !entry_lt(c, b),
    ensures
        entry_lt(a, b) == entry_lt(a, c),
{
    lemma_bytes_equal_or_lt(b.sort_key@, c.sort_key@);
    if b.is_dir == c.is_dir {
        assert(b.sort_key@ == c.sort_key@);
    }
}


/// The status line while a background import of `n` sounds runs.
pub open spec fn importing_status(n: nat) -> Seq<char> {
    "Importing "@ + decimal(n) + " sound(s)..."@
}

/// The status line while a background import scans entries that hold no
/// audio file the count saw.
pub open spec fn scanning_status() -> Seq<char> {
    "Scanning dropped files..."@
}

/// The status line when an import is asked for while another one runs.
pub open spec fn import_busy_status() -> Seq<char> {
    "Another import is already running"@
}

/// The label of a background import that has not reached its first entry.
pub open spec fn preparing_label() -> Seq<char> {
    "Preparing import..."@
}

impl SoundFxApp {
    /// Starts a background import of the entries into `target_folder_id`
    /// under a fresh random job id: records the job with the number of audio files
    /// to import and shows its status. Nothing happens without entries; while
    /// another import runs the request is refused with a message. Returns
    /// whether the job was started (the caller then runs
    /// `run_library_import_job` for it).
    pub fn begin_import_paths_to_folder(
        &mut self,
        entries: &Vec<ImportEntry>,
        target_folder_id: Option<u128>,
    ) -> (started: bool)
        requires
            audio_counts(entries@) <= usize::MAX,
        ensures
            entries@.len() == 0 ==> !started && *final(self) == *old(self),
            entries@.len() > 0 && old(self).library_import_job is Some ==> {
                &&& !started
                &&& final(self).status matches Some(s) && s@ == import_busy_status()
                &&& *final(self) == (SoundFxApp { status: final(self).status, ..*old(self) })
            },
            entries@.len() > 0 && old(self).library_import_job is None ==> {
                let total = audio_counts(entries@);
                &&& started
                &&& final(self).library_import_job matches Some(job) && {
                    &&& job.target_folder_id == target_folder_id
                    &&& job.completed == 0
                    &&& job.total == total
                    &&& job.current_label@ == preparing_label()
                }
                &&& final(self).status matches Some(s) && s@ == (if total > 0 {
                    importing_status(total)
                } else {
                    scanning_status()
                })
                &&& *final(self) == (SoundFxApp {
                    library_import_job: final(self).library_import_job,
                    status: final(self).status,
                    ..*old(self)
                })
            },
    {
        if entries.len() == 0 {
            return false;
        }
        if self.library_import_job.is_some() {
            proof {
                reveal_strlit("Another import is already running");
            }
            self.status = Some(String::from_str("Another import is already running"));
            return false;
        }
        let ghost cs = entries@;
        let mut total: usize = 0;
        let mut i: usize = 0;
        while i < entries.len()
            invariant
                i <= entries.len(),
                cs == entries@,
                audio_counts(cs) <= usize::MAX,
                total == audio_counts(cs.take(i as int)),
            decreases entries.len() - i,
        {
            proof {
                lemma_entries_take(cs, i as int);
                lemma_counts_prefix(cs, i + 1);
            }
            let c = Self::count_importable_audio_files(&entries[i]);
            total = total + c;
            i = i + 1;
        }
        assert(cs.take(cs.len() as int) =~= cs);
        proof {
            reveal_strlit("Preparing import...");
        }
        let job_id = crate::model::new_uuid();
        self.library_import_job = Some(ActiveLibraryImport {
            job_id,
            target_folder_id,
            completed: 0,
            total,
            current_label: String::from_str("Preparing import..."),
        });
        if total > 0 {
            let digits = decimal_exec(total);
            let digits = string_of(&digits);
            let mut status = String::from_str("Importing ");
            status.append(digits.as_str());
            status.append(" sound(s)...");
            proof {
                reveal_strlit("Importing ");
                reveal_strlit(" sound(s)...");
            }
            self.status = Some(status);
        } else {
            proof {
                reveal_strlit("Scanning dropped files...");
            }
            self.status = Some(String::from_str("Scanning dropped files..."));
        }
        true
    }
}


/// The message when the clipboard holds no files.
pub open spec fn clipboard_empty_status() -> Seq<char> {
    "Clipboard does not contain any files"@
}

/// The message when the files on the clipboard hold no audio.
pub open spec fn clipboard_no_audio_status() -> Seq<char> {
    "Clipboard has no supported audio files"@
}

impl SoundFxApp {
    /// Whether any of the files on the clipboard is, or holds, a supported
    /// audio file.
    pub fn clipboard_has_supported_audio(entries: &Vec<ImportEntry>) -> (r: bool)
        ensures
            r == any_contains_audio(entries@),
    {
        let ghost cs = entries@;
        let mut i: usize = 0;
        while i < entries.len()
            invariant
                i <= entries.len(),
                cs == entries@,
                !any_contains_audio(cs.take(i as int)),
            decreases entries.len() - i,
        {
            proof {
                lemma_entries_take(cs, i as int);
            }
            if Self::path_contains_supported_audio(&entries[i]) {
                proof {
                    lemma_any_contains_prefix(cs, i + 1);
                }
                return true;
            }
            i = i + 1;
        }
        assert(cs.take(cs.len() as int) =~= cs);
        false
    }

    /// Pastes the files of the clipboard into `folder_id`: `path_count` files
    /// were on it, and importing them produced `imported` (their folders
    /// already created) and ignored `ignored` entries. An empty clipboard,
    /// and files without audio, are errors.
    pub fn paste_clipboard_sounds_to_folder(
        &mut self,
        path_count: usize,
        imported: Vec<SoundEffect>,
        ignored: usize,
        folder_id: u128,
    ) -> (r: Result<usize, String>)
        ensures
            path_count == 0 ==> r is Err && r->Err_0@ == clipboard_empty_status() && *final(self) == *old(self),
            path_count > 0 && imported@.len() == 0 ==> {
                &&& r is Err
                &&& r->Err_0@ == (if ignored > 0 && old(self).status is None {
                    crate::jobs::nothing_found_status()
                } else {
                    clipboard_no_audio_status()
                })
                &&& *final(self) == *old(self)
            },
            path_count > 0 && imported@.len() > 0 ==> {
                &&& r == Ok::<usize, String>(imported.len())
                &&& sound_views(final(self).sounds@) == sound_views(imported@) + sound_views(old(self).sounds@)
                &&& final(self).library_audio_tag_filters@.len() == 0
                &&& *final(self) == (SoundFxApp {
                    sounds: final(self).sounds,
                    selected: Some(imported@[0].id),
                    library_audio_tag_filters: final(self).library_audio_tag_filters,
                    library_current_folder: Some(folder_id),
                    pending_save: true,
                    ..*old(self)
                })
            },
    {
        if path_count == 0 {
            proof {
                reveal_strlit("Clipboard does not contain any files");
            }
            return Err(String::from_str("Clipboard does not contain any files"));
        }
        match self.import_paths_to_folder(imported, ignored, Some(folder_id)) {
            Ok(count) => {
                if count == 0 {
                    proof {
                        reveal_strlit("Clipboard has no supported audio files");
                    }
                    Err(String::from_str("Clipboard has no supported audio files"))
                } else {
                    Ok(count)
                }
            },
            Err(e) => Err(e),
        }
    }
}


/// What the import panel offers: entries import does not skip that are
/// directories or supported audio files.
pub open spec fn offered_for_import(e: ImportEntry) -> bool {
    !entry_skipped(e) && (e.is_dir || e.supported_audio)
}

impl SoundFxApp {
    /// Fills the import panel from the listing of the import directory
    /// (`None` when no directory is set, or it is missing or unreadable):
    /// the entries offered for import, in listing order.
    pub fn refresh_import_audio_entries(&mut self, listing: Option<Vec<ImportEntry>>)
        ensures
            match listing {
                Some(l) => sorted_listing(
                    final(self).import_audio_entries@,
                    crate::model::keep(l@, |e: ImportEntry| offered_for_import(e)),
                ),
                None => final(self).import_audio_entries@.len() == 0,
            },
            *final(self) == (SoundFxApp { import_audio_entries: final(self).import_audio_entries, ..*old(self) }),
    {
        let entries = match listing {
            Some(l) => l,
            None => {
                self.import_audio_entries = Vec::new();
                return;
            },
        };
        let ghost all = entries@;
        let ghost p = |e: ImportEntry| offered_for_import(e);
        let mut offered: Vec<ImportEntry> = Vec::new();
        let mut rest = entries;
        let ghost mut k: int = 0;
        while rest.len() > 0
            invariant
                0 <= k <= all.len(),
                p == (|e: ImportEntry| offered_for_import(e)),
                rest@ == all.subrange(k, all.len() as int),
                offered@ == crate::model::keep(all.take(k), p),
            decreases rest.len(),
        {
            let e = rest.remove(0);
            proof {
                assert(all.take(k + 1).drop_last() =~= all.take(k));
                assert(all.take(k + 1).last() == e);
                assert(rest@ =~= all.subrange(k + 1, all.len() as int));
            }
            let name = match &e.file_name {
                Some(n) => Some(n.as_str()),
                None => None,
            };
            let skipped = Self::should_skip_import_path(name, e.hidden_or_system);
            assert(skipped == entry_skipped(e));
            let keep_it = !skipped && (e.is_dir || e.supported_audio);
            assert(keep_it == p(e));
            if keep_it {
                let ghost before = offered@;
                offered.push(e);
                assert(offered@ == before.push(all.take(k + 1).last()));
            }
            proof {
                k = k + 1;
            }
        }
        assert(all.take(all.len() as int) =~= all);
        self.import_audio_entries = Self::sorted_directory_entries(offered);
    }

    /// Opens the import panel with the entries of the import directory (see
    /// `refresh_import_audio_entries`).
    pub fn add_sound(&mut self, listing: Option<Vec<ImportEntry>>)
        ensures
            match listing {
                Some(l) => sorted_listing(
                    final(self).import_audio_entries@,
                    crate::model::keep(l@, |e: ImportEntry| offered_for_import(e)),
                ),
                None => final(self).import_audio_entries@.len() == 0,
            },
            *final(self) == (SoundFxApp {
                import_audio_entries: final(self).import_audio_entries,
                show_import_panel: true,
                ..*old(self)
            }),
    {
        self.refresh_import_audio_entries(listing);
        self.show_import_panel = true;
    }
}


/// The number of folders the steps create.
pub open spec fn creates(s: Seq<StepView>) -> nat
    decreases s.len(),
{
    if s.len() == 0 {
        0
    } else {
        creates(s.drop_last()) + if s.last() is CreateFolder {
            1nat
        } else {
            0nat
        }
    }
}

/// The folder a step refers to: the parent of a folder it creates, or the
/// folder a file goes to.
pub open spec fn step_ref(s: StepView) -> FolderRef {
    match s {
        StepView::CreateFolder { parent, .. } => parent,
        StepView::ImportFile { folder, .. } => folder,
    }
}

/// The reference names an existing folder, or one of the first `n` folders
/// the import creates.
pub open spec fn ref_ok(f: FolderRef, n: nat) -> bool {
    match f {
        FolderRef::Existing(_) => true,
        FolderRef::New(k) => k < n,
    }
}

/// Every step refers to an existing folder or to a folder created before
/// it (counting `base` folders created before the steps).
pub open spec fn refs_ok(s: Seq<StepView>, base: nat) -> bool {
    forall|i: int| 0 <= i < s.len() ==> ref_ok(step_ref(#[trigger] s[i]), base + creates(s.take(i)))
}

pub proof fn lemma_creates_add(a: Seq<StepView>, b: Seq<StepView>)
    ensures
        creates(a + b) == creates(a) + creates(b),
    decreases b.len(),
{
    if b.len() == 0 {
        assert(a + b =~= a);
    } else {
        lemma_creates_add(a, b.drop_last());
        assert((a + b).drop_last() =~= a + b.drop_last());
    }
}

proof fn lemma_refs_ok_concat(a: Seq<StepView>, b: Seq<StepView>, base: nat)
    requires
        refs_ok(a, base),
        refs_ok(b, base + creates(a)),
    ensures
        refs_ok(a + b, base),
{
    assert forall|i: int| 0 <= i < (a + b).len() implies ref_ok(step_ref(#[trigger] (a + b)[i]), base + creates((a + b).take(i))) by {
        if i < a.len() {
            assert((a + b).take(i) =~= a.take(i));
            assert((a + b)[i] == a[i]);
        } else {
            let j = i - a.len();
            assert((a + b).take(i) =~= a + b.take(j));
            lemma_creates_add(a, b.take(j));
            assert((a + b)[i] == b[j]);
        }
    }
}

/// A plan refers only to existing folders and to folders it created before,
/// and counts the folders it creates.
pub proof fn lemma_plan_entry_refs(e: ImportEntry, target: FolderRef, created: nat)
    requires
        ref_ok(target, created),
        created + entry_size(e) <= usize::MAX,
    ensures
        refs_ok(plan_entry(e, target, created).0, created),
        plan_entry(e, target, created).2 == created + creates(plan_entry(e, target, created).0),
        creates(plan_entry(e, target, created).0) <= entry_size(e),
    decreases e,
{
    let empty = Seq::<StepView>::empty();
    assert(creates(empty) == 0);
    if entry_skipped(e) || (e.is_dir && !contains_audio(e)) || (!e.is_dir && !e.supported_audio) {
    } else if e.is_dir {
        let inner = plan_entries(e.children@, FolderRef::New(created as usize), created + 1);
        let name = folder_display_name(name_view(e.file_name));
        let head = seq![StepView::CreateFolder { name: name, parent: target }];
        lemma_plan_entries_refs(e.children@, FolderRef::New(created as usize), created + 1);
        assert(head.drop_last() =~= empty);
        assert(creates(head) == 1);
        assert(head.take(0) =~= empty);
        assert(refs_ok(head, created));
        lemma_refs_ok_concat(head, inner.0, created);
        lemma_creates_add(head, inner.0);
    } else {
        let one = seq![StepView::ImportFile { token: e.token, folder: target }];
        assert(one.drop_last() =~= empty);
        assert(one.take(0) =~= empty);
        assert(creates(one) == 0);
    }
}

pub proof fn lemma_plan_entries_refs(cs: Seq<ImportEntry>, target: FolderRef, created: nat)
    requires
        ref_ok(target, created),
        created + entries_size(cs) <= usize::MAX,
    ensures
        refs_ok(plan_entries(cs, target, created).0, created),
        plan_entries(cs, target, created).2 == created + creates(plan_entries(cs, target, created).0),
        creates(plan_entries(cs, target, created).0) <= entries_size(cs),
    decreases cs,
{
    if cs.len() == 0 {
        assert(creates(Seq::<StepView>::empty()) == 0);
    } else {
        let first = plan_entries(cs.drop_last(), target, created);
        lemma_plan_entries_refs(cs.drop_last(), target, created);
        let mid = first.2;
        assert(ref_ok(target, mid));
        lemma_plan_entry_refs(cs.last(), target, mid);
        let last = plan_entry(cs.last(), target, mid);
        lemma_refs_ok_concat(first.0, last.0, created);
        lemma_creates_add(first.0, last.0);
    }
}

/// The number of files an import plan imports.
pub open spec fn file_steps(s: Seq<StepView>) -> nat
    decreases s.len(),
{
    if s.len() == 0 {
        0
    } else {
        file_steps(s.drop_last()) + if s.last() is ImportFile {
            1nat
        } else {
            0nat
        }
    }
}

/// The files of two plans add up.
pub proof fn lemma_file_steps_add(a: Seq<StepView>, b: Seq<StepView>)
    ensures
        file_steps(a + b) == file_steps(a) + file_steps(b),
    decreases b.len(),
{
    if b.len() == 0 {
        assert(a + b =~= a);
    } else {
        lemma_file_steps_add(a, b.drop_last());
        assert((a + b).drop_last() =~= a + b.drop_last());
        assert((a + b).last() == b.last());
    }
}



/// The folder a reference names, given the ids of the folders the import
/// created, in order.
pub open spec fn resolve_ref(f: FolderRef, created: Seq<u128>) -> Option<u128> {
    match f {
        FolderRef::Existing(id) => id,
        FolderRef::New(k) => Some(created[k as int]),
    }
}

/// The mathematical value of a folder record: id, name and parent.
pub open spec fn folder_views(fs: Seq<Folder>) -> Seq<(u128, Seq<char>, Option<u128>)> {
    fs.map_values(|f: Folder| (f.id, f.name@, f.parent_id))
}

pub open spec fn folder_ids(fs: Seq<Folder>) -> Seq<u128> {
    fs.map_values(|f: Folder| f.id)
}

pub open spec fn sound_ids(ss: Seq<SoundEffect>) -> Seq<u128> {
    ss.map_values(|s: SoundEffect| s.id)
}

/// What carrying out the steps records, given the ids the created folders
/// (`fids`) and sounds (`sids`) got, in order, and the sound name and the
/// progress label of each file: the folders, the sounds, and the label of
/// each imported file in turn.
pub open spec fn executed(
    s: Seq<StepView>,
    names: Seq<Seq<char>>,
    labels: Seq<Seq<char>>,
    fids: Seq<u128>,
    sids: Seq<u128>,
) -> (Seq<(u128, Seq<char>, Option<u128>)>, Seq<SoundView>, Seq<Seq<char>>)
    decreases s.len(),
{
    if s.len() == 0 {
        (Seq::empty(), Seq::empty(), Seq::empty())
    } else {
        let r = executed(s.drop_last(), names, labels, fids, sids);
        match s.last() {
            StepView::CreateFolder { name, parent } => (
                r.0.push((fids[r.0.len() as int], name, resolve_ref(parent, fids))),
                r.1,
                r.2,
            ),
            StepView::ImportFile { token, folder } => (
                r.0,
                r.1.push(
                    SoundView {
                        id: sids[r.1.len() as int],
                        name: names[token as int],
                        tags: Seq::empty(),
                        folder_id: resolve_ref(folder, fids),
                        favorite: false,
                    },
                ),
                r.2.push(labels[token as int]),
            ),
        }
    }
}

/// The files of the steps have a name and a label.
pub open spec fn tokens_in_range(s: Seq<StepView>, n: nat) -> bool {
    forall|i: int| 0 <= i < s.len() ==> (#[trigger] s[i] is ImportFile ==> s[i]->token < n)
}

/// The progress report a message carries: job, completed, total, label.
pub open spec fn progress_view(m: LibraryImportMessage) -> Option<(u128, usize, usize, Seq<char>)> {
    match m {
        LibraryImportMessage::Progress { job_id, completed, total, current_label } => Some(
            (job_id, completed, total, current_label@),
        ),
        _ => None,
    }
}

pub proof fn lemma_executed_lens(
    s: Seq<StepView>,
    names: Seq<Seq<char>>,
    labels: Seq<Seq<char>>,
    fids: Seq<u128>,
    sids: Seq<u128>,
)
    ensures
        executed(s, names, labels, fids, sids).0.len() == creates(s),
        executed(s, names, labels, fids, sids).1.len() == file_steps(s),
        executed(s, names, labels, fids, sids).2.len() == file_steps(s),
    decreases s.len(),
{
    if s.len() > 0 {
        lemma_executed_lens(s.drop_last(), names, labels, fids, sids);
    }
}

proof fn lemma_refs_ok_prefix(s: Seq<StepView>, base: nat, k: int)
    requires
        refs_ok(s, base),
        0 <= k <= s.len(),
    ensures
        refs_ok(s.take(k), base),
{
    assert forall|i: int| 0 <= i < s.take(k).len() implies ref_ok(step_ref(#[trigger] s.take(k)[i]), base + creates(s.take(k).take(i))) by {
        assert(s.take(k).take(i) =~= s.take(i));
        assert(s.take(k)[i] == s[i]);
    }
}

/// Records depend only on the ids of the folders and sounds created so far.
proof fn lemma_executed_prefix(
    s: Seq<StepView>,
    names: Seq<Seq<char>>,
    labels: Seq<Seq<char>>,
    f1: Seq<u128>,
    f2: Seq<u128>,
    s1: Seq<u128>,
    s2: Seq<u128>,
)
    requires
        refs_ok(s, 0),
        creates(s) <= f1.len() <= f2.len(),
        file_steps(s) <= s1.len() <= s2.len(),
        forall|k: int| 0 <= k < f1.len() ==> f1[k] == f2[k],
        forall|k: int| 0 <= k < s1.len() ==> s1[k] == s2[k],
    ensures
        executed(s, names, labels, f1, s1) == executed(s, names, labels, f2, s2),
    decreases s.len(),
{
    if s.len() > 0 {
        let d = s.drop_last();
        lemma_refs_ok_prefix(s, 0, s.len() - 1);
        assert(s.take(s.len() - 1) =~= d);
        assert(creates(d) <= creates(s));
        assert(file_steps(d) <= file_steps(s));
        lemma_executed_prefix(d, names, labels, f1, f2, s1, s2);
        lemma_executed_lens(d, names, labels, f1, s1);
        let last = s[s.len() - 1];
        assert(ref_ok(step_ref(last), creates(s.take(s.len() - 1))));
    }
}

/// Every step refers to `target` or to a folder the import creates.
pub open spec fn refs_within(s: Seq<StepView>, target: FolderRef) -> bool {
    forall|i: int| 0 <= i < s.len() ==> (step_ref(#[trigger] s[i]) == target || step_ref(s[i]) is New)
}

proof fn lemma_refs_within_concat(a: Seq<StepView>, b: Seq<StepView>, target: FolderRef)
    requires
        refs_within(a, target),
        refs_within(b, target),
    ensures
        refs_within(a + b, target),
{
    assert forall|i: int| 0 <= i < (a + b).len() implies (step_ref(#[trigger] (a + b)[i]) == target || step_ref(
        (a + b)[i],
    ) is New) by {
        if i < a.len() {
            assert((a + b)[i] == a[i]);
        } else {
            assert((a + b)[i] == b[i - a.len()]);
        }
    }
}

/// The steps planned for an entry refer to its target or to new folders.
pub proof fn lemma_plan_entry_within(e: ImportEntry, target: FolderRef, created: nat)
    ensures
        refs_within(plan_entry(e, target, created).0, target),
    decreases e,
{
    if entry_skipped(e) || (e.is_dir && !contains_audio(e)) || (!e.is_dir && !e.supported_audio) {
    } else if e.is_dir {
        let inner = plan_entries(e.children@, FolderRef::New(created as usize), created + 1);
        let name = folder_display_name(name_view(e.file_name));
        let head = seq![StepView::CreateFolder { name: name, parent: target }];
        lemma_plan_entries_within(e.children@, FolderRef::New(created as usize), created + 1);
        assert(refs_within(inner.0, target)) by {
            assert forall|i: int| 0 <= i < inner.0.len() implies (step_ref(#[trigger] inner.0[i]) == target
                || step_ref(inner.0[i]) is New) by {
                assert(step_ref(inner.0[i]) == FolderRef::New(created as usize) || step_ref(inner.0[i]) is New);
            }
        }
        assert(refs_within(head, target)) by {
            assert forall|i: int| 0 <= i < head.len() implies (step_ref(#[trigger] head[i]) == target
                || step_ref(head[i]) is New) by {
                assert(head[i] == StepView::CreateFolder { name: name, parent: target });
            }
        }
        lemma_refs_within_concat(head, inner.0, target);
    } else {
        let one = seq![StepView::ImportFile { token: e.token, folder: target }];
        assert(refs_within(one, target)) by {
            assert forall|i: int| 0 <= i < one.len() implies (step_ref(#[trigger] one[i]) == target
                || step_ref(one[i]) is New) by {
                assert(one[i] == StepView::ImportFile { token: e.token, folder: target });
            }
        }
    }
}

/// The steps planned for entries refer to their target or to new folders.
pub proof fn lemma_plan_entries_within(cs: Seq<ImportEntry>, target: FolderRef, created: nat)
    ensures
        refs_within(plan_entries(cs, target, created).0, target),
    decreases cs,
{
    if cs.len() > 0 {
        let first = plan_entries(cs.drop_last(), target, created);
        lemma_plan_entries_within(cs.drop_last(), target, created);
        lemma_plan_entry_within(cs.last(), target, first.2);
        lemma_refs_within_concat(first.0, plan_entry(cs.last(), target, first.2).0, target);
    }
}

/// Carrying out steps that refer to the existing folder `target` or to
/// folders created before them records each folder under `target` or under
/// a folder recorded before it, and each sound in `target` or in a recorded
/// folder.
pub proof fn lemma_executed_parents(
    s: Seq<StepView>,
    target: Option<u128>,
    names: Seq<Seq<char>>,
    labels: Seq<Seq<char>>,
    fids: Seq<u128>,
    sids: Seq<u128>,
)
    requires
        refs_ok(s, 0),
        refs_within(s, FolderRef::Existing(target)),
    ensures
        ({
            let ex = executed(s, names, labels, fids, sids);
            &&& forall|k: int| 0 <= k < ex.0.len() ==> (#[trigger] ex.0[k]).0 == fids[k]
            &&& forall|k: int|
                0 <= k < ex.0.len() ==> (#[trigger] ex.0[k]).2 == target || exists|j: int|
                    0 <= j < k && ex.0[k].2 == Some(ex.0[j].0)
            &&& forall|m: int|
                0 <= m < ex.1.len() ==> (#[trigger] ex.1[m]).folder_id == target || exists|j: int|
                    0 <= j < ex.0.len() && ex.1[m].folder_id == Some(ex.0[j].0)
        }),
    decreases s.len(),
{
    if s.len() > 0 {
        let d = s.drop_last();
        lemma_refs_ok_prefix(s, 0, s.len() - 1);
        assert(s.take(s.len() - 1) =~= d);
        assert(refs_within(d, FolderRef::Existing(target))) by {
            assert forall|i: int| 0 <= i < d.len() implies (step_ref(#[trigger] d[i]) == FolderRef::Existing(
                target,
            ) || step_ref(d[i]) is New) by {
                assert(d[i] == s[i]);
            }
        }
        lemma_executed_parents(d, target, names, labels, fids, sids);
        lemma_executed_lens(d, names, labels, fids, sids);
        let r = executed(d, names, labels, fids, sids);
        let ex = executed(s, names, labels, fids, sids);
        let last = s[s.len() - 1];
        assert(ref_ok(step_ref(last), creates(d)));
        assert(step_ref(last) == FolderRef::Existing(target) || step_ref(last) is New);
        match last {
            StepView::CreateFolder { name, parent } => {
                assert forall|k: int| 0 <= k < ex.0.len() implies (#[trigger] ex.0[k]).2 == target || exists|
                    j: int,
                | 0 <= j < k && ex.0[k].2 == Some(ex.0[j].0) by {
                    if k < r.0.len() {
                        assert(ex.0[k] == r.0[k]);
                        if r.0[k].2 != target {
                            let j = choose|j: int| 0 <= j < k && r.0[k].2 == Some(r.0[j].0);
                            assert(ex.0[j] == r.0[j]);
                        }
                    } else {
                        if let FolderRef::New(j) = parent {
                            assert(ex.0[j as int] == r.0[j as int]);
                        }
                    }
                }
                assert forall|m: int| 0 <= m < ex.1.len() implies (#[trigger] ex.1[m]).folder_id == target
                    || exists|j: int| 0 <= j < ex.0.len() && ex.1[m].folder_id == Some(ex.0[j].0) by {
                    if ex.1[m].folder_id != target {
                        let j = choose|j: int| 0 <= j < r.0.len() && r.1[m].folder_id == Some(r.0[j].0);
                        assert(ex.0[j] == r.0[j]);
                    }
                }
            },
            StepView::ImportFile { token, folder } => {
                assert forall|m: int| 0 <= m < ex.1.len() implies (#[trigger] ex.1[m]).folder_id == target
                    || exists|j: int| 0 <= j < ex.0.len() && ex.1[m].folder_id == Some(ex.0[j].0) by {
                    if m < r.1.len() {
                        assert(ex.1[m] == r.1[m]);
                    } else {
                        if let FolderRef::New(j) = folder {
                            assert(ex.1[m].folder_id == Some(fids[j as int]));
                            assert(ex.0[j as int].0 == fids[j as int]);
                        }
                    }
                }
            },
        }
    }
}

impl SoundFxApp {
    /// Carries out an import plan in the background: creates the folders
    /// and the sound records under fresh random ids (each file's sound named
    /// `names[token]`), and reports progress: first nothing done of `total`,
    /// then one report per imported file, labelled `labels[token]`. The
    /// result is what `poll_library_import_jobs` receives.
    #[verifier::rlimit(60)]
    #[verifier::spinoff_prover]
    pub fn run_import_plan(
        steps: &Vec<ImportStep>,
        names: &Vec<String>,
        labels: &Vec<String>,
        target_folder_id: Option<u128>,
        ignored: usize,
        job_id: u128,
        total: usize,
    ) -> (r: (LibraryImportResult, Vec<LibraryImportMessage>))
        requires
            refs_ok(step_views(steps@), 0),
            tokens_in_range(step_views(steps@), names@.len()),
            tokens_in_range(step_views(steps@), labels@.len()),
            steps@.len() < usize::MAX,
        ensures
            ({
                let ex = executed(
                    step_views(steps@),
                    strs(names@),
                    strs(labels@),
                    folder_ids(r.0.imported_folders@),
                    sound_ids(r.0.imported_sounds@),
                );
                &&& folder_views(r.0.imported_folders@) == ex.0
                &&& sound_views(r.0.imported_sounds@) == ex.1
                &&& r.0.target_folder_id == target_folder_id
                &&& r.0.ignored_count == ignored
                &&& r.1@.len() == ex.2.len() + 1
                &&& progress_view(r.1@[0]) == Some((job_id, 0usize, total, "Preparing import..."@))
                &&& forall|m: int|
                    0 <= m < ex.2.len() ==> progress_view(#[trigger] r.1@[m + 1]) == Some(
                        (job_id, (m + 1) as usize, total, ex.2[m]),
                    )
            }),
    {
        let ghost sv = step_views(steps@);
        let ghost nm = strs(names@);
        let ghost lb = strs(labels@);
        let mut folders: Vec<Folder> = Vec::new();
        let mut sounds: Vec<SoundEffect> = Vec::new();
        let mut progress: Vec<LibraryImportMessage> = Vec::new();
        proof {
            reveal_strlit("Preparing import...");
        }
        progress.push(
            LibraryImportMessage::Progress {
                job_id,
                completed: 0,
                total,
                current_label: String::from_str("Preparing import..."),
            },
        );
        let mut i: usize = 0;
        while i < steps.len()
            invariant
                i <= steps.len(),
                steps@.len() < usize::MAX,
                sv == step_views(steps@),
                nm == strs(names@),
                lb == strs(labels@),
                refs_ok(sv, 0),
                tokens_in_range(sv, names@.len()),
                tokens_in_range(sv, labels@.len()),
                folders@.len() == creates(sv.take(i as int)),
                sounds@.len() == file_steps(sv.take(i as int)),
                sounds@.len() <= i,
                ({
                    let ex = executed(sv.take(i as int), nm, lb, folder_ids(folders@), sound_ids(sounds@));
                    &&& folder_views(folders@) == ex.0
                    &&& sound_views(sounds@) == ex.1
                    &&& progress@.len() == ex.2.len() + 1
                    &&& progress_view(progress@[0]) == Some((job_id, 0usize, total, "Preparing import..."@))
                    &&& forall|m: int|
                        0 <= m < ex.2.len() ==> progress_view(#[trigger] progress@[m + 1]) == Some(
                            (job_id, (m + 1) as usize, total, ex.2[m]),
                        )
                }),
            decreases steps.len() - i,
        {
            let ghost pre = sv.take(i as int);
            let ghost post = sv.take(i + 1);
            let ghost f0 = folder_ids(folders@);
            let ghost s0 = sound_ids(sounds@);
            let ghost p0 = progress@;
            proof {
                assert(post.drop_last() =~= pre);
                assert(post.last() == sv[i as int]);
                assert(sv[i as int] == steps@[i as int]@);
                assert(ref_ok(step_ref(sv[i as int]), creates(pre)));
                lemma_refs_ok_prefix(sv, 0, i as int);
                lemma_executed_lens(pre, nm, lb, f0, s0);
            }
            match &steps[i] {
                ImportStep::CreateFolder { name, parent } => {
                    let parent_id = match parent {
                        FolderRef::Existing(id) => *id,
                        FolderRef::New(k) => Some(folders[*k].id),
                    };
                    let id = crate::model::new_uuid();
                    folders.push(Folder { id, name: name.clone(), parent_id });
                    proof {
                        let f1 = folder_ids(folders@);
                        assert(f1 =~= f0.push(id));
                        lemma_executed_prefix(pre, nm, lb, f0, f1, s0, s0);
                        assert(resolve_ref(*parent, f1) == parent_id);
                        assert(folder_views(folders@) =~= executed(pre, nm, lb, f0, s0).0.push((id, name@, parent_id)));
                        assert(sound_ids(sounds@) == s0);
                    }
                },
                ImportStep::ImportFile { token, folder } => {
                    let folder_id = match folder {
                        FolderRef::Existing(id) => *id,
                        FolderRef::New(k) => Some(folders[*k].id),
                    };
                    let id = crate::model::new_uuid();
                    let sound = SoundEffect {
                        id,
                        name: names[*token].clone(),
                        tags: Vec::new(),
                        folder_id,
                        favorite: false,
                    };
                    proof {
                        assert(sound@.tags =~= Seq::<Seq<char>>::empty());
                    }
                    sounds.push(sound);
                    let completed = sounds.len();
                    progress.push(
                        LibraryImportMessage::Progress {
                            job_id,
                            completed,
                            total,
                            current_label: labels[*token].clone(),
                        },
                    );
                    proof {
                        let s1 = sound_ids(sounds@);
                        assert(s1 =~= s0.push(id));
                        lemma_executed_prefix(pre, nm, lb, f0, f0, s0, s1);
                        assert(resolve_ref(*folder, f0) == folder_id);
                        let ex0 = executed(pre, nm, lb, f0, s0);
                        assert(sound_views(sounds@) =~= ex0.1.push(sounds@[sounds@.len() - 1]@));
                        assert(nm[*token as int] == names@[*token as int]@);
                        assert(lb[*token as int] == labels@[*token as int]@);
                        let ex1 = executed(post, nm, lb, f0, s1);
                        assert(ex1.2 == ex0.2.push(lb[*token as int]));
                        assert forall|m: int| 0 <= m < ex1.2.len() implies progress_view(#[trigger] progress@[m + 1])
                            == Some((job_id, (m + 1) as usize, total, ex1.2[m])) by {
                            if m < ex0.2.len() {
                                assert(progress@[m + 1] == p0[m + 1]);
                            }
                        }
                        assert(folder_ids(folders@) == f0);
                    }
                },
            }
            i = i + 1;
        }
        proof {
            assert(sv.take(sv.len() as int) =~= sv);
        }
        let result = LibraryImportResult {
            target_folder_id,
            imported_sounds: sounds,
            imported_folders: folders,
            ignored_count: ignored,
        };
        (result, progress)
    }
}


pub proof fn lemma_audio_count_le_size(e: ImportEntry)
    ensures
        audio_count(e) <= entry_size(e),
    decreases e,
{
    lemma_audio_counts_le_size(e.children@);
}

pub proof fn lemma_audio_counts_le_size(cs: Seq<ImportEntry>)
    ensures
        audio_counts(cs) <= entries_size(cs),
    decreases cs,
{
    if cs.len() > 0 {
        lemma_audio_counts_le_size(cs.drop_last());
        lemma_audio_count_le_size(cs.last());
    }
}

impl SoundFxApp {
    /// The number of entries in the tree, when it fits in `usize`.
    fn entry_size_checked(e: &ImportEntry) -> (r: Option<usize>)
        ensures
            match r {
                Some(n) => n == entry_size(*e),
                None => entry_size(*e) > usize::MAX,
            },
        decreases *e,
    {
        match Self::entries_size_checked(&e.children) {
            Some(n) => n.checked_add(1),
            None => None,
        }
    }

    fn entries_size_checked(cs: &Vec<ImportEntry>) -> (r: Option<usize>)
        ensures
            match r {
                Some(n) => n == entries_size(cs@),
                None => entries_size(cs@) > usize::MAX,
            },
        decreases cs@,
    {
        let ghost v = cs@;
        let mut total: usize = 0;
        let mut i: usize = 0;
        while i < cs.len()
            invariant
                i <= cs.len(),
                v == cs@,
                total == entries_size(v.take(i as int)),
            decreases cs.len() - i,
        {
            proof {
                lemma_entries_take(v, i as int);
                lemma_size_prefix(v, i + 1);
            }
            match Self::entry_size_checked(&cs[i]) {
                Some(n) => match total.checked_add(n) {
                    Some(t) => {
                        total = t;
                    },
                    None => {
                        return None;
                    },
                },
                None => {
                    proof {
                        lemma_size_prefix(v, i + 1);
                    }
                    return None;
                },
            }
            i = i + 1;
        }
        assert(v.take(v.len() as int) =~= v);
        Some(total)
    }

    /// Whether an import of the entries can be planned and counted: the
    /// number of entries (and so of audio files among them) fits in `usize`.
    /// Whether every file of the plan has a handle below `n`.
    pub fn plan_tokens_in_range(steps: &Vec<ImportStep>, n: usize) -> (r: bool)
        ensures
            r == tokens_in_range(step_views(steps@), n as nat),
    {
        let mut i: usize = 0;
        while i < steps.len()
            invariant
                i <= steps.len(),
                forall|j: int| 0 <= j < i ==> (#[trigger] step_views(steps@)[j] is ImportFile ==> step_views(steps@)[j]->token < n),
            decreases steps.len() - i,
        {
            match &steps[i] {
                ImportStep::ImportFile { token, .. } => {
                    if *token >= n {
                        assert(step_views(steps@)[i as int] is ImportFile);
                        return false;
                    }
                },
                ImportStep::CreateFolder { .. } => {},
            }
            i = i + 1;
        }
        true
    }

    pub fn import_fits(entries: &Vec<ImportEntry>) -> (r: bool)
        ensures
            r == (entries_size(entries@) <= usize::MAX),
            r ==> audio_counts(entries@) <= usize::MAX,
    {
        proof {
            lemma_audio_counts_le_size(entries@);
        }
        Self::entries_size_checked(entries).is_some()
    }
}

} // verus!
