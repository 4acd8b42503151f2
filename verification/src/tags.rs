use vstd::prelude::*;
use crate::model::{SoundEffect, SoundFxApp, SoundView, sound_views, strs};
use crate::text::{
    chars_of, contains_chars, eq_chars, eq_ignore_case, eq_ignore_case_chars, lemma_lt_total,
    lemma_lt_transitive, lower_chars, lt_chars, seq_lt, spec_contains, spec_lower,
    spec_normalize, string_of, trim_chars,
};

verus! {

// ---------------------------------------------------------------------------
// Specifications
// ---------------------------------------------------------------------------

/// A name matches a search query when the trimmed query is empty or occurs in
/// the name, both compared in ASCII lower case.
pub open spec fn query_matches(name: Seq<char>, query: Seq<char>) -> bool {
    spec_normalize(query).len() == 0 || spec_contains(spec_lower(name), spec_normalize(query))
}

/// A sound matches a search query when the query matches its name or one of its tags.
pub open spec fn sound_query_matches(s: SoundView, query: Seq<char>) -> bool {
    ||| spec_normalize(query).len() == 0
    ||| spec_contains(spec_lower(s.name), spec_normalize(query))
    ||| exists|t: int|
        0 <= t < s.tags.len() && spec_contains(spec_lower(s.tags[t]), spec_normalize(query))
}

/// Every filter is one of the tags, up to ASCII case.
pub open spec fn tags_match_filters(tags: Seq<Seq<char>>, filters: Seq<Seq<char>>) -> bool {
    forall|f: int| 0 <= f < filters.len() ==> has_tag(tags, #[trigger] filters[f])
}

/// The characters that separate tags in a tag list.
pub open spec fn is_tag_separator(c: char) -> bool {
    c == ',' || c == ';' || c == '\n'
}

/// The pieces of a text between separators, empty pieces included (`str::split`).
pub open spec fn split_tags(s: Seq<char>) -> Seq<Seq<char>>
    decreases s.len(),
{
    if s.len() == 0 {
        seq![Seq::empty()]
    } else {
        let pieces = split_tags(s.drop_last());
        if is_tag_separator(s.last()) {
            pieces.push(Seq::empty())
        } else {
            pieces.update(pieces.len() - 1, pieces.last().push(s.last()))
        }
    }
}

/// The normalized pieces, without empty ones and without repeats, in order of
/// first appearance.
pub open spec fn collect_tags(pieces: Seq<Seq<char>>) -> Seq<Seq<char>>
    decreases pieces.len(),
{
    if pieces.len() == 0 {
        Seq::empty()
    } else {
        let r = collect_tags(pieces.drop_last());
        let t = spec_normalize(pieces.last());
        if t.len() == 0 || r.contains(t) {
            r
        } else {
            r.push(t)
        }
    }
}

/// The tags written in a text.
pub open spec fn parse_tags_spec(text: Seq<char>) -> Seq<Seq<char>> {
    collect_tags(split_tags(text))
}

/// The separator written between tags.
pub open spec fn tag_separator() -> Seq<char> {
    seq![',', ' ']
}

/// The parts joined with `sep` between each two (`[String]::join`).
pub open spec fn spec_join(parts: Seq<Seq<char>>, sep: Seq<char>) -> Seq<char>
    decreases parts.len(),
{
    if parts.len() == 0 {
        Seq::empty()
    } else if parts.len() == 1 {
        parts[0]
    } else {
        spec_join(parts.drop_last(), sep) + sep + parts.last()
    }
}

/// The tags without those equal to `tag` up to ASCII case.
pub open spec fn remove_tag(tags: Seq<Seq<char>>, tag: Seq<char>) -> Seq<Seq<char>>
    decreases tags.len(),
{
    if tags.len() == 0 {
        Seq::empty()
    } else {
        let r = remove_tag(tags.drop_last(), tag);
        if eq_ignore_case(tags.last(), tag) {
            r
        } else {
            r.push(tags.last())
        }
    }
}

/// Some tag equals `tag` up to ASCII case.
pub open spec fn has_tag(tags: Seq<Seq<char>>, tag: Seq<char>) -> bool {
    exists|i: int| 0 <= i < tags.len() && eq_ignore_case(#[trigger] tags[i], tag)
}

/// The tag list after clicking the chip of `tag` (already normalized): an
/// active chip is removed, an inactive one is added unless already present.
pub open spec fn toggle_tag(tags: Seq<Seq<char>>, tag: Seq<char>, active: bool) -> Seq<Seq<char>> {
    if active {
        remove_tag(tags, tag)
    } else if has_tag(tags, tag) {
        tags
    } else {
        tags.push(tag)
    }
}

// ---------------------------------------------------------------------------
// Helpers on vectors of characters
// ---------------------------------------------------------------------------

/// The trimmed, lower-cased characters of a text.
pub fn normalized_chars(s: &str) -> (r: Vec<char>)
    ensures
        r@ == spec_normalize(s@),
{
    let v = chars_of(s);
    let t = trim_chars(&v);
    lower_chars(&t)
}

/// Whether `q` occurs in the lower-cased text.
pub fn lower_contains(hay: &str, q: &Vec<char>) -> (r: bool)
    ensures
        r == spec_contains(spec_lower(hay@), q@),
{
    let v = chars_of(hay);
    let l = lower_chars(&v);
    contains_chars(&l, q)
}

/// Whether two texts are equal up to ASCII case.
pub fn eq_ignore_case_str(a: &str, b: &str) -> (r: bool)
    ensures
        r == eq_ignore_case(a@, b@),
{
    let x = chars_of(a);
    let y = chars_of(b);
    eq_ignore_case_chars(&x, &y)
}

/// Whether some string of `tags` equals `tag` up to ASCII case.
pub fn has_tag_exec(tags: &[String], tag: &str) -> (r: bool)
    ensures
        r == has_tag(strs(tags@), tag@),
{
    let mut i: usize = 0;
    while i < tags.len()
        invariant
            i <= tags.len(),
            forall|j: int| 0 <= j < i ==> !eq_ignore_case(#[trigger] strs(tags@)[j], tag@),
        decreases tags.len() - i,
    {
        if eq_ignore_case_str(tags[i].as_str(), tag) {
            assert(eq_ignore_case(strs(tags@)[i as int], tag@));
            return true;
        }
        i = i + 1;
    }
    false
}

/// Whether the trimmed query `q` (lower case) matches the sound.
pub fn sound_matches_normalized(sound: &SoundEffect, q: &Vec<char>) -> (r: bool)
    ensures
        r == (q@.len() == 0 || spec_contains(spec_lower(sound@.name), q@) || exists|t: int|
            0 <= t < sound@.tags.len() && spec_contains(spec_lower(sound@.tags[t]), q@)),
{
    if q.len() == 0 {
        return true;
    }
    if lower_contains(sound.name.as_str(), q) {
        return true;
    }
    let mut i: usize = 0;
    while i < sound.tags.len()
        invariant
            i <= sound.tags.len(),
            forall|t: int| 0 <= t < i ==> !spec_contains(spec_lower(sound@.tags[t]), q@),
        decreases sound.tags.len() - i,
    {
        if lower_contains(sound.tags[i].as_str(), q) {
            assert(spec_contains(spec_lower(sound@.tags[i as int]), q@));
            return true;
        }
        i = i + 1;
    }
    false
}

/// The views of a sequence of character vectors.
pub open spec fn char_views(v: Seq<Vec<char>>) -> Seq<Seq<char>> {
    v.map_values(|x: Vec<char>| x@)
}

/// Splitting gives at least one piece.
pub proof fn lemma_split_nonempty(s: Seq<char>)
    ensures
        split_tags(s).len() >= 1,
    decreases s.len(),
{
    if s.len() > 0 {
        lemma_split_nonempty(s.drop_last());
    }
}

/// Appends the normalized `piece` unless it is empty or already present.
fn add_tag_piece(result: &mut Vec<Vec<char>>, piece: &Vec<char>)
    ensures
        char_views(final(result)@) == ({
            let t = spec_normalize(piece@);
            if t.len() == 0 || char_views(old(result)@).contains(t) {
                char_views(old(result)@)
            } else {
                char_views(old(result)@).push(t)
            }
        }),
{
    let trimmed = trim_chars(piece);
    let t = lower_chars(&trimmed);
    if t.len() == 0 {
        return;
    }
    let mut i: usize = 0;
    while i < result.len()
        invariant
            i <= result.len(),
            result@ == old(result)@,
            t@ == spec_normalize(piece@),
            forall|j: int| 0 <= j < i ==> char_views(result@)[j] != t@,
        decreases result.len() - i,
    {
        if eq_chars(&result[i], &t) {
            assert(char_views(result@)[i as int] == t@);
            assert(char_views(old(result)@).contains(t@));
            return;
        }
        i = i + 1;
    }
    let ghost before = char_views(result@);
    result.push(t);
    assert(char_views(result@) =~= before.push(t@));
}

/// Strings holding the given character sequences.
fn strings_of(v: &Vec<Vec<char>>) -> (r: Vec<String>)
    ensures
        strs(r@) == char_views(v@),
{
    let mut r: Vec<String> = Vec::new();
    let mut i: usize = 0;
    while i < v.len()
        invariant
            i <= v.len(),
            strs(r@) == char_views(v@).take(i as int),
        decreases v.len() - i,
    {
        let s = string_of(&v[i]);
        let ghost before = r@;
        r.push(s);
        assert(r@ == before.push(s));
        assert(strs(r@) =~= strs(before).push(s@));
        assert(char_views(v@).take(i + 1) =~= char_views(v@).take(i as int).push(v@[i as int]@));
        i = i + 1;
        assert(strs(r@) =~= char_views(v@).take(i as int));
    }
    assert(char_views(v@).take(v.len() as int) =~= char_views(v@));
    r
}

/// The strings not equal to `tag` up to ASCII case.
fn remove_tag_exec(tags: Vec<String>, tag: &str) -> (r: Vec<String>)
    ensures
        strs(r@) == remove_tag(strs(tags@), tag@),
{
    let mut r: Vec<String> = Vec::new();
    let mut i: usize = 0;
    while i < tags.len()
        invariant
            i <= tags.len(),
            strs(r@) == remove_tag(strs(tags@).take(i as int), tag@),
        decreases tags.len() - i,
    {
        assert(strs(tags@).take(i + 1).drop_last() =~= strs(tags@).take(i as int));
        if !eq_ignore_case_str(tags[i].as_str(), tag) {
            r.push(tags[i].clone());
        }
        i = i + 1;
        assert(strs(r@) =~= remove_tag(strs(tags@).take(i as int), tag@));
    }
    assert(strs(tags@).take(tags.len() as int) =~= strs(tags@));
    r
}

/// All tags of all sounds, in library order.
pub open spec fn all_sound_tags(sounds: Seq<SoundView>) -> Seq<Seq<char>>
    decreases sounds.len(),
{
    if sounds.len() == 0 {
        Seq::empty()
    } else {
        all_sound_tags(sounds.drop_last()) + sounds.last().tags
    }
}

/// The filters that name a tag present in `available`, up to ASCII case.
pub open spec fn keep_available(filters: Seq<Seq<char>>, available: Seq<Seq<char>>) -> Seq<
    Seq<char>,
>
    decreases filters.len(),
{
    if filters.len() == 0 {
        Seq::empty()
    } else {
        let r = keep_available(filters.drop_last(), available);
        if has_tag(available, filters.last()) {
            r.push(filters.last())
        } else {
            r
        }
    }
}

/// The distinct tags of the library: one spelling per lower-case form, sorted
/// by lower-case form.
pub open spec fn is_distinct_tag_list(r: Seq<Seq<char>>, all: Seq<Seq<char>>) -> bool {
    &&& forall|i: int, j: int|
        0 <= i < j < r.len() ==> seq_lt(spec_lower(#[trigger] r[i]), spec_lower(#[trigger] r[j]))
    &&& forall|i: int| 0 <= i < r.len() ==> all.contains(#[trigger] r[i])
    &&& forall|k: int| 0 <= k < all.len() ==> has_tag(r, #[trigger] all[k])
}

/// All tags of the sounds, in order.
fn flatten_sound_tags(sounds: &Vec<SoundEffect>) -> (r: Vec<String>)
    ensures
        strs(r@) == all_sound_tags(sound_views(sounds@)),
{
    let mut r: Vec<String> = Vec::new();
    let mut i: usize = 0;
    while i < sounds.len()
        invariant
            i <= sounds.len(),
            strs(r@) == all_sound_tags(sound_views(sounds@).take(i as int)),
        decreases sounds.len() - i,
    {
        assert(sound_views(sounds@).take(i + 1).drop_last() =~= sound_views(sounds@).take(
            i as int,
        ));
        let ghost base = strs(r@);
        let mut k: usize = 0;
        while k < sounds[i].tags.len()
            invariant
                i < sounds.len(),
                k <= sounds[i as int].tags.len(),
                strs(r@) == base + strs(sounds[i as int].tags@).take(k as int),
            decreases sounds[i as int].tags.len() - k,
        {
            let ghost before = r@;
            r.push(sounds[i].tags[k].clone());
            assert(strs(r@) =~= strs(before).push(sounds[i as int].tags@[k as int]@));
            assert(strs(sounds[i as int].tags@).take(k + 1) =~= strs(sounds[i as int].tags@).take(
                k as int,
            ).push(sounds[i as int].tags@[k as int]@));
            assert(base + strs(sounds[i as int].tags@).take(k + 1) =~= (base + strs(
                sounds[i as int].tags@,
            ).take(k as int)).push(sounds[i as int].tags@[k as int]@));
            k = k + 1;
        }
        assert(strs(sounds[i as int].tags@).take(k as int) =~= strs(sounds[i as int].tags@));
        assert(sound_views(sounds@).take(i + 1).last() == sounds@[i as int]@);
        i = i + 1;
    }
    assert(sound_views(sounds@).take(sounds.len() as int) =~= sound_views(sounds@));
    r
}

impl SoundFxApp {
    /// The distinct tags used in the library, sorted by their lower-case form;
    /// of tags that differ only in case one spelling is kept.
    pub fn distinct_sound_tags(&self) -> (r: Vec<String>)
        ensures
            is_distinct_tag_list(strs(r@), all_sound_tags(sound_views(self.sounds@))),
    {
        let flat = flatten_sound_tags(&self.sounds);
        let ghost all = strs(flat@);
        let mut r: Vec<String> = Vec::new();
        let mut keys: Vec<Vec<char>> = Vec::new();
        let mut i: usize = 0;
        while i < flat.len()
            invariant
                i <= flat.len(),
                all == strs(flat@),
                keys.len() == r.len(),
                forall|x: int| 0 <= x < r.len() ==> #[trigger] keys@[x]@ == spec_lower(strs(r@)[x]),
                forall|x: int, y: int|
                    0 <= x < y < r.len() ==> seq_lt(
                        spec_lower(#[trigger] strs(r@)[x]),
                        spec_lower(#[trigger] strs(r@)[y]),
                    ),
                forall|x: int| 0 <= x < r.len() ==> all.contains(#[trigger] strs(r@)[x]),
                forall|k: int| 0 <= k < i ==> has_tag(strs(r@), #[trigger] all[k]),
            decreases flat.len() - i,
        {
            if !has_tag_exec(&r, flat[i].as_str()) {
                let tv = chars_of(flat[i].as_str());
                let key = lower_chars(&tv);
                let mut p: usize = 0;
                while p < keys.len() && !lt_chars(&key, &keys[p])
                    invariant
                        p <= keys.len(),
                        keys.len() == r.len(),
                        forall|x: int| 0 <= x < p ==> !seq_lt(key@, #[trigger] keys@[x]@),
                    decreases keys.len() - p,
                {
                    p = p + 1;
                }
                let ghost old_r = strs(r@);
                let ghost old_keys = keys@;
                let ghost t = all[i as int];
                assert(key@ == spec_lower(t));
                proof {
                    assert forall|x: int| 0 <= x < old_r.len() implies spec_lower(old_r[x]) != key@ by {
                        if spec_lower(old_r[x]) == key@ {
                            assert(eq_ignore_case(old_r[x], t));
                        }
                    }
                    assert forall|x: int| 0 <= x < p implies seq_lt(spec_lower(old_r[x]), key@) by {
                        assert(old_keys[x]@ == spec_lower(old_r[x]));
                        lemma_lt_total(spec_lower(old_r[x]), key@);
                    }
                    assert forall|x: int| p <= x < old_r.len() implies seq_lt(key@, spec_lower(old_r[x])) by {
                        assert(seq_lt(key@, old_keys[p as int]@));
                        if x > p {
                            lemma_lt_transitive(key@, spec_lower(old_r[p as int]), spec_lower(old_r[x]));
                        }
                    }
                }
                r.insert(p, flat[i].clone());
                keys.insert(p, key);
                proof {
                    old_r.insert_ensures(p as int, t);
                    old_keys.insert_ensures(p as int, key);
                    assert(strs(r@) =~= old_r.insert(p as int, t));
                    let nr = strs(r@);
                    assert forall|x: int| 0 <= x < r.len() implies #[trigger] keys@[x]@ == spec_lower(nr[x]) by {
                        if x < p {
                        } else if x == p {
                        } else {
                            assert(keys@[x] == old_keys[x - 1]);
                            assert(nr[x] == old_r[x - 1]);
                        }
                    }
                    assert forall|x: int, y: int| 0 <= x < y < r.len() implies seq_lt(
                        spec_lower(#[trigger] nr[x]),
                        spec_lower(#[trigger] nr[y]),
                    ) by {
                        if y < p {
                        } else if y == p {
                        } else if x < p {
                            assert(nr[y] == old_r[y - 1]);
                            lemma_lt_transitive(spec_lower(nr[x]), key@, spec_lower(nr[y]));
                        } else if x == p {
                            assert(nr[y] == old_r[y - 1]);
                        } else {
                            assert(nr[x] == old_r[x - 1]);
                            assert(nr[y] == old_r[y - 1]);
                        }
                    }
                    assert forall|x: int| 0 <= x < r.len() implies all.contains(#[trigger] nr[x]) by {
                        if x < p {
                        } else if x == p {
                            assert(all[i as int] == t);
                        } else {
                            assert(nr[x] == old_r[x - 1]);
                        }
                    }
                    assert forall|k: int| 0 <= k <= i implies has_tag(nr, #[trigger] all[k]) by {
                        if k == i {
                            assert(eq_ignore_case(nr[p as int], all[k]));
                        } else {
                            assert(has_tag(old_r, all[k]));
                            let x = choose|x: int| 0 <= x < old_r.len() && eq_ignore_case(#[trigger] old_r[x], all[k]);
                            if x < p {
                                assert(nr[x] == old_r[x]);
                            } else {
                                assert(nr[x + 1] == old_r[x]);
                            }
                        }
                    }
                }
            } else {
                assert(has_tag(strs(r@), all[i as int]));
            }
            i = i + 1;
        }
        r
    }

    /// Drops the selected tag filters that no sound carries any more.
    pub fn reconcile_library_audio_tag_filter(&mut self)
        ensures
            strs(final(self).library_audio_tag_filters@) == keep_available(
                strs(old(self).library_audio_tag_filters@),
                all_sound_tags(sound_views(old(self).sounds@)),
            ),
            *final(self) == (SoundFxApp {
                library_audio_tag_filters: final(self).library_audio_tag_filters,
                ..*old(self)
            }),
    {
        let flat = flatten_sound_tags(&self.sounds);
        let mut kept: Vec<String> = Vec::new();
        let mut i: usize = 0;
        let ghost filters = strs(self.library_audio_tag_filters@);
        while i < self.library_audio_tag_filters.len()
            invariant
                i <= self.library_audio_tag_filters.len(),
                filters == strs(self.library_audio_tag_filters@),
                strs(flat@) == all_sound_tags(sound_views(self.sounds@)),
                strs(kept@) == keep_available(filters.take(i as int), strs(flat@)),
            decreases self.library_audio_tag_filters.len() - i,
        {
            assert(filters.take(i + 1).drop_last() =~= filters.take(i as int));
            if has_tag_exec(&flat, self.library_audio_tag_filters[i].as_str()) {
                let ghost before = kept@;
                kept.push(self.library_audio_tag_filters[i].clone());
                assert(strs(kept@) =~= strs(before).push(filters[i as int]));
            }
            i = i + 1;
        }
        assert(filters.take(filters.len() as int) =~= filters);
        self.library_audio_tag_filters = kept;
    }

    /// The trimmed, lower-cased tag, or `None` when nothing is left.
    pub fn normalize_tag(tag: &str) -> (r: Option<String>)
        ensures
            match r {
                Some(t) => spec_normalize(tag@).len() > 0 && t@ == spec_normalize(tag@),
                None => spec_normalize(tag@).len() == 0,
            },
    {
        let t = normalized_chars(tag);
        if t.len() == 0 {
            None
        } else {
            Some(string_of(&t))
        }
    }

    /// The tags written in `text`, separated by commas, semicolons or line
    /// breaks: normalized, without empty ones and without repeats.
    pub fn parse_tags(text: &str) -> (r: Vec<String>)
        ensures
            strs(r@) == parse_tags_spec(text@),
    {
        let v = chars_of(text);
        let mut result: Vec<Vec<char>> = Vec::new();
        let mut cur: Vec<char> = Vec::new();
        let mut i: usize = 0;
        proof {
            assert(v@.take(0) =~= Seq::<char>::empty());
            assert(split_tags(v@.take(0)) =~= seq![Seq::<char>::empty()]);
        }
        while i < v.len()
            invariant
                i <= v.len(),
                split_tags(v@.take(i as int)).len() >= 1,
                char_views(result@) == collect_tags(split_tags(v@.take(i as int)).drop_last()),
                cur@ == split_tags(v@.take(i as int)).last(),
            decreases v.len() - i,
        {
            let ghost p = split_tags(v@.take(i as int));
            assert(v@.take(i + 1).drop_last() =~= v@.take(i as int));
            assert(v@.take(i + 1).last() == v@[i as int]);
            if v[i] == ',' || v[i] == ';' || v[i] == '\n' {
                assert(split_tags(v@.take(i + 1)) == p.push(Seq::empty()));
                assert(p.push(Seq::<char>::empty()).drop_last() =~= p);
                add_tag_piece(&mut result, &cur);
                cur = Vec::new();
            } else {
                assert(split_tags(v@.take(i + 1)) == p.update(
                    p.len() - 1,
                    p.last().push(v@[i as int]),
                ));
                assert(p.update(p.len() - 1, p.last().push(v@[i as int])).drop_last()
                    =~= p.drop_last());
                cur.push(v[i]);
            }
            i = i + 1;
            proof {
                lemma_split_nonempty(v@.take(i as int));
            }
        }
        assert(v@.take(v.len() as int) =~= v@);
        add_tag_piece(&mut result, &cur);
        strings_of(&result)
    }

    /// The tags joined by `", "`.
    pub fn join_tags(tags: &[String]) -> (r: String)
        ensures
            r@ == spec_join(strs(tags@), tag_separator()),
    {
        let mut r = String::new();
        let mut i: usize = 0;
        while i < tags.len()
            invariant
                i <= tags.len(),
                r@ == spec_join(strs(tags@).take(i as int), tag_separator()),
            decreases tags.len() - i,
        {
            assert(strs(tags@).take(i + 1).drop_last() =~= strs(tags@).take(i as int));
            if i > 0 {
                proof {
                    reveal_strlit(", ");
                }
                r.append(", ");
                assert(", "@ =~= tag_separator());
            }
            r.append(tags[i].as_str());
            i = i + 1;
        }
        assert(strs(tags@).take(tags.len() as int) =~= strs(tags@));
        r
    }

    /// Clicks the chip of `tag` in the tag text `input`: removes the tag when
    /// `active`, adds it otherwise; the text is rewritten in normal form.
    pub fn apply_tag_to_input(input: &mut String, tag: &str, active: bool)
        ensures
            final(input)@ == (if spec_normalize(tag@).len() == 0 {
                old(input)@
            } else {
                spec_join(
                    toggle_tag(parse_tags_spec(old(input)@), spec_normalize(tag@), active),
                    tag_separator(),
                )
            }),
    {
        let tags = Self::parse_tags(input.as_str());
        let normalized = match Self::normalize_tag(tag) {
            Some(t) => t,
            None => {
                return;
            },
        };
        let mut tags = tags;
        if active {
            tags = remove_tag_exec(tags, normalized.as_str());
        } else if !has_tag_exec(&tags, normalized.as_str()) {
            let ghost before = strs(tags@);
            tags.push(normalized);
            assert(strs(tags@) =~= before.push(spec_normalize(tag@)));
        }
        *input = Self::join_tags(&tags);
    }

    /// Whether `name` matches the search `query`.
    pub fn library_query_matches(name: &str, query: &str) -> (r: bool)
        ensures
            r == query_matches(name@, query@),
    {
        let q = normalized_chars(query);
        if q.len() == 0 {
            return true;
        }
        lower_contains(name, &q)
    }

    /// Whether the sound's name or one of its tags matches the search `query`.
    pub fn library_sound_query_matches(sound: &SoundEffect, query: &str) -> (r: bool)
        ensures
            r == sound_query_matches(sound@, query@),
    {
        let q = normalized_chars(query);
        sound_matches_normalized(sound, &q)
    }

    /// Whether the sound carries every selected filter tag (up to ASCII case).
    pub fn sound_tag_matches_filters(tags: &[String], filters: &[String]) -> (r: bool)
        ensures
            r == tags_match_filters(strs(tags@), strs(filters@)),
    {
        let mut f: usize = 0;
        while f < filters.len()
            invariant
                f <= filters.len(),
                forall|g: int|
                    0 <= g < f ==> has_tag(strs(tags@), #[trigger] strs(filters@)[g]),
            decreases filters.len() - f,
        {
            if !has_tag_exec(tags, filters[f].as_str()) {
                assert(!has_tag(strs(tags@), strs(filters@)[f as int]));
                return false;
            }
            f = f + 1;
        }
        true
    }
}


impl SoundFxApp {
    /// Saves the tags typed in the editor's tag field to the sound at
    /// `index`: the tags the field holds, as `parse_tags` reads them. The
    /// library is then to be saved.
    pub fn commit_editor_tags(&mut self, index: usize)
        requires
            index < old(self).sounds@.len(),
        ensures
            sound_views(final(self).sounds@) == sound_views(old(self).sounds@).update(
                index as int,
                SoundView {
                    tags: parse_tags_spec(old(self).editor_tags_input@),
                    ..sound_views(old(self).sounds@)[index as int]
                },
            ),
            *final(self) == (SoundFxApp { sounds: final(self).sounds, pending_save: true, ..*old(self) }),
    {
        let tags = Self::parse_tags(self.editor_tags_input.as_str());
        let old_sound = &self.sounds[index];
        let updated = SoundEffect {
            id: old_sound.id,
            name: old_sound.name.clone(),
            tags,
            folder_id: old_sound.folder_id,
            favorite: old_sound.favorite,
        };
        let ghost before = sound_views(self.sounds@);
        self.sounds.set(index, updated);
        assert(sound_views(self.sounds@) =~= before.update(
            index as int,
            SoundView { tags: parse_tags_spec(old(self).editor_tags_input@), ..before[index as int] },
        ));
        self.pending_save = true;
    }

    /// Clicking the chip of `tag` in the library's tag filter row: an active
    /// filter is dropped (every spelling of it), an inactive tag becomes a
    /// filter.
    pub fn toggle_library_audio_tag_filter(&mut self, tag: &str, active: bool)
        ensures
            strs(final(self).library_audio_tag_filters@) == (if active {
                remove_tag(strs(old(self).library_audio_tag_filters@), tag@)
            } else {
                strs(old(self).library_audio_tag_filters@).push(tag@)
            }),
            *final(self) == (SoundFxApp {
                library_audio_tag_filters: final(self).library_audio_tag_filters,
                ..*old(self)
            }),
    {
        if active {
            let mut filters: Vec<String> = Vec::new();
            std::mem::swap(&mut filters, &mut self.library_audio_tag_filters);
            self.library_audio_tag_filters = remove_tag_exec(filters, tag);
        } else {
            let ghost before = strs(self.library_audio_tag_filters@);
            self.library_audio_tag_filters.push(tag.to_string());
            assert(strs(self.library_audio_tag_filters@) =~= before.push(tag@));
        }
    }
}

} // verus!
