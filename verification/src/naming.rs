use vstd::prelude::*;
use vstd::set_lib::{lemma_int_range, lemma_len_subset, set_int_range};
use crate::model::SoundFxApp;
use crate::text::{chars_of, eq_ignore_case, eq_ignore_case_chars, spec_lower, string_of};

verus! {

/// The decimal digit `d` (below ten).
pub open spec fn digit_char(d: nat) -> char {
    (48 + d) as char
}

/// The decimal numeral of `n`, without leading zeros.
pub open spec fn decimal(n: nat) -> Seq<char>
    decreases n,
{
    if n < 10 {
        seq![digit_char(n)]
    } else {
        decimal(n / 10).push(digit_char(n % 10))
    }
}

/// The default name `Sound <k>`.
pub open spec fn default_name(k: nat) -> Seq<char> {
    seq!['S', 'o', 'u', 'n', 'd', ' '] + decimal(k)
}

/// Some name equals the default name `Sound <k>`, ignoring ASCII case.
pub open spec fn name_taken(names: Seq<Seq<char>>, k: nat) -> bool {
    exists|j: int| 0 <= j < names.len() && eq_ignore_case(names[j], default_name(k))
}

/// The views of a sequence of string slices.
pub open spec fn str_views(names: Seq<&str>) -> Seq<Seq<char>> {
    names.map_values(|s: &str| s@)
}

/// The ffmpeg filter that downscales a video for the preview player.
pub open spec fn preview_filter(fps: nat) -> Seq<char> {
    "fps="@ + decimal(fps) + ",scale='min(720,iw)':'min(430,ih)':force_original_aspect_ratio=decrease"@
}

proof fn lemma_digit(d: nat)
    requires
        d < 10,
    ensures
        '0' <= digit_char(d) <= '9',
        digit_char(d) as int == 48 + d,
{
}

proof fn lemma_decimal_digits(n: nat)
    ensures
        decimal(n).len() >= 1,
        forall|i: int| 0 <= i < decimal(n).len() ==> '0' <= #[trigger] decimal(n)[i] <= '9',
        n >= 10 ==> decimal(n).len() >= 2,
    decreases n,
{
    if n < 10 {
        lemma_digit(n);
    } else {
        lemma_decimal_digits(n / 10);
        lemma_digit(n % 10);
    }
}

proof fn lemma_decimal_injective(a: nat, b: nat)
    requires
        decimal(a) == decimal(b),
    ensures
        a == b,
    decreases a,
{
    lemma_decimal_digits(a);
    lemma_decimal_digits(b);
    if a < 10 && b < 10 {
        lemma_digit(a);
        lemma_digit(b);
        assert(decimal(a) == seq![digit_char(a)]);
        assert(decimal(b) == seq![digit_char(b)]);
        assert(seq![digit_char(a)][0] == digit_char(a));
        assert(seq![digit_char(b)][0] == digit_char(b));
        assert(decimal(a)[0] == decimal(b)[0]);
        assert(digit_char(a) == digit_char(b));
        assert(digit_char(a) as int == digit_char(b) as int);
    } else if a < 10 || b < 10 {
        assert(decimal(a).len() != decimal(b).len());
    } else {
        let da = decimal(a);
        let db = decimal(b);
        assert(da.last() == db.last());
        lemma_digit(a % 10);
        lemma_digit(b % 10);
        assert(da.drop_last() =~= decimal(a / 10));
        assert(db.drop_last() =~= decimal(b / 10));
        assert(digit_char(a % 10) == digit_char(b % 10));
        assert(digit_char(a % 10) as int == digit_char(b % 10) as int);
        lemma_decimal_injective(a / 10, b / 10);
        assert(a == 10 * (a / 10) + a % 10);
        assert(b == 10 * (b / 10) + b % 10);
    }
}

/// Two default names equal up to case have the same number.
proof fn lemma_default_name_injective(a: nat, b: nat)
    requires
        spec_lower(default_name(a)) == spec_lower(default_name(b)),
    ensures
        a == b,
{
    lemma_decimal_digits(a);
    lemma_decimal_digits(b);
    let la = spec_lower(default_name(a));
    let lb = spec_lower(default_name(b));
    assert(la.len() == lb.len());
    assert(decimal(a) =~= decimal(b)) by {
        assert forall|i: int| 0 <= i < decimal(a).len() implies decimal(a)[i] == decimal(b)[i] by {
            assert(la[i + 6] == lb[i + 6]);
            assert(default_name(a)[i + 6] == decimal(a)[i]);
            assert(default_name(b)[i + 6] == decimal(b)[i]);
        }
    }
    lemma_decimal_injective(a, b);
}

/// The decimal numeral of `n`.
pub fn decimal_exec(n: usize) -> (r: Vec<char>)
    ensures
        r@ == decimal(n as nat),
    decreases n,
{
    let d = (n % 10) as u8;
    let c = (48 + d) as char;
    proof {
        assert(c == digit_char((n % 10) as nat));
    }
    if n < 10 {
        let mut r: Vec<char> = Vec::new();
        r.push(c);
        assert(r@ =~= seq![digit_char(n as nat)]);
        r
    } else {
        let mut r = decimal_exec(n / 10);
        r.push(c);
        r
    }
}

/// The characters of the default name `Sound <k>`.
fn default_name_exec(k: usize) -> (r: Vec<char>)
    ensures
        r@ == default_name(k as nat),
{
    let mut r: Vec<char> = Vec::new();
    r.push('S');
    r.push('o');
    r.push('u');
    r.push('n');
    r.push('d');
    r.push(' ');
    let digits = decimal_exec(k);
    let mut i: usize = 0;
    let ghost base = r@;
    assert(base =~= seq!['S', 'o', 'u', 'n', 'd', ' ']);
    while i < digits.len()
        invariant
            i <= digits.len(),
            r@ == base + digits@.take(i as int),
        decreases digits.len() - i,
    {
        r.push(digits[i]);
        i = i + 1;
        assert(r@ =~= base + digits@.take(i as int));
    }
    assert(digits@.take(digits.len() as int) =~= digits@);
    r
}

/// The index of a name equal to the default name `Sound <k>`, ignoring case.
fn find_taken(lowered: &Vec<Vec<char>>, names: Ghost<Seq<Seq<char>>>, k: usize) -> (r: Option<usize>)
    requires
        lowered.len() == names@.len(),
        forall|j: int| 0 <= j < names@.len() ==> #[trigger] lowered@[j]@ == spec_lower(names@[j]),
    ensures
        match r {
            Some(j) => j < names@.len() && eq_ignore_case(names@[j as int], default_name(k as nat)),
            None => !name_taken(names@, k as nat),
        },
{
    let candidate = default_name_exec(k);
    let mut j: usize = 0;
    while j < lowered.len()
        invariant
            j <= lowered.len(),
            lowered.len() == names@.len(),
            candidate@ == default_name(k as nat),
            forall|x: int| 0 <= x < names@.len() ==> #[trigger] lowered@[x]@ == spec_lower(names@[x]),
            forall|x: int| 0 <= x < j ==> !eq_ignore_case(names@[x], default_name(k as nat)),
        decreases lowered.len() - j,
    {
        if eq_ignore_case_chars(&lowered[j], &candidate) {
            proof {
                crate::text::lemma_lower_idempotent(names@[j as int]);
            }
            return Some(j);
        }
        proof {
            crate::text::lemma_lower_idempotent(names@[j as int]);
        }
        j = j + 1;
    }
    None
}

/// `name` is the first free default name among `names`: `Sound <k>` for the
/// smallest `k` from one up that no name equals, ignoring ASCII case.
pub open spec fn first_free_default_name(names: Seq<Seq<char>>, name: Seq<char>) -> bool {
    exists|k: nat|
        k >= 1 && name == default_name(k) && !name_taken(names, k) && forall|m: nat|
            1 <= m < k ==> name_taken(names, m)
}

/// The first free default name `Sound <k>`: the smallest `k` from one up that
/// no name equals, ignoring ASCII case.
pub fn next_default_sound_name(names: &[&str]) -> (r: String)
    requires
        names@.len() < usize::MAX,
    ensures
        first_free_default_name(str_views(names@), r@),
{
    let ghost views = str_views(names@);
    let mut lowered: Vec<Vec<char>> = Vec::new();
    let mut i: usize = 0;
    while i < names.len()
        invariant
            i <= names.len(),
            views == str_views(names@),
            lowered.len() == i,
            forall|j: int| 0 <= j < i ==> #[trigger] lowered@[j]@ == spec_lower(views[j]),
        decreases names.len() - i,
    {
        let v = chars_of(names[i]);
        let l = crate::text::lower_chars(&v);
        lowered.push(l);
        i = i + 1;
    }
    let n = names.len();
    let mut k: usize = 1;
    let ghost mut used: Set<int> = Set::empty();
    proof {
        lemma_int_range(0, n as int);
    }
    loop
        invariant
            1 <= k <= n + 1,
            n == views.len(),
            views == str_views(names@),
            n < usize::MAX,
            lowered.len() == n,
            forall|j: int| 0 <= j < n ==> #[trigger] lowered@[j]@ == spec_lower(views[j]),
            forall|m: nat| 1 <= m < k ==> name_taken(views, m),
            used.finite(),
            used.subset_of(set_int_range(0, n as int)),
            used.len() == k - 1,
            forall|j: int|
                #![trigger used.contains(j)]
                used.contains(j) ==> exists|m: nat|
                    1 <= m < k && eq_ignore_case(views[j], #[trigger] default_name(m)),
            set_int_range(0, n as int).finite(),
            set_int_range(0, n as int).len() == n,
        decreases n + 1 - k,
    {
        match find_taken(&lowered, Ghost(views), k) {
            None => {
                let name = default_name_exec(k);
                let r = string_of(&name);
                assert(k >= 1 && r@ == default_name(k as nat) && !name_taken(views, k as nat)
                    && forall|m: nat| 1 <= m < k ==> name_taken(views, m));
                return r;
            },
            Some(j) => {
                proof {
                    assert(!used.contains(j as int)) by {
                        if used.contains(j as int) {
                            let m = choose|m: nat|
                                1 <= m < k && eq_ignore_case(views[j as int], #[trigger] default_name(m));
                            lemma_default_name_injective(m, k as nat);
                        }
                    }
                    let nu = used.insert(j as int);
                    assert(nu.subset_of(set_int_range(0, n as int)));
                    lemma_len_subset(nu, set_int_range(0, n as int));
                    assert forall|x: int| #![trigger nu.contains(x)] nu.contains(x) implies exists|m: nat|
                        1 <= m < k + 1 && eq_ignore_case(views[x], #[trigger] default_name(m)) by {
                        if x == j {
                            assert(eq_ignore_case(views[x], default_name(k as nat)));
                        } else {
                            assert(used.contains(x));
                            let m = choose|m: nat|
                                1 <= m < k && eq_ignore_case(views[x], #[trigger] default_name(m));
                            assert(eq_ignore_case(views[x], default_name(m)));
                        }
                    }
                    used = nu;
                    assert(name_taken(views, k as nat));
                }
                k = k + 1;
            },
        }
    }
}

impl SoundFxApp {
    /// The ffmpeg filter that downscales a video to at most 720 by 430 pixels
    /// at `preview_fps` frames per second for the preview player.
    pub fn video_preview_filter(preview_fps: u32) -> (r: String)
        ensures
            r@ == preview_filter(preview_fps as nat),
    {
        let mut r = String::from_str("fps=");
        let digits = decimal_exec(preview_fps as usize);
        let d = string_of(&digits);
        r.append(d.as_str());
        r.append(",scale='min(720,iw)':'min(430,ih)':force_original_aspect_ratio=decrease");
        r
    }
}

} // verus!
