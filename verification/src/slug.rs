//! Human-readable folder names for Course Folders.
//!
//! A slug is the title lower-cased, with every maximal run of characters
//! that are not ASCII letters or digits collapsed into a single hyphen and
//! hyphens trimmed from both ends; a title with no ASCII letters or digits
//! becomes `course`.

use vstd::prelude::*;
use vstd::set_lib::*;
use vstd::relations::injective_on;
use crate::text::{
    decimal, is_ascii_alnum, is_ascii_alnum_spec, lemma_decimal_injective, lemma_decimal_len,
    pop_char, push_char, strs_view, to_ascii_lower, to_ascii_lower_spec, u64_to_decimal,
};

verus! {

/// One step of the slug transducer: the slug built so far, and whether the
/// last thing emitted was a hyphen (or nothing has been emitted yet).
pub open spec fn slug_step(acc: (Seq<char>, bool), ch: char) -> (Seq<char>, bool) {
    let c = to_ascii_lower_spec(ch);
    if is_ascii_alnum_spec(c) {
        (acc.0.push(c), false)
    } else if !acc.1 {
        (acc.0.push('-'), true)
    } else {
        acc
    }
}

/// The transducer run over a whole title, left to right.
pub open spec fn slug_scan(s: Seq<char>) -> (Seq<char>, bool)
    decreases s.len(),
{
    if s.len() == 0 {
        (Seq::empty(), true)
    } else {
        slug_step(slug_scan(s.drop_last()), s.last())
    }
}

/// The fallback slug for titles without any ASCII letter or digit.
pub open spec fn fallback_slug() -> Seq<char> {
    seq!['c', 'o', 'u', 'r', 's', 'e']
}

/// The slug of a title.
pub open spec fn slugify_spec(title: Seq<char>) -> Seq<char> {
    let out = slug_scan(title).0;
    let trimmed = if out.len() > 0 && out.last() == '-' {
        out.drop_last()
    } else {
        out
    };
    if trimmed.len() == 0 {
        fallback_slug()
    } else {
        trimmed
    }
}

pub open spec fn is_slug_char(c: char) -> bool {
    ('0' <= c && c <= '9') || ('a' <= c && c <= 'z') || c == '-'
}

/// A well-formed slug: non-empty, only lower-case ASCII letters, digits and
/// hyphens, never starting or ending with a hyphen, never two hyphens in a
/// row.
pub open spec fn is_slug(s: Seq<char>) -> bool {
    &&& s.len() > 0
    &&& forall|i: int| 0 <= i < s.len() ==> is_slug_char(#[trigger] s[i])
    &&& s[0] != '-'
    &&& s.last() != '-'
    &&& forall|i: int| 0 <= i < s.len() - 1 ==> !(#[trigger] s[i] == '-' && s[i + 1] == '-')
}

proof fn lemma_lower_alnum(ch: char)
    ensures
        is_ascii_alnum_spec(to_ascii_lower_spec(ch)) ==> is_slug_char(to_ascii_lower_spec(ch))
            && to_ascii_lower_spec(ch) != '-',
        to_ascii_lower_spec(ch) == '-' <==> ch == '-',
        is_slug_char(ch) && ch != '-' ==> to_ascii_lower_spec(ch) == ch && is_ascii_alnum_spec(ch),
{
    if 'A' <= ch && ch <= 'Z' {
        assert(((ch as u32) + 32) as char as u32 == (ch as u32) + 32);
    }
}

proof fn lemma_scan_shape(s: Seq<char>)
    ensures
        ({
            let (out, pd) = slug_scan(s);
            &&& forall|i: int| 0 <= i < out.len() ==> is_slug_char(#[trigger] out[i])
            &&& out.len() > 0 ==> out[0] != '-'
            &&& forall|i: int|
                0 <= i < out.len() - 1 ==> !(#[trigger] out[i] == '-' && out[i + 1] == '-')
            &&& pd == (out.len() == 0 || out.last() == '-')
        }),
    decreases s.len(),
{
    if s.len() > 0 {
        lemma_scan_shape(s.drop_last());
        lemma_lower_alnum(s.last());
        let (o, p) = slug_scan(s.drop_last());
        let (out, pd) = slug_scan(s);
        assert forall|i: int| 0 <= i < out.len() implies is_slug_char(#[trigger] out[i]) by {
            if i < o.len() {
                assert(out[i] == o[i]);
            }
        }
        assert forall|i: int| 0 <= i < out.len() - 1 implies !(#[trigger] out[i] == '-' && out[i
            + 1] == '-') by {
            if i + 1 < o.len() {
                assert(out[i] == o[i]);
                assert(out[i + 1] == o[i + 1]);
            } else if i < o.len() {
                assert(out[i] == o[i]);
            }
        }
        if o.len() > 0 {
            assert(out[0] == o[0]);
        }
    }
}

/// Every slug is well formed.
pub proof fn lemma_slugify_is_slug(title: Seq<char>)
    ensures
        is_slug(slugify_spec(title)),
{
    lemma_scan_shape(title);
    let out = slug_scan(title).0;
    let trimmed = if out.len() > 0 && out.last() == '-' {
        out.drop_last()
    } else {
        out
    };
    if trimmed.len() == 0 {
        let f = fallback_slug();
        assert(f[0] == 'c');
        assert(f.last() == 'e');
        assert forall|i: int| 0 <= i < f.len() implies is_slug_char(#[trigger] f[i]) by {}
    } else {
        assert(trimmed[0] == out[0]);
        assert forall|i: int| 0 <= i < trimmed.len() implies is_slug_char(#[trigger] trimmed[i]) by {
            assert(trimmed[i] == out[i]);
        }
        assert forall|i: int|
            0 <= i < trimmed.len() - 1 implies !(#[trigger] trimmed[i] == '-' && trimmed[i + 1]
            == '-') by {
            assert(trimmed[i] == out[i]);
            assert(trimmed[i + 1] == out[i + 1]);
        }
        if out.last() == '-' {
            assert(trimmed.last() == out[out.len() - 2]);
        }
    }
}

/// A well-formed slug is its own slug.
pub proof fn lemma_slug_fixed_point(s: Seq<char>)
    requires
        is_slug(s),
    ensures
        slugify_spec(s) == s,
{
    assert forall|k: int| 0 <= k <= s.len() implies #[trigger] slug_scan(s.take(k)) == (s.take(
        k,
    ), k == 0 || s[k - 1] == '-') by {
        lemma_scan_prefix(s, k);
    }
    assert(s.take(s.len() as int) =~= s);
}

proof fn lemma_scan_prefix(s: Seq<char>, k: int)
    requires
        is_slug(s),
        0 <= k <= s.len(),
    ensures
        slug_scan(s.take(k)) == (s.take(k), k == 0 || s[k - 1] == '-'),
    decreases k,
{
    if k == 0 {
        assert(s.take(0) =~= Seq::<char>::empty());
    } else {
        lemma_scan_prefix(s, k - 1);
        assert(s.take(k).drop_last() =~= s.take(k - 1));
        assert(s.take(k).last() == s[k - 1]);
        lemma_lower_alnum(s[k - 1]);
        assert(is_slug_char(s[k - 1]));
        if s[k - 1] == '-' {
            assert(k - 1 > 0);
            assert(!(s[k - 2] == '-' && s[k - 1] == '-'));
        }
        assert(s.take(k - 1).push(s[k - 1]) =~= s.take(k));
    }
}

/// Slugging a slug changes nothing: `slugify(slugify(t)) == slugify(t)`.
pub proof fn lemma_slugify_idempotent(title: Seq<char>)
    ensures
        slugify_spec(slugify_spec(title)) == slugify_spec(title),
{
    lemma_slugify_is_slug(title);
    lemma_slug_fixed_point(slugify_spec(title));
}

/// The title's ASCII letters and digits, lower-cased, in order.
pub open spec fn kept_chars(title: Seq<char>) -> Seq<char>
    decreases title.len(),
{
    if title.len() == 0 {
        Seq::empty()
    } else {
        let c = to_ascii_lower_spec(title.last());
        if is_ascii_alnum_spec(c) {
            kept_chars(title.drop_last()).push(c)
        } else {
            kept_chars(title.drop_last())
        }
    }
}

/// `s` with its hyphens left out.
pub open spec fn without_hyphens(s: Seq<char>) -> Seq<char>
    decreases s.len(),
{
    if s.len() == 0 {
        Seq::empty()
    } else if s.last() == '-' {
        without_hyphens(s.drop_last())
    } else {
        without_hyphens(s.drop_last()).push(s.last())
    }
}

proof fn lemma_scan_keeps(title: Seq<char>)
    ensures
        without_hyphens(slug_scan(title).0) == kept_chars(title),
    decreases title.len(),
{
    if title.len() > 0 {
        lemma_scan_keeps(title.drop_last());
        lemma_lower_alnum(title.last());
        let o = slug_scan(title.drop_last()).0;
        let c = to_ascii_lower_spec(title.last());
        if is_ascii_alnum_spec(c) {
            assert(o.push(c).drop_last() =~= o);
        } else if !slug_scan(title.drop_last()).1 {
            assert(o.push('-').drop_last() =~= o);
        }
    }
}

proof fn lemma_only_hyphens(s: Seq<char>)
    requires
        without_hyphens(s).len() == 0,
    ensures
        forall|i: int| 0 <= i < s.len() ==> s[i] == '-',
    decreases s.len(),
{
    if s.len() > 0 {
        lemma_only_hyphens(s.drop_last());
        assert forall|i: int| 0 <= i < s.len() implies s[i] == '-' by {
            if i < s.len() - 1 {
                assert(s[i] == s.drop_last()[i]);
            }
        }
    }
}

/// A slug keeps the title's ASCII letters and digits, lower-cased and in
/// order, with only hyphens between them; a title without any becomes
/// `course`.
pub proof fn lemma_slug_keeps_letters_and_digits(title: Seq<char>)
    ensures
        kept_chars(title).len() > 0 ==> without_hyphens(slugify_spec(title)) == kept_chars(title),
        kept_chars(title).len() == 0 ==> slugify_spec(title) == fallback_slug(),
{
    lemma_scan_keeps(title);
    lemma_scan_shape(title);
    let out = slug_scan(title).0;
    let trimmed = if out.len() > 0 && out.last() == '-' {
        out.drop_last()
    } else {
        out
    };
    assert(without_hyphens(trimmed) == without_hyphens(out));
    if kept_chars(title).len() == 0 {
        lemma_only_hyphens(out);
        if out.len() > 0 {
            assert(out[0] == '-');
        }
    } else {
        assert(trimmed.len() > 0);
    }
}

/// Turns a Course title into a folder-name slug.
pub fn slugify(title: &str) -> (out: String)
    ensures
        out@ == slugify_spec(title@),
        is_slug(out@),
{
    let n = title.unicode_len();
    let mut out = String::new();
    let mut prev_dash = true;
    let mut i: usize = 0;
    while i < n
        invariant
            i <= n,
            n == title@.len(),
            (out@, prev_dash) == slug_scan(title@.take(i as int)),
        decreases n - i,
    {
        let ch = title.get_char(i);
        let c = to_ascii_lower(ch);
        if is_ascii_alnum(c) {
            push_char(&mut out, c);
            prev_dash = false;
        } else if !prev_dash {
            push_char(&mut out, '-');
            prev_dash = true;
        }
        proof {
            assert(title@.take(i + 1).drop_last() =~= title@.take(i as int));
            assert(title@.take(i + 1).last() == ch);
        }
        i = i + 1;
    }
    proof {
        assert(title@.take(n as int) =~= title@);
        lemma_scan_shape(title@);
        lemma_slugify_is_slug(title@);
    }
    if prev_dash && !out.as_str().is_empty() {
        pop_char(&mut out);
    }
    if out.as_str().is_empty() {
        out.append("course");
        proof {
            reveal_strlit("course");
            assert(out@ =~= fallback_slug());
        }
    }
    out
}

/// The `k`-th candidate folder name for a slug: the slug itself for `k <= 1`,
/// then `slug-2`, `slug-3`, ...
pub open spec fn slug_candidate(base: Seq<char>, k: nat) -> Seq<char> {
    if k <= 1 {
        base
    } else {
        base + seq!['-'] + decimal(k)
    }
}

proof fn lemma_candidates_distinct(base: Seq<char>, a: nat, b: nat)
    requires
        1 <= a,
        1 <= b,
        slug_candidate(base, a) == slug_candidate(base, b),
    ensures
        a == b,
{
    lemma_decimal_len(a);
    lemma_decimal_len(b);
    if a >= 2 && b >= 2 {
        let pa = base + seq!['-'];
        assert(slug_candidate(base, a) =~= pa + decimal(a));
        assert(slug_candidate(base, b) =~= pa + decimal(b));
        assert((pa + decimal(a)).subrange(pa.len() as int, (pa + decimal(a)).len() as int)
            =~= decimal(a));
        assert((pa + decimal(b)).subrange(pa.len() as int, (pa + decimal(b)).len() as int)
            =~= decimal(b));
        lemma_decimal_injective(a, b);
    } else if a >= 2 || b >= 2 {
        assert(slug_candidate(base, a).len() != slug_candidate(base, b).len());
    }
}

/// If the candidates `1..n` all occur among `names`, there are at least
/// `n - 1` names.
proof fn lemma_candidates_bound(base: Seq<char>, names: Seq<Seq<char>>, n: int)
    requires
        1 <= n,
        forall|j: nat| 1 <= j < n ==> names.contains(#[trigger] slug_candidate(base, j)),
    ensures
        n - 1 <= names.len(),
{
    let x = set_int_range(1, n);
    let f = |j: int| slug_candidate(base, j as nat);
    lemma_int_range(1, n);
    assert(injective_on(f, x)) by {
        assert forall|a: int, b: int| x.contains(a) && x.contains(b) && f(a) == f(b) implies a
            == b by {
            lemma_candidates_distinct(base, a as nat, b as nat);
        }
    }
    let y = x.map(f);
    lemma_map_size(x, y, f);
    let t = names.to_set();
    assert(y.subset_of(t)) by {
        assert forall|s: Seq<char>| y.contains(s) implies t.contains(s) by {
            let j = choose|j: int| x.contains(j) && f(j) == s;
            assert(1 <= (j as nat) < n);
            assert(names.contains(slug_candidate(base, j as nat)));
        }
    }
    names.lemma_cardinality_of_set();
    lemma_len_subset(y, t);
}

fn contains_name(taken: &Vec<String>, name: &String) -> (b: bool)
    ensures
        b == strs_view(taken@).contains(name@),
{
    let mut i: usize = 0;
    while i < taken.len()
        invariant
            i <= taken.len(),
            forall|j: int| 0 <= j < i ==> taken@[j]@ != name@,
        decreases taken.len() - i,
    {
        if taken[i] == *name {
            assert(strs_view(taken@)[i as int] == name@);
            return true;
        }
        i = i + 1;
    }
    assert forall|j: int| 0 <= j < strs_view(taken@).len() implies strs_view(taken@)[j] != name@ by {
        assert(strs_view(taken@)[j] == taken@[j]@);
    }
    false
}

/// The first free folder name for `title` among the names already present in
/// the parent directory: the title's slug if it is free, else the first of
/// `slug-2`, `slug-3`, ... that is free.
pub fn unique_slug_in(taken: &Vec<String>, title: &str) -> (out: String)
    requires
        taken.len() < u32::MAX,
    ensures
        exists|k: nat|
            #![trigger slug_candidate(slugify_spec(title@), k)]
            k >= 1 && out@ == slug_candidate(slugify_spec(title@), k) && !strs_view(
                taken@,
            ).contains(out@) && forall|j: nat|
                1 <= j < k ==> strs_view(taken@).contains(
                    #[trigger] slug_candidate(slugify_spec(title@), j),
                ),
{
    let base = slugify(title);
    let ghost names = strs_view(taken@);
    if !contains_name(taken, &base) {
        assert(base@ == slug_candidate(base@, 1));
        return base;
    }
    let mut n: u64 = 2;
    loop
        invariant
            2 <= n,
            names == strs_view(taken@),
            base@ == slugify_spec(title@),
            taken.len() < u32::MAX,
            forall|j: nat| 1 <= j < n ==> names.contains(#[trigger] slug_candidate(base@, j)),
        decreases taken.len() + 2 - n,
    {
        proof {
            lemma_candidates_bound(base@, names, n as int);
        }
        let mut candidate = base.clone();
        push_char(&mut candidate, '-');
        let digits = u64_to_decimal(n);
        candidate.append(digits.as_str());
        assert(candidate@ =~= slug_candidate(base@, n as nat));
        if !contains_name(taken, &candidate) {
            assert(candidate@ == slug_candidate(slugify_spec(title@), n as nat));
            return candidate;
        }
        n = n + 1;
    }
}

} // verus!
