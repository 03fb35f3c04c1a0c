//! Which Course Folder each course window shows. Within one process a
//! Course Folder is open in at most one window: a second open request
//! focuses the existing window instead of spawning a duplicate.
//!
//! Folders are identified by a canonical key (the caller canonicalises the
//! path); windows by a label.

use vstd::prelude::*;
use crate::paths::{opt_view, path_file_name, path_file_name_spec};
use crate::text::{
    concat, decimal, is_ascii_alnum, is_ascii_alnum_spec, lemma_decimal_chars, lemma_decimal_injective,
    push_char, u64_to_decimal,
};

verus! {

/// What the caller should do for an open request.
#[derive(Debug, PartialEq, Eq)]
pub enum OpenDecision {
    /// No window shows this folder yet: spawn one with this label.
    Spawn { label: String },
    /// A window already shows this folder: focus the one with this label.
    Focus { label: String },
}

pub enum OpenDecisionView {
    Spawn(Seq<char>),
    Focus(Seq<char>),
}

impl View for OpenDecision {
    type V = OpenDecisionView;

    open spec fn view(&self) -> OpenDecisionView {
        match self {
            OpenDecision::Spawn { label } => OpenDecisionView::Spawn(label@),
            OpenDecision::Focus { label } => OpenDecisionView::Focus(label@),
        }
    }
}

/// A table of (key, value) pairs with distinct keys.
pub type Table = Seq<(Seq<char>, Seq<char>)>;

/// The value stored under `k`, if any.
pub open spec fn lookup(t: Table, k: Seq<char>) -> Option<Seq<char>>
    decreases t.len(),
{
    if t.len() == 0 {
        None
    } else if t.last().0 == k {
        Some(t.last().1)
    } else {
        lookup(t.drop_last(), k)
    }
}

pub open spec fn key_is_not(k: Seq<char>) -> spec_fn((Seq<char>, Seq<char>)) -> bool {
    |e: (Seq<char>, Seq<char>)| e.0 != k
}

/// The table without the entry for `k`.
pub open spec fn without_key(t: Table, k: Seq<char>) -> Table {
    t.filter(key_is_not(k))
}

/// The table with `k` mapped to `v`, replacing any entry for `k`.
pub open spec fn with_entry(t: Table, k: Seq<char>, v: Seq<char>) -> Table {
    without_key(t, k).push((k, v))
}

pub open spec fn keys_distinct(t: Table) -> bool {
    forall|i: int, j: int| 0 <= i < j < t.len() ==> t[i].0 != t[j].0
}

/// The folder name as it appears in a window label: ASCII letters and
/// digits kept, anything else turned into `-`; `course` when the key has
/// no final component.
pub open spec fn label_stem(key: Seq<char>) -> Seq<char> {
    stem_of_name(path_file_name_spec(key))
}

/// The label stem made of a folder's final component, if it has one.
pub open spec fn stem_of_name(name: Option<Seq<char>>) -> Seq<char> {
    match name {
        Some(n) => n.map_values(|c: char| if is_ascii_alnum_spec(c) { c } else { '-' }),
        None => "course"@,
    }
}

/// `course-<seq>-<stem>`.
pub open spec fn label_for_spec(key: Seq<char>, seq: nat) -> Seq<char> {
    label_of_name(path_file_name_spec(key), seq)
}

/// `course-<seq>-<stem>` for a folder whose final component is `name`.
pub open spec fn label_of_name(name: Option<Seq<char>>, seq: nat) -> Seq<char> {
    "course-"@ + decimal(seq) + "-"@ + stem_of_name(name)
}

/// The registry state: folder key to label, label to folder key, and how
/// many windows have been spawned so far (the number in the next label).
pub struct RegistryView {
    pub by_folder: Table,
    pub by_label: Table,
    pub spawned: nat,
}

/// `label` was issued with a sequence number below `n`.
pub open spec fn issued_below(label: Seq<char>, n: nat) -> bool {
    exists|name: Option<Seq<char>>, seq: nat| seq < n && label == #[trigger] label_of_name(name, seq)
}

/// Every label in the table was issued with a number below `n`.
pub open spec fn labels_issued_below(t: Table, n: nat) -> bool {
    forall|e: (Seq<char>, Seq<char>)| t.contains(e) ==> issued_below(e.0, n)
}

/// The effect of an open request for the folder `key`.
pub open spec fn open_step(s: RegistryView, key: Seq<char>) -> (RegistryView, OpenDecisionView) {
    match lookup(s.by_folder, key) {
        Some(label) => (s, OpenDecisionView::Focus(label)),
        None => {
            let label = label_for_spec(key, s.spawned);
            (
                RegistryView {
                    by_folder: with_entry(s.by_folder, key, label),
                    by_label: with_entry(s.by_label, label, key),
                    spawned: s.spawned + 1,
                },
                OpenDecisionView::Spawn(label),
            )
        },
    }
}

/// The effect of releasing the folder `key`.
pub open spec fn release_step(s: RegistryView, key: Seq<char>) -> RegistryView {
    match lookup(s.by_folder, key) {
        Some(label) => RegistryView {
            by_folder: without_key(s.by_folder, key),
            by_label: without_key(s.by_label, label),
            spawned: s.spawned,
        },
        None => s,
    }
}

pub struct CourseWindowRegistry {
    by_folder: Vec<(String, String)>,
    by_label: Vec<(String, String)>,
    /// Windows spawned so far; it only grows, so a released window's
    /// number is never issued again.
    spawned: u64,
}

pub open spec fn table_view(v: Seq<(String, String)>) -> Table {
    v.map_values(|e: (String, String)| (e.0@, e.1@))
}

impl View for CourseWindowRegistry {
    type V = RegistryView;

    closed spec fn view(&self) -> RegistryView {
        RegistryView {
            by_folder: table_view(self.by_folder@),
            by_label: table_view(self.by_label@),
            spawned: self.spawned as nat,
        }
    }
}

impl CourseWindowRegistry {
    /// Both tables have distinct keys, and every live label was issued
    /// with a number below the spawn count.
    pub closed spec fn well_formed(&self) -> bool {
        &&& keys_distinct(table_view(self.by_folder@))
        &&& keys_distinct(table_view(self.by_label@))
        &&& labels_issued_below(table_view(self.by_label@), self.spawned as nat)
    }

    /// An empty registry.
    pub fn new() -> (r: CourseWindowRegistry)
        ensures
            r.well_formed(),
            r@.by_folder == Seq::<(Seq<char>, Seq<char>)>::empty(),
            r@.by_label == Seq::<(Seq<char>, Seq<char>)>::empty(),
            r@.spawned == 0,
    {
        let r = CourseWindowRegistry { by_folder: Vec::new(), by_label: Vec::new(), spawned: 0 };
        assert(table_view(r.by_folder@) =~= Seq::<(Seq<char>, Seq<char>)>::empty());
        assert(table_view(r.by_label@) =~= Seq::<(Seq<char>, Seq<char>)>::empty());
        r
    }

    /// Decides whether to spawn a window for the folder `folder_key` or to
    /// focus the one that shows it; on `Spawn` the new label is recorded so
    /// a later request for the same folder focuses it.
    /// A spawned window's label carries a number no earlier window had, so
    /// it differs from every live label and resolves back to `folder_key`.
    pub fn open_or_focus(&mut self, folder_key: &str) -> (d: OpenDecision)
        requires
            old(self).well_formed(),
            old(self)@.spawned < u64::MAX,
        ensures
            final(self).well_formed(),
            (final(self)@, d@) == open_step(old(self)@, folder_key@),
            d@ matches OpenDecisionView::Spawn(label) ==> (forall|i: int|
                0 <= i < old(self)@.by_label.len() ==> (#[trigger] old(self)@.by_label[i]).0 != label)
                && lookup(final(self)@.by_label, label) == Some(folder_key@),
    {
        let key = folder_key.to_owned();
        match table_get(&self.by_folder, &key) {
            Some(label) => OpenDecision::Focus { label },
            None => {
                let ghost old_labels = table_view(self.by_label@);
                let ghost n = self.spawned as nat;
                let label = label_for(folder_key, self.spawned);
                proof {
                    lemma_fresh_label(old_labels, n, path_file_name_spec(folder_key@));
                }
                table_put(&mut self.by_folder, key.clone(), label.clone());
                table_put(&mut self.by_label, label.clone(), key);
                self.spawned = self.spawned + 1;
                proof {
                    lemma_issued_after_put(old_labels, n, label@, folder_key@, path_file_name_spec(folder_key@));
                    lemma_lookup_pushed(without_key(old_labels, label@), label@, folder_key@);
                }
                OpenDecision::Spawn { label }
            },
        }
    }

    /// How many windows have been spawned; `open_or_focus` needs it below
    /// `u64::MAX`.
    pub fn spawned(&self) -> (n: u64)
        ensures
            n == self@.spawned,
    {
        self.spawned
    }

    /// Forgets the window of the folder `folder_key`, when a course window
    /// closes.
    pub fn release(&mut self, folder_key: &str)
        requires
            old(self).well_formed(),
        ensures
            final(self).well_formed(),
            final(self)@ == release_step(old(self)@, folder_key@),
    {
        let key = folder_key.to_owned();
        match table_get(&self.by_folder, &key) {
            Some(label) => {
                let ghost old_labels = table_view(self.by_label@);
                table_remove(&mut self.by_folder, &key);
                table_remove(&mut self.by_label, &label);
                proof {
                    lemma_issued_after_remove(old_labels, self.spawned as nat, label@);
                }
            },
            None => {},
        }
    }

    /// The folder key a window label shows, if any.
    pub fn folder_for_label(&self, label: &str) -> (r: Option<String>)
        requires
            self.well_formed(),
        ensures
            crate::paths::opt_view(r) == lookup(self@.by_label, label@),
    {
        let key = label.to_owned();
        table_get(&self.by_label, &key)
    }
}

fn table_get(t: &Vec<(String, String)>, k: &String) -> (r: Option<String>)
    ensures
        crate::paths::opt_view(r) == lookup(table_view(t@), k@),
{
    let ghost tv = table_view(t@);
    let mut i: usize = t.len();
    assert(tv.take(i as int) =~= tv);
    while i > 0
        invariant
            i <= t.len(),
            tv == table_view(t@),
            lookup(tv, k@) == lookup(tv.take(i as int), k@),
        decreases i,
    {
        assert(tv.take(i as int).drop_last() =~= tv.take(i - 1));
        assert(tv.take(i as int).last() == (t@[i - 1].0@, t@[i - 1].1@));
        if t[i - 1].0 == *k {
            return Some(t[i - 1].1.clone());
        }
        i = i - 1;
    }
    assert(tv.take(0) =~= Seq::<(Seq<char>, Seq<char>)>::empty());
    None
}

proof fn lemma_lookup_absent(t: Table, k: Seq<char>)
    requires
        forall|i: int| 0 <= i < t.len() ==> t[i].0 != k,
    ensures
        lookup(t, k) is None,
    decreases t.len(),
{
    if t.len() > 0 {
        lemma_lookup_absent(t.drop_last(), k);
    }
}

fn table_remove(t: &mut Vec<(String, String)>, k: &String)
    requires
        keys_distinct(table_view(old(t)@)),
    ensures
        keys_distinct(table_view(final(t)@)),
        table_view(final(t)@) == without_key(table_view(old(t)@), k@),
{
    let ghost tv = table_view(t@);
    let mut out: Vec<(String, String)> = Vec::new();
    let mut i: usize = 0;
    while i < t.len()
        invariant
            i <= t.len(),
            tv == table_view(t@),
            keys_distinct(tv),
            table_view(out@) == tv.take(i as int).filter(key_is_not(k@)),
        decreases t.len() - i,
    {
        proof {
            assert(tv.take(i + 1) =~= tv.take(i as int).push(tv[i as int]));
            tv.take(i as int).lemma_filter_push(tv[i as int], key_is_not(k@));
        }
        if t[i].0 != *k {
            let e = (t[i].0.clone(), t[i].1.clone());
            let ghost prev = out@;
            out.push(e);
            assert(table_view(out@) =~= table_view(prev).push(tv[i as int]));
        }
        i = i + 1;
    }
    assert(tv.take(t.len() as int) =~= tv);
    proof {
        let f = tv.filter(key_is_not(k@));
        assert forall|a: int, b: int| 0 <= a < b < f.len() implies f[a].0 != f[b].0 by {
            lemma_filter_keys_distinct(tv, k@, a, b);
        }
    }
    *t = out;
}

proof fn lemma_filter_keys_distinct(t: Table, k: Seq<char>, a: int, b: int)
    requires
        keys_distinct(t),
        0 <= a < b < t.filter(key_is_not(k)).len(),
    ensures
        t.filter(key_is_not(k))[a].0 != t.filter(key_is_not(k))[b].0,
    decreases t.len(),
{
    let f = t.filter(key_is_not(k));
    let rest = t.drop_last();
    assert(rest.push(t.last()) =~= t);
    rest.lemma_filter_push(t.last(), key_is_not(k));
    let fr = rest.filter(key_is_not(k));
    assert(keys_distinct(rest)) by {
        assert forall|i: int, j: int| 0 <= i < j < rest.len() implies rest[i].0 != rest[j].0 by {
            assert(rest[i] == t[i] && rest[j] == t[j]);
        }
    }
    if key_is_not(k)(t.last()) && b == f.len() - 1 {
        assert(f[b] == t.last());
        assert(f[a] == fr[a]);
        assert(fr.contains(fr[a]));
        rest.lemma_filter_contains_rev(key_is_not(k), fr[a]);
        let i = choose|i: int| 0 <= i < rest.len() && rest[i] == fr[a];
        assert(t[i] == rest[i]);
        assert(t[t.len() - 1] == t.last());
    } else {
        if key_is_not(k)(t.last()) {
            assert(f[a] == fr[a] && f[b] == fr[b]);
        }
        lemma_filter_keys_distinct(rest, k, a, b);
    }
}

proof fn lemma_lookup_filter(t: Table, k: Seq<char>)
    ensures
        forall|i: int| 0 <= i < t.filter(key_is_not(k)).len() ==> (#[trigger] t.filter(key_is_not(k))[i]).0 != k,
{
    assert forall|i: int| 0 <= i < t.filter(key_is_not(k)).len() implies (#[trigger] t.filter(key_is_not(k))[i]).0 != k by {
        t.lemma_filter_pred(key_is_not(k), i);
    }
}

fn table_put(t: &mut Vec<(String, String)>, k: String, v: String)
    requires
        keys_distinct(table_view(old(t)@)),
    ensures
        keys_distinct(table_view(final(t)@)),
        table_view(final(t)@) == with_entry(table_view(old(t)@), k@, v@),
{
    let ghost kv = k@;
    table_remove(t, &k);
    let ghost prev = table_view(t@);
    proof {
        lemma_lookup_filter(table_view(old(t)@), kv);
    }
    t.push((k, v));
    assert(table_view(t@) =~= prev.push((kv, v@)));
}

/// The label of the `seq`-th window spawned for the folder `key`.
fn label_for(key: &str, seq: u64) -> (r: String)
    ensures
        r@ == label_for_spec(key@, seq as nat),
{
    window_label(path_file_name(key), seq)
}

/// The label of the `seq`-th window spawned for a folder whose final
/// component is `file_name` (as `Path::file_name` gives it).
pub fn window_label(file_name: Option<String>, seq: u64) -> (r: String)
    ensures
        r@ == label_of_name(opt_view(file_name), seq as nat),
{
    let stem = match file_name {
        Some(n) => {
            let ghost nv = n@;
            let len = n.as_str().unicode_len();
            let mut s = String::new();
            let mut i: usize = 0;
            while i < len
                invariant
                    i <= len,
                    len == nv.len(),
                    nv == n@,
                    s@ == nv.take(i as int).map_values(
                        |c: char| if is_ascii_alnum_spec(c) { c } else { '-' },
                    ),
                decreases len - i,
            {
                let c = n.as_str().get_char(i);
                let mapped = if is_ascii_alnum(c) { c } else { '-' };
                push_char(&mut s, mapped);
                assert(s@ =~= nv.take(i + 1).map_values(
                    |c: char| if is_ascii_alnum_spec(c) { c } else { '-' },
                ));
                i = i + 1;
            }
            assert(nv.take(len as int) =~= nv);
            s
        },
        None => "course".to_owned(),
    };
    let num = u64_to_decimal(seq);
    let a = concat("course-", num.as_str());
    let b = concat(a.as_str(), "-");
    concat(b.as_str(), stem.as_str())
}

impl Default for CourseWindowRegistry {
    fn default() -> (r: CourseWindowRegistry)
        ensures
            r.well_formed(),
            r@.by_folder == Seq::<(Seq<char>, Seq<char>)>::empty(),
            r@.by_label == Seq::<(Seq<char>, Seq<char>)>::empty(),
            r@.spawned == 0,
    {
        CourseWindowRegistry::new()
    }
}

/// Two labels with different numbers differ: the number runs from after
/// `course-` to the next `-`.
proof fn lemma_label_number_injective(n1: Option<Seq<char>>, s1: nat, n2: Option<Seq<char>>, s2: nat)
    requires
        label_of_name(n1, s1) == label_of_name(n2, s2),
    ensures
        s1 == s2,
{
    reveal_strlit("course-");
    reveal_strlit("-");
    let l = label_of_name(n1, s1);
    let d1 = decimal(s1);
    let d2 = decimal(s2);
    lemma_decimal_chars(s1);
    lemma_decimal_chars(s2);
    assert(l == label_of_name(n2, s2));
    if d1.len() < d2.len() {
        assert(l[7 + d1.len() as int] == '-');
        assert(label_of_name(n2, s2)[7 + d1.len() as int] == d2[d1.len() as int]);
        assert(false);
    } else if d2.len() < d1.len() {
        assert(label_of_name(n2, s2)[7 + d2.len() as int] == '-');
        assert(l[7 + d2.len() as int] == d1[d2.len() as int]);
        assert(false);
    } else {
        assert(d1 =~= l.subrange(7, 7 + d1.len() as int));
        assert(d2 =~= label_of_name(n2, s2).subrange(7, 7 + d2.len() as int));
        lemma_decimal_injective(s1, s2);
    }
}

/// The label with number `n` is not among labels issued below `n`.
proof fn lemma_fresh_label(t: Table, n: nat, name: Option<Seq<char>>)
    requires
        labels_issued_below(t, n),
    ensures
        forall|i: int| 0 <= i < t.len() ==> (#[trigger] t[i]).0 != label_of_name(name, n),
{
    assert forall|i: int| 0 <= i < t.len() implies (#[trigger] t[i]).0 != label_of_name(name, n) by {
        assert(t.contains(t[i]));
        let (nm, sq) = choose|nm: Option<Seq<char>>, sq: nat| sq < n && t[i].0 == #[trigger] label_of_name(nm, sq);
        if t[i].0 == label_of_name(name, n) {
            lemma_label_number_injective(nm, sq, name, n);
        }
    }
}

proof fn lemma_issued_after_put(t: Table, n: nat, label: Seq<char>, key: Seq<char>, name: Option<Seq<char>>)
    requires
        labels_issued_below(t, n),
        label == label_of_name(name, n),
    ensures
        labels_issued_below(with_entry(t, label, key), n + 1),
{
    let f = without_key(t, label);
    assert forall|e: (Seq<char>, Seq<char>)| with_entry(t, label, key).contains(e) implies issued_below(e.0, n + 1) by {
        if e == (label, key) {
            assert(label == label_of_name(name, n));
        } else {
            let i = choose|i: int| 0 <= i < f.push((label, key)).len() && f.push((label, key))[i] == e;
            assert(i < f.len());
            assert(f.contains(e));
            t.lemma_filter_contains_rev(key_is_not(label), e);
            let (nm, sq) = choose|nm: Option<Seq<char>>, sq: nat| sq < n && e.0 == #[trigger] label_of_name(nm, sq);
            assert(e.0 == label_of_name(nm, sq));
        }
    }
}

proof fn lemma_issued_after_remove(t: Table, n: nat, label: Seq<char>)
    requires
        labels_issued_below(t, n),
    ensures
        labels_issued_below(without_key(t, label), n),
{
    assert forall|e: (Seq<char>, Seq<char>)| without_key(t, label).contains(e) implies issued_below(e.0, n) by {
        t.lemma_filter_contains_rev(key_is_not(label), e);
    }
}

proof fn lemma_lookup_pushed(t: Table, k: Seq<char>, v: Seq<char>)
    ensures
        lookup(t.push((k, v)), k) == Some(v),
{
    assert(t.push((k, v)).last() == (k, v));
}

proof fn lemma_lookup_without(t: Table, k: Seq<char>)
    ensures
        lookup(without_key(t, k), k) is None,
{
    lemma_lookup_filter(t, k);
    lemma_lookup_absent(without_key(t, k), k);
}

/// A second open request for the same folder focuses the window the first
/// one spawned (or focused), with the same label, and changes nothing.
pub proof fn lemma_open_twice_focuses(s: RegistryView, key: Seq<char>)
    ensures
        ({
            let (s1, d1) = open_step(s, key);
            let (s2, d2) = open_step(s1, key);
            &&& s2 == s1
            &&& d2 == OpenDecisionView::Focus(
                match d1 {
                    OpenDecisionView::Spawn(l) => l,
                    OpenDecisionView::Focus(l) => l,
                },
            )
        }),
{
    match lookup(s.by_folder, key) {
        Some(_) => {},
        None => {
            let label = label_for_spec(key, s.spawned);
            lemma_lookup_pushed(without_key(s.by_folder, key), key, label);
        },
    }
}

/// The label of a freshly spawned window resolves back to its folder.
pub proof fn lemma_spawned_label_resolves(s: RegistryView, key: Seq<char>)
    ensures
        open_step(s, key).1 matches OpenDecisionView::Spawn(label) ==> lookup(
            open_step(s, key).0.by_label,
            label,
        ) == Some(key),
{
    if lookup(s.by_folder, key) is None {
        let label = label_for_spec(key, s.spawned);
        lemma_lookup_pushed(without_key(s.by_label, label), label, key);
    }
}

/// After a folder's window is released, the folder is unknown again (the
/// next open spawns) and the released window's label resolves to nothing.
pub proof fn lemma_release_forgets(s: RegistryView, key: Seq<char>)
    ensures
        open_step(release_step(s, key), key).1 is Spawn,
        lookup(s.by_folder, key) matches Some(label) ==> lookup(
            release_step(s, key).by_label,
            label,
        ) is None,
{
    match lookup(s.by_folder, key) {
        Some(label) => {
            lemma_lookup_without(s.by_folder, key);
            lemma_lookup_without(s.by_label, label);
        },
        None => {},
    }
}

/// Labels never collide: when every live label was issued below the spawn
/// count, a spawned window's label differs from every live label, and
/// opening or releasing keeps every live label issued below the count.
pub proof fn lemma_labels_never_collide(s: RegistryView, key: Seq<char>)
    requires
        labels_issued_below(s.by_label, s.spawned),
    ensures
        open_step(s, key).1 matches OpenDecisionView::Spawn(label) ==> forall|i: int|
            0 <= i < s.by_label.len() ==> (#[trigger] s.by_label[i]).0 != label,
        labels_issued_below(open_step(s, key).0.by_label, open_step(s, key).0.spawned),
        labels_issued_below(release_step(s, key).by_label, release_step(s, key).spawned),
{
    let name = path_file_name_spec(key);
    lemma_fresh_label(s.by_label, s.spawned, name);
    if lookup(s.by_folder, key) is None {
        lemma_issued_after_put(s.by_label, s.spawned, label_for_spec(key, s.spawned), key, name);
    }
    if let Some(label) = lookup(s.by_folder, key) {
        lemma_issued_after_remove(s.by_label, s.spawned, label);
    }
}

} // verus!
