//! The shape a Course keeps under every edit: Video ids are distinct, each
//! Video is listed exactly once across all Modules, and every id a Module
//! lists names a Video. Counting is done over the Modules' lists.

use vstd::prelude::*;
use crate::course::{
    clamp_index, modules_in_order, module_has_id, moved_modules, strip_video, video_not_in,
    CourseView, ModuleView, VideoView,
};
use crate::text::{same_set_spec};
use crate::text::not_eq_to;

verus! {

/// How often `x` occurs in `s`.
pub open spec fn count_of(s: Seq<Seq<char>>, x: Seq<char>) -> nat
    decreases s.len(),
{
    if s.len() == 0 {
        0
    } else {
        count_of(s.drop_last(), x) + if s.last() == x {
            1nat
        } else {
            0nat
        }
    }
}

/// How often the Video id `x` is listed across the Modules.
pub open spec fn times_listed(ms: Seq<ModuleView>, x: Seq<char>) -> nat
    decreases ms.len(),
{
    if ms.len() == 0 {
        0
    } else {
        times_listed(ms.drop_last(), x) + count_of(ms.last().video_ids, x)
    }
}

/// Some Video has the id `x`.
pub open spec fn has_video(vs: Seq<VideoView>, x: Seq<char>) -> bool {
    exists|i: int| 0 <= i < vs.len() && (#[trigger] vs[i]).id == x
}

pub open spec fn video_ids_of(vs: Seq<VideoView>) -> Seq<Seq<char>> {
    vs.map_values(|v: VideoView| v.id)
}

/// The structural invariant of a Course.
pub open spec fn structure_ok(c: CourseView) -> bool {
    &&& video_ids_of(c.videos).no_duplicates()
    &&& forall|i: int|
        0 <= i < c.videos.len() ==> times_listed(c.modules, (#[trigger] c.videos[i]).id) == 1
    &&& forall|m: int, k: int|
        0 <= m < c.modules.len() && 0 <= k < c.modules[m].video_ids.len() ==> has_video(
            c.videos,
            #[trigger] c.modules[m].video_ids[k],
        )
}

/// `x` is neither a Video's id nor listed by any Module.
pub open spec fn id_unused(c: CourseView, x: Seq<char>) -> bool {
    !has_video(c.videos, x) && times_listed(c.modules, x) == 0
}

pub proof fn lemma_count_concat(a: Seq<Seq<char>>, b: Seq<Seq<char>>, x: Seq<char>)
    ensures
        count_of(a + b, x) == count_of(a, x) + count_of(b, x),
    decreases b.len(),
{
    if b.len() > 0 {
        assert((a + b).drop_last() =~= a + b.drop_last());
        lemma_count_concat(a, b.drop_last(), x);
    } else {
        assert(a + b =~= a);
    }
}

pub proof fn lemma_count_contains(s: Seq<Seq<char>>, x: Seq<char>)
    ensures
        (count_of(s, x) > 0) == s.contains(x),
    decreases s.len(),
{
    if s.len() > 0 {
        lemma_count_contains(s.drop_last(), x);
        if s.drop_last().contains(x) {
            let i = choose|i: int| 0 <= i < s.drop_last().len() && s.drop_last()[i] == x;
            assert(s[i] == x);
        }
        if s.contains(x) && s.last() != x {
            let i = choose|i: int| 0 <= i < s.len() && s[i] == x;
            assert(i != s.len() - 1);
            assert(s.drop_last()[i] == x);
        }
    }
}

pub proof fn lemma_count_no_duplicates(s: Seq<Seq<char>>, x: Seq<char>)
    requires
        s.no_duplicates(),
    ensures
        count_of(s, x) == if s.contains(x) {
            1nat
        } else {
            0nat
        },
    decreases s.len(),
{
    lemma_count_contains(s, x);
    if s.len() > 0 {
        let r = s.drop_last();
        assert(r.no_duplicates());
        lemma_count_no_duplicates(r, x);
        if s.last() == x && r.contains(x) {
            let i = choose|i: int| 0 <= i < r.len() && r[i] == x;
            assert(s[i] == s[s.len() - 1]);
        }
        if s.contains(x) && s.last() != x {
            let i = choose|i: int| 0 <= i < s.len() && s[i] == x;
            assert(r[i] == x);
        }
    }
}

pub proof fn lemma_count_without(s: Seq<Seq<char>>, y: Seq<char>, x: Seq<char>)
    ensures
        count_of(s.filter(not_eq_to(y)), x) == if x == y {
            0nat
        } else {
            count_of(s, x)
        },
    decreases s.len(),
{
    if s.len() > 0 {
        let r = s.drop_last();
        assert(r.push(s.last()) =~= s);
        r.lemma_filter_push(s.last(), not_eq_to(y));
        lemma_count_without(r, y, x);
        if not_eq_to(y)(s.last()) {
            assert(r.filter(not_eq_to(y)).push(s.last()).drop_last() =~= r.filter(not_eq_to(y)));
        }
    } else {
        assert(s.filter(not_eq_to(y)) =~= Seq::<Seq<char>>::empty());
    }
}

pub proof fn lemma_count_insert(s: Seq<Seq<char>>, k: int, y: Seq<char>, x: Seq<char>)
    requires
        0 <= k <= s.len(),
    ensures
        count_of(s.insert(k, y), x) == count_of(s, x) + if y == x {
            1nat
        } else {
            0nat
        },
{
    let a = s.take(k);
    let b = s.skip(k);
    assert(s.insert(k, y) =~= a + seq![y] + b);
    assert(s =~= a + b);
    lemma_count_concat(a + seq![y], b, x);
    lemma_count_concat(a, seq![y], x);
    lemma_count_concat(a, b, x);
    assert(seq![y].drop_last() =~= Seq::<Seq<char>>::empty());
    assert(count_of(Seq::<Seq<char>>::empty(), x) == 0);
    assert(count_of(seq![y], x) == if y == x {
        1nat
    } else {
        0nat
    });
}

pub proof fn lemma_times_concat(a: Seq<ModuleView>, b: Seq<ModuleView>, x: Seq<char>)
    ensures
        times_listed(a + b, x) == times_listed(a, x) + times_listed(b, x),
    decreases b.len(),
{
    if b.len() > 0 {
        assert((a + b).drop_last() =~= a + b.drop_last());
        lemma_times_concat(a, b.drop_last(), x);
    } else {
        assert(a + b =~= a);
    }
}

proof fn lemma_times_split(ms: Seq<ModuleView>, i: int, x: Seq<char>)
    requires
        0 <= i < ms.len(),
    ensures
        times_listed(ms, x) == times_listed(ms.take(i), x) + count_of(ms[i].video_ids, x)
            + times_listed(ms.skip(i + 1), x),
{
    let a = ms.take(i);
    let b = ms.skip(i + 1);
    let one = seq![ms[i]];
    assert(ms =~= a + one + b);
    lemma_times_concat(a + one, b, x);
    lemma_times_concat(a, one, x);
    assert(one.drop_last() =~= Seq::<ModuleView>::empty());
    assert(times_listed(Seq::<ModuleView>::empty(), x) == 0);
    assert(times_listed(one, x) == count_of(ms[i].video_ids, x));
}

/// Replacing one Module changes the count by that Module's lists alone.
pub proof fn lemma_times_update(ms: Seq<ModuleView>, i: int, m: ModuleView, x: Seq<char>)
    requires
        0 <= i < ms.len(),
    ensures
        times_listed(ms.update(i, m), x) + count_of(ms[i].video_ids, x) == times_listed(ms, x)
            + count_of(m.video_ids, x),
{
    let u = ms.update(i, m);
    lemma_times_split(ms, i, x);
    lemma_times_split(u, i, x);
    assert(u.take(i) =~= ms.take(i));
    assert(u.skip(i + 1) =~= ms.skip(i + 1));
}

/// Removing one Module removes its lists from the count.
pub proof fn lemma_times_remove(ms: Seq<ModuleView>, i: int, x: Seq<char>)
    requires
        0 <= i < ms.len(),
    ensures
        times_listed(ms.remove(i), x) + count_of(ms[i].video_ids, x) == times_listed(ms, x),
{
    lemma_times_split(ms, i, x);
    assert(ms.remove(i) =~= ms.take(i) + ms.skip(i + 1));
    lemma_times_concat(ms.take(i), ms.skip(i + 1), x);
}

/// Taking an id out of every list zeroes its count and keeps the others.
pub proof fn lemma_times_strip(ms: Seq<ModuleView>, y: Seq<char>, x: Seq<char>)
    ensures
        times_listed(strip_video(ms, y), x) == if x == y {
            0nat
        } else {
            times_listed(ms, x)
        },
    decreases ms.len(),
{
    if ms.len() > 0 {
        let r = ms.drop_last();
        assert(strip_video(ms, y).drop_last() =~= strip_video(r, y));
        lemma_times_strip(r, y, x);
        lemma_count_without(ms.last().video_ids, y, x);
    }
}

/// The count over the Modules with each id of `order` in turn.
pub open spec fn times_by_order(order: Seq<Seq<char>>, ms: Seq<ModuleView>, x: Seq<char>) -> nat
    decreases order.len(),
{
    if order.len() == 0 {
        0
    } else {
        times_by_order(order.drop_last(), ms, x) + times_listed(
            ms.filter(module_has_id(order.last())),
            x,
        )
    }
}

proof fn lemma_times_in_order_is_by_order(order: Seq<Seq<char>>, ms: Seq<ModuleView>, x: Seq<char>)
    ensures
        times_listed(modules_in_order(order, ms), x) == times_by_order(order, ms, x),
    decreases order.len(),
{
    if order.len() > 0 {
        lemma_times_in_order_is_by_order(order.drop_last(), ms, x);
        lemma_times_concat(
            modules_in_order(order.drop_last(), ms),
            ms.filter(module_has_id(order.last())),
            x,
        );
    }
}

proof fn lemma_by_order_push(order: Seq<Seq<char>>, ms: Seq<ModuleView>, m: ModuleView, x: Seq<char>)
    ensures
        times_by_order(order, ms.push(m), x) == times_by_order(order, ms, x) + count_of(order, m.id)
            * count_of(m.video_ids, x),
    decreases order.len(),
{
    if order.len() > 0 {
        let o = order.last();
        lemma_by_order_push(order.drop_last(), ms, m, x);
        ms.lemma_filter_push(m, module_has_id(o));
        if module_has_id(o)(m) {
            let f = ms.filter(module_has_id(o));
            assert(f.push(m).drop_last() =~= f);
        }
        assert(count_of(order, m.id) == count_of(order.drop_last(), m.id) + if o == m.id {
            1nat
        } else {
            0nat
        });
        let a = count_of(order, m.id);
        let b = count_of(order.drop_last(), m.id);
        let c = count_of(m.video_ids, x);
        let d: nat = if o == m.id {
            1nat
        } else {
            0nat
        };
        assert(a * c == b * c + d * c) by (nonlinear_arith)
            requires
                a == b + d,
        ;
    } else {
        assert(count_of(order, m.id) == 0);
    }
}

/// Laying the Modules out in an order that names each of their ids exactly
/// once keeps every count.
pub proof fn lemma_times_in_order(order: Seq<Seq<char>>, ms: Seq<ModuleView>, x: Seq<char>)
    requires
        order.no_duplicates(),
        forall|i: int| 0 <= i < ms.len() ==> order.contains(#[trigger] ms[i].id),
    ensures
        times_listed(modules_in_order(order, ms), x) == times_listed(ms, x),
    decreases ms.len(),
{
    lemma_times_in_order_is_by_order(order, ms, x);
    lemma_by_order_is_times(order, ms, x);
}

proof fn lemma_by_order_is_times(order: Seq<Seq<char>>, ms: Seq<ModuleView>, x: Seq<char>)
    requires
        order.no_duplicates(),
        forall|i: int| 0 <= i < ms.len() ==> order.contains(#[trigger] ms[i].id),
    ensures
        times_by_order(order, ms, x) == times_listed(ms, x),
    decreases ms.len(),
{
    if ms.len() == 0 {
        lemma_by_order_empty(order, ms, x);
    } else {
        let r = ms.drop_last();
        let m = ms.last();
        assert(r.push(m) =~= ms);
        assert forall|i: int| 0 <= i < r.len() implies order.contains(#[trigger] r[i].id) by {
            assert(r[i] == ms[i]);
        }
        lemma_by_order_is_times(order, r, x);
        lemma_by_order_push(order, r, m, x);
        assert(order.contains(ms[ms.len() - 1].id));
        lemma_count_no_duplicates(order, m.id);
    }
}

proof fn lemma_by_order_empty(order: Seq<Seq<char>>, ms: Seq<ModuleView>, x: Seq<char>)
    requires
        ms.len() == 0,
    ensures
        times_by_order(order, ms, x) == 0,
    decreases order.len(),
{
    if order.len() > 0 {
        lemma_by_order_empty(order.drop_last(), ms, x);
        assert(ms.filter(module_has_id(order.last())) =~= Seq::<ModuleView>::empty());
    }
}

pub proof fn lemma_times_same_lists(a: Seq<ModuleView>, b: Seq<ModuleView>, x: Seq<char>)
    requires
        a.len() == b.len(),
        forall|i: int| 0 <= i < a.len() ==> #[trigger] a[i].video_ids == b[i].video_ids,
    ensures
        times_listed(a, x) == times_listed(b, x),
    decreases a.len(),
{
    if a.len() > 0 {
        let ra = a.drop_last();
        let rb = b.drop_last();
        assert forall|i: int| 0 <= i < ra.len() implies #[trigger] ra[i].video_ids == rb[i].video_ids by {
            assert(ra[i] == a[i] && rb[i] == b[i]);
        }
        lemma_times_same_lists(ra, rb, x);
        assert(a[a.len() - 1].video_ids == b[b.len() - 1].video_ids);
    }
}

/// A Course whose Video ids and Module lists are those of a well-shaped
/// Course, position by position, is well shaped.
pub proof fn lemma_structure_same_shape(c: CourseView, c2: CourseView)
    requires
        structure_ok(c),
        c2.videos.len() == c.videos.len(),
        forall|i: int| 0 <= i < c.videos.len() ==> #[trigger] c2.videos[i].id == c.videos[i].id,
        c2.modules.len() == c.modules.len(),
        forall|i: int| 0 <= i < c.modules.len() ==> #[trigger] c2.modules[i].video_ids
            == c.modules[i].video_ids,
    ensures
        structure_ok(c2),
{
    assert(video_ids_of(c2.videos) =~= video_ids_of(c.videos));
    assert forall|i: int| 0 <= i < c2.videos.len() implies times_listed(
        c2.modules,
        (#[trigger] c2.videos[i]).id,
    ) == 1 by {
        lemma_times_same_lists(c2.modules, c.modules, c.videos[i].id);
        assert(times_listed(c.modules, c.videos[i].id) == 1);
    }
    assert forall|m: int, k: int|
        0 <= m < c2.modules.len() && 0 <= k < c2.modules[m].video_ids.len() implies has_video(
        c2.videos,
        #[trigger] c2.modules[m].video_ids[k],
    ) by {
        assert(c2.modules[m].video_ids[k] == c.modules[m].video_ids[k]);
        assert(has_video(c.videos, c.modules[m].video_ids[k]));
        let v = choose|v: int| 0 <= v < c.videos.len() && (#[trigger] c.videos[v]).id
            == c.modules[m].video_ids[k];
        assert(c2.videos[v].id == c.videos[v].id);
    }
}

/// Appending a Module with an empty list keeps the shape.
pub proof fn lemma_structure_push_empty_module(c: CourseView, m: ModuleView)
    requires
        structure_ok(c),
        m.video_ids.len() == 0,
    ensures
        structure_ok(CourseView { modules: c.modules.push(m), ..c }),
{
    let c2 = CourseView { modules: c.modules.push(m), ..c };
    assert(c2.modules.drop_last() =~= c.modules);
    assert forall|i: int| 0 <= i < c2.videos.len() implies times_listed(
        c2.modules,
        (#[trigger] c2.videos[i]).id,
    ) == 1 by {
        assert(count_of(m.video_ids, c.videos[i].id) == 0);
    }
    assert forall|a: int, k: int|
        0 <= a < c2.modules.len() && 0 <= k < c2.modules[a].video_ids.len() implies has_video(
        c2.videos,
        #[trigger] c2.modules[a].video_ids[k],
    ) by {
        assert(a < c.modules.len());
        assert(c2.modules[a] == c.modules[a]);
    }
}

/// Adding a Video under an unused id to one Module keeps the shape.
pub proof fn lemma_structure_add_video(c: CourseView, i: int, v: VideoView)
    requires
        structure_ok(c),
        0 <= i < c.modules.len(),
        id_unused(c, v.id),
    ensures
        structure_ok(
            CourseView {
                modules: c.modules.update(
                    i,
                    ModuleView { video_ids: c.modules[i].video_ids.push(v.id), ..c.modules[i] },
                ),
                videos: c.videos.push(v),
                ..c
            },
        ),
{
    let m2 = ModuleView { video_ids: c.modules[i].video_ids.push(v.id), ..c.modules[i] };
    let ms2 = c.modules.update(i, m2);
    let vs2 = c.videos.push(v);
    let c2 = CourseView { modules: ms2, videos: vs2, ..c };
    assert(m2.video_ids.drop_last() =~= c.modules[i].video_ids);
    assert(video_ids_of(vs2) =~= video_ids_of(c.videos).push(v.id));
    assert forall|a: int, b: int|
        0 <= a < video_ids_of(vs2).len() && 0 <= b < video_ids_of(vs2).len() && a != b implies video_ids_of(
        vs2,
    )[a] != video_ids_of(vs2)[b] by {
        if a < c.videos.len() && b < c.videos.len() {
            assert(video_ids_of(c.videos)[a] != video_ids_of(c.videos)[b]);
        } else if a < c.videos.len() {
            assert(c.videos[a].id != v.id);
        } else {
            assert(c.videos[b].id != v.id);
        }
    }
    assert forall|j: int| 0 <= j < vs2.len() implies times_listed(ms2, (#[trigger] vs2[j]).id)
        == 1 by {
        let x = vs2[j].id;
        lemma_times_update(c.modules, i, m2, x);
        if j < c.videos.len() {
            assert(vs2[j] == c.videos[j]);
            assert(times_listed(c.modules, x) == 1);
            assert(x != v.id);
        } else {
            assert(x == v.id);
        }
    }
    assert forall|a: int, k: int|
        0 <= a < ms2.len() && 0 <= k < ms2[a].video_ids.len() implies has_video(
        vs2,
        #[trigger] ms2[a].video_ids[k],
    ) by {
        let y = ms2[a].video_ids[k];
        if a == i && k == c.modules[i].video_ids.len() {
            assert(vs2[c.videos.len() as int] == v);
        } else {
            assert(y == c.modules[a].video_ids[k]);
            assert(has_video(c.videos, c.modules[a].video_ids[k]));
            let w = choose|w: int| 0 <= w < c.videos.len() && (#[trigger] c.videos[w]).id == y;
            assert(vs2[w] == c.videos[w]);
        }
    }
}

proof fn lemma_strip_entry(ms: Seq<ModuleView>, y: Seq<char>, a: int, k: int)
    requires
        0 <= a < ms.len(),
        0 <= k < strip_video(ms, y)[a].video_ids.len(),
    ensures
        strip_video(ms, y)[a].video_ids[k] != y,
        ms[a].video_ids.contains(strip_video(ms, y)[a].video_ids[k]),
{
    let l = ms[a].video_ids;
    let f = l.filter(not_eq_to(y));
    assert(strip_video(ms, y)[a].video_ids == f);
    l.lemma_filter_pred(not_eq_to(y), k);
    assert(f.contains(f[k]));
    l.lemma_filter_contains_rev(not_eq_to(y), f[k]);
}

/// Deleting the Video at `p` and taking its id out of every list keeps the
/// shape.
pub proof fn lemma_structure_delete_video(c: CourseView, p: int)
    requires
        structure_ok(c),
        0 <= p < c.videos.len(),
    ensures
        structure_ok(
            CourseView {
                videos: c.videos.remove(p),
                modules: strip_video(c.modules, c.videos[p].id),
                ..c
            },
        ),
{
    let y = c.videos[p].id;
    let vs2 = c.videos.remove(p);
    let ms2 = strip_video(c.modules, y);
    let ids = video_ids_of(c.videos);
    assert(video_ids_of(vs2) =~= ids.remove(p));
    assert forall|a: int, b: int|
        0 <= a < video_ids_of(vs2).len() && 0 <= b < video_ids_of(vs2).len() && a != b implies video_ids_of(
        vs2,
    )[a] != video_ids_of(vs2)[b] by {
        let a2 = if a < p { a } else { a + 1 };
        let b2 = if b < p { b } else { b + 1 };
        assert(video_ids_of(vs2)[a] == ids[a2]);
        assert(video_ids_of(vs2)[b] == ids[b2]);
    }
    assert forall|j: int| 0 <= j < vs2.len() implies times_listed(ms2, (#[trigger] vs2[j]).id)
        == 1 by {
        let j2 = if j < p { j } else { j + 1 };
        assert(vs2[j] == c.videos[j2]);
        assert(ids[j2] != ids[p]);
        lemma_times_strip(c.modules, y, vs2[j].id);
    }
    assert forall|a: int, k: int|
        0 <= a < ms2.len() && 0 <= k < ms2[a].video_ids.len() implies has_video(
        vs2,
        #[trigger] ms2[a].video_ids[k],
    ) by {
        let e = ms2[a].video_ids[k];
        lemma_strip_entry(c.modules, y, a, k);
        let k2 = choose|k2: int| 0 <= k2 < c.modules[a].video_ids.len() && c.modules[a].video_ids[k2] == e;
        assert(has_video(c.videos, c.modules[a].video_ids[k2]));
        let w = choose|w: int| 0 <= w < c.videos.len() && (#[trigger] c.videos[w]).id == e;
        assert(w != p);
        let w2 = if w < p { w } else { w - 1 };
        assert(vs2[w2] == c.videos[w]);
    }
}

/// Moving a listed Video's id to a place in one Module keeps the shape.
pub proof fn lemma_structure_move_video(c: CourseView, y: Seq<char>, t: int, index: usize)
    requires
        structure_ok(c),
        has_video(c.videos, y),
        0 <= t < c.modules.len(),
    ensures
        structure_ok(CourseView { modules: moved_modules(c.modules, y, t, index), ..c }),
{
    let s = strip_video(c.modules, y);
    let l = s[t].video_ids;
    let k = clamp_index(index, l.len());
    let m2 = ModuleView { video_ids: l.insert(k, y), ..s[t] };
    let ms2 = moved_modules(c.modules, y, t, index);
    assert(ms2 == s.update(t, m2));
    let c2 = CourseView { modules: ms2, ..c };
    assert forall|j: int| 0 <= j < c.videos.len() implies times_listed(ms2, (#[trigger] c.videos[j]).id)
        == 1 by {
        let x = c.videos[j].id;
        lemma_times_update(s, t, m2, x);
        lemma_count_insert(l, k, y, x);
        lemma_times_strip(c.modules, y, x);
    }
    assert forall|a: int, kk: int|
        0 <= a < ms2.len() && 0 <= kk < ms2[a].video_ids.len() implies has_video(
        c.videos,
        #[trigger] ms2[a].video_ids[kk],
    ) by {
        let e = ms2[a].video_ids[kk];
        if a == t {
            assert(m2.video_ids =~= l.take(k) + seq![y] + l.skip(k));
            if kk == k {
                assert(e == y);
            } else {
                let kk2 = if kk < k { kk } else { kk - 1 };
                assert(e == l[kk2]);
                lemma_strip_entry(c.modules, y, t, kk2);
                let k3 = choose|k3: int| 0 <= k3 < c.modules[t].video_ids.len() && c.modules[t].video_ids[k3] == e;
                assert(has_video(c.videos, c.modules[t].video_ids[k3]));
            }
        } else {
            assert(ms2[a] == s[a]);
            lemma_strip_entry(c.modules, y, a, kk);
            let k3 = choose|k3: int| 0 <= k3 < c.modules[a].video_ids.len() && c.modules[a].video_ids[k3] == e;
            assert(has_video(c.videos, c.modules[a].video_ids[k3]));
        }
    }
}

proof fn lemma_filter_ids_distinct(vs: Seq<VideoView>, p: spec_fn(VideoView) -> bool)
    requires
        video_ids_of(vs).no_duplicates(),
    ensures
        video_ids_of(vs.filter(p)).no_duplicates(),
    decreases vs.len(),
{
    if vs.len() > 0 {
        let r = vs.drop_last();
        let v = vs.last();
        assert(r.push(v) =~= vs);
        assert(video_ids_of(r) =~= video_ids_of(vs).drop_last());
        lemma_filter_ids_distinct(r, p);
        r.lemma_filter_push(v, p);
        if p(v) {
            let f = r.filter(p);
            let ids = video_ids_of(f.push(v));
            assert(ids =~= video_ids_of(f).push(v.id));
            assert forall|a: int| 0 <= a < f.len() implies (#[trigger] f[a]).id != v.id by {
                assert(f.contains(f[a]));
                r.lemma_filter_contains_rev(p, f[a]);
                let w = choose|w: int| 0 <= w < r.len() && r[w] == f[a];
                assert(video_ids_of(vs)[w] != video_ids_of(vs)[vs.len() - 1]);
            }
            assert forall|a: int, b: int|
                0 <= a < ids.len() && 0 <= b < ids.len() && a != b implies ids[a] != ids[b] by {
                if a < f.len() && b < f.len() {
                    assert(video_ids_of(f)[a] != video_ids_of(f)[b]);
                } else if a < f.len() {
                    assert(ids[a] == f[a].id);
                } else {
                    assert(ids[b] == f[b].id);
                }
            }
        }
    } else {
        assert(vs.filter(p) =~= Seq::<VideoView>::empty());
        assert(video_ids_of(vs.filter(p)) =~= Seq::<Seq<char>>::empty());
    }
}

proof fn lemma_times_two(ms: Seq<ModuleView>, a: int, i: int, x: Seq<char>)
    requires
        0 <= a < ms.len(),
        0 <= i < ms.len(),
        a != i,
    ensures
        times_listed(ms, x) >= count_of(ms[a].video_ids, x) + count_of(ms[i].video_ids, x),
{
    lemma_times_remove(ms, i, x);
    let r = ms.remove(i);
    let a2 = if a < i { a } else { a - 1 };
    assert(r[a2] == ms[a]);
    lemma_times_remove(r, a2, x);
}

/// Times listed is at least the count in any one Module.
pub proof fn lemma_times_at_least(ms: Seq<ModuleView>, a: int, x: Seq<char>)
    requires
        0 <= a < ms.len(),
    ensures
        times_listed(ms, x) >= count_of(ms[a].video_ids, x),
{
    lemma_times_remove(ms, a, x);
}

/// Deleting a Module together with the Videos it lists keeps the shape.
pub proof fn lemma_structure_delete_module(c: CourseView, i: int)
    requires
        structure_ok(c),
        0 <= i < c.modules.len(),
    ensures
        structure_ok(
            CourseView {
                modules: c.modules.remove(i),
                videos: c.videos.filter(video_not_in(c.modules[i].video_ids)),
                ..c
            },
        ),
{
    let doomed = c.modules[i].video_ids;
    let pr = video_not_in(doomed);
    let vs2 = c.videos.filter(pr);
    let ms2 = c.modules.remove(i);
    lemma_filter_ids_distinct(c.videos, pr);
    assert forall|j: int| 0 <= j < vs2.len() implies times_listed(ms2, (#[trigger] vs2[j]).id)
        == 1 by {
        let w = vs2[j];
        assert(vs2.contains(w));
        c.videos.lemma_filter_contains_rev(pr, w);
        c.videos.lemma_filter_pred(pr, j);
        let v = choose|v: int| 0 <= v < c.videos.len() && c.videos[v] == w;
        assert(times_listed(c.modules, c.videos[v].id) == 1);
        lemma_times_remove(c.modules, i, w.id);
        lemma_count_contains(doomed, w.id);
    }
    assert forall|a: int, k: int|
        0 <= a < ms2.len() && 0 <= k < ms2[a].video_ids.len() implies has_video(
        vs2,
        #[trigger] ms2[a].video_ids[k],
    ) by {
        let a2 = if a < i { a } else { a + 1 };
        assert(ms2[a] == c.modules[a2]);
        let e = ms2[a].video_ids[k];
        assert(c.modules[a2].video_ids[k] == e);
        assert(has_video(c.videos, c.modules[a2].video_ids[k]));
        let w = choose|w: int| 0 <= w < c.videos.len() && (#[trigger] c.videos[w]).id == e;
        assert(times_listed(c.modules, c.videos[w].id) == 1);
        lemma_times_two(c.modules, a2, i, e);
        lemma_count_contains(c.modules[a2].video_ids, e);
        assert(c.modules[a2].video_ids.contains(e));
        lemma_count_contains(doomed, e);
        assert(pr(c.videos[w]));
        c.videos.lemma_filter_contains(pr, w);
        let j = choose|j: int| 0 <= j < vs2.len() && vs2[j] == c.videos[w];
        assert(vs2[j].id == e);
    }
}

/// Replacing one Module's list with a rearrangement of its distinct ids
/// keeps the shape.
pub proof fn lemma_structure_reorder_videos(c: CourseView, i: int, order: Seq<Seq<char>>)
    requires
        structure_ok(c),
        0 <= i < c.modules.len(),
        same_set_spec(order, c.modules[i].video_ids),
    ensures
        structure_ok(
            CourseView {
                modules: c.modules.update(i, ModuleView { video_ids: order, ..c.modules[i] }),
                ..c
            },
        ),
{
    let l = c.modules[i].video_ids;
    let m2 = ModuleView { video_ids: order, ..c.modules[i] };
    let ms2 = c.modules.update(i, m2);
    assert(order.to_set().len() == order.len());
    order.lemma_no_dup_set_cardinality();
    assert forall|j: int| 0 <= j < c.videos.len() implies times_listed(ms2, (#[trigger] c.videos[j]).id)
        == 1 by {
        let x = c.videos[j].id;
        lemma_times_update(c.modules, i, m2, x);
        lemma_times_at_least(c.modules, i, x);
        lemma_count_contains(l, x);
        lemma_count_no_duplicates(order, x);
        assert(order.contains(x) == l.contains(x)) by {
            assert(order.to_set().contains(x) == order.contains(x));
            assert(l.to_set().contains(x) == l.contains(x));
        }
    }
    assert forall|a: int, k: int|
        0 <= a < ms2.len() && 0 <= k < ms2[a].video_ids.len() implies has_video(
        c.videos,
        #[trigger] ms2[a].video_ids[k],
    ) by {
        let e = ms2[a].video_ids[k];
        if a == i {
            assert(order.to_set().contains(e));
            assert(l.to_set().contains(e));
            let k2 = choose|k2: int| 0 <= k2 < l.len() && l[k2] == e;
            assert(has_video(c.videos, c.modules[i].video_ids[k2]));
        } else {
            assert(ms2[a] == c.modules[a]);
        }
    }
}

proof fn lemma_in_order_members(order: Seq<Seq<char>>, ms: Seq<ModuleView>, m: ModuleView)
    requires
        modules_in_order(order, ms).contains(m),
    ensures
        ms.contains(m),
    decreases order.len(),
{
    if order.len() > 0 {
        let a = modules_in_order(order.drop_last(), ms);
        let f = ms.filter(module_has_id(order.last()));
        let j = choose|j: int| 0 <= j < (a + f).len() && (a + f)[j] == m;
        if j < a.len() {
            assert(a[j] == m);
            lemma_in_order_members(order.drop_last(), ms, m);
        } else {
            assert(f[j - a.len()] == m);
            assert(f.contains(m));
            ms.lemma_filter_contains_rev(module_has_id(order.last()), m);
        }
    }
}

/// Laying the Modules out in an order naming exactly their distinct ids
/// keeps the shape.
pub proof fn lemma_structure_reorder_modules(c: CourseView, order: Seq<Seq<char>>)
    requires
        structure_ok(c),
        same_set_spec(order, c.modules.map_values(|m: ModuleView| m.id)),
    ensures
        structure_ok(CourseView { modules: modules_in_order(order, c.modules), ..c }),
{
    let ms = c.modules;
    let ms2 = modules_in_order(order, ms);
    let ids = ms.map_values(|m: ModuleView| m.id);
    order.lemma_no_dup_set_cardinality();
    assert forall|i: int| 0 <= i < ms.len() implies order.contains(#[trigger] ms[i].id) by {
        assert(ids[i] == ms[i].id);
        assert(ids.to_set().contains(ms[i].id));
        assert(order.to_set().contains(ms[i].id));
    }
    assert forall|j: int| 0 <= j < c.videos.len() implies times_listed(ms2, (#[trigger] c.videos[j]).id)
        == 1 by {
        lemma_times_in_order(order, ms, c.videos[j].id);
    }
    assert forall|a: int, k: int|
        0 <= a < ms2.len() && 0 <= k < ms2[a].video_ids.len() implies has_video(
        c.videos,
        #[trigger] ms2[a].video_ids[k],
    ) by {
        assert(ms2.contains(ms2[a]));
        lemma_in_order_members(order, ms, ms2[a]);
        let b = choose|b: int| 0 <= b < ms.len() && ms[b] == ms2[a];
        assert(has_video(c.videos, ms[b].video_ids[k]));
    }
}

/// Moving a Video lists it exactly once across all Modules, in the target
/// Module at the requested position clamped to the target's length without
/// it; every other Video id is listed as often as before, and each
/// Module's other ids keep their relative order.
pub proof fn lemma_move_lists_once(ms: Seq<ModuleView>, id: Seq<char>, t: int, index: usize)
    requires
        0 <= t < ms.len(),
    ensures
        ({
            let r = moved_modules(ms, id, t, index);
            let rest = ms[t].video_ids.filter(not_eq_to(id));
            &&& times_listed(r, id) == 1
            &&& r[t].video_ids[clamp_index(index, rest.len())] == id
            &&& r[t].video_ids.remove(clamp_index(index, rest.len())) == rest
            &&& forall|x: Seq<char>| x != id ==> times_listed(r, x) == times_listed(ms, x)
        }),
{
    let st = strip_video(ms, id);
    let rest = st[t].video_ids;
    assert(rest == ms[t].video_ids.filter(not_eq_to(id)));
    let k = clamp_index(index, rest.len());
    let m = ModuleView { video_ids: rest.insert(k, id), ..st[t] };
    let r = moved_modules(ms, id, t, index);
    assert(r == st.update(t, m));
    assert(rest.insert(k, id).remove(k) =~= rest);
    lemma_times_strip(ms, id, id);
    lemma_times_update(st, t, m, id);
    lemma_count_insert(rest, k, id, id);
    lemma_count_without(ms[t].video_ids, id, id);
    assert forall|x: Seq<char>| x != id implies times_listed(r, x) == times_listed(ms, x) by {
        lemma_times_strip(ms, id, x);
        lemma_times_update(st, t, m, x);
        lemma_count_insert(rest, k, id, x);
    }
}

} // verus!
