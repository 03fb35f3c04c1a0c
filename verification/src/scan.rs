//! What a scan of the segments folders finds: the kept Segments of a
//! Video, the partial files that outlived a crash, and those partials
//! grouped into the Takes they belong to.
//!
//! The caller lists the folders and reads Take markers and sidecars; the
//! functions here decide, from those listings, which files count and how
//! they group. Results come back in a stable sorted order so listings are
//! reproducible whatever order the file system returned entries in.

use vstd::prelude::*;
use crate::capture::SourceRole;
use crate::paths::{
    join_path, join_spec, opt_view, path_file_name, path_file_name_spec, path_file_stem,
    path_file_stem_spec, path_parent, path_parent_spec, relative_spec, to_relative,
};
use crate::error::CoreError;
use crate::course_structure::{count_of, lemma_count_concat, lemma_count_no_duplicates};
use crate::segments::{
    dotted, dotted_name, kept_segment_id, kept_segment_id_spec, orphan_id, orphan_id_spec,
    partial_suffix_for, partial_suffix_spec, segments_dir, segments_dir_spec, OrphanSegment,
    OrphanTake, OrphanTakeSegment, Segment,
};
use crate::sorting::{key_lt, lemma_positions_onto, lemma_stable_sort_unique, stable_order, stable_sort_of, keys_view, positions_view};
use crate::text::{concat, strs_view, strip_suffix, strip_suffix_spec, ends_with_spec};

verus! {

pub struct SegmentView {
    pub id: Seq<char>,
    pub video_id: Seq<char>,
    pub path: Seq<char>,
}

impl View for Segment {
    type V = SegmentView;

    open spec fn view(&self) -> SegmentView {
        SegmentView { id: self.id@, video_id: self.video_id@, path: self.path@ }
    }
}

impl View for OrphanSegment {
    type V = SegmentView;

    open spec fn view(&self) -> SegmentView {
        SegmentView { id: self.id@, video_id: self.video_id@, path: self.path@ }
    }
}

pub struct OrphanTakeSegmentView {
    pub segment_id: Seq<char>,
    pub source_role: SourceRole,
    pub partial_path: Seq<char>,
}

impl View for OrphanTakeSegment {
    type V = OrphanTakeSegmentView;

    open spec fn view(&self) -> OrphanTakeSegmentView {
        OrphanTakeSegmentView {
            segment_id: self.segment_id@,
            source_role: self.source_role,
            partial_path: self.partial_path@,
        }
    }
}

pub open spec fn opt_seq(o: Option<String>) -> Option<Seq<char>> {
    match o {
        Some(s) => Some(s@),
        None => None,
    }
}

pub open spec fn take_segments_view(s: Seq<OrphanTakeSegment>) -> Seq<OrphanTakeSegmentView> {
    s.map_values(|x: OrphanTakeSegment| x@)
}

pub struct OrphanTakeView {
    pub take_id: Seq<char>,
    pub video_id: Seq<char>,
    pub recorded_at: Option<Seq<char>>,
    pub scene_id: Option<Seq<char>>,
    pub segments: Seq<OrphanTakeSegmentView>,
}

impl View for OrphanTake {
    type V = OrphanTakeView;

    open spec fn view(&self) -> OrphanTakeView {
        OrphanTakeView {
            take_id: self.take_id@,
            video_id: self.video_id@,
            recorded_at: opt_seq(self.recorded_at),
            scene_id: opt_seq(self.scene_id),
            segments: take_segments_view(self.segments@),
        }
    }
}

pub open spec fn segments_view(s: Seq<Segment>) -> Seq<SegmentView> {
    s.map_values(|x: Segment| x@)
}

pub open spec fn orphans_view(s: Seq<OrphanSegment>) -> Seq<SegmentView> {
    s.map_values(|x: OrphanSegment| x@)
}

pub open spec fn takes_view(s: Seq<OrphanTake>) -> Seq<OrphanTakeView> {
    s.map_values(|x: OrphanTake| x@)
}

/// `r` is `items` rearranged into the stable sorted order of `keys`.
pub open spec fn stably_sorted<T>(
    r: Seq<T>,
    items: Seq<T>,
    keys: Seq<(Seq<char>, Seq<char>)>,
) -> bool {
    exists|p: Seq<int>| #[trigger]
        stable_sort_of(keys, p) && r == p.map_values(|k: int| items[k])
}

/// A stable sort has one outcome: two results that both stably sort the
/// same items by the same keys are equal.
pub proof fn lemma_stably_sorted_unique<T>(
    r1: Seq<T>,
    r2: Seq<T>,
    items: Seq<T>,
    keys: Seq<(Seq<char>, Seq<char>)>,
)
    requires
        stably_sorted(r1, items, keys),
        stably_sorted(r2, items, keys),
    ensures
        r1 == r2,
{
    let p1 = choose|p: Seq<int>| #[trigger]
        stable_sort_of(keys, p) && r1 == p.map_values(|k: int| items[k]);
    let p2 = choose|p: Seq<int>| #[trigger]
        stable_sort_of(keys, p) && r2 == p.map_values(|k: int| items[k]);
    lemma_stable_sort_unique(keys, p1, p2);
}

/// The path, relative to the Course Folder, of a file named `name` in a
/// Video's segments folder.
pub open spec fn segment_file(folder: Seq<char>, video_id: Seq<char>, name: Seq<char>) -> Seq<
    char,
> {
    relative_spec(folder, join_spec(segments_dir_spec(folder, video_id), name))
}

fn segment_file_path(folder: &str, video_id: &str, name: &str) -> (r: String)
    ensures
        r@ == segment_file(folder@, video_id@, name@),
{
    let dir = segments_dir(folder, video_id);
    let full = join_path(dir.as_str(), name);
    to_relative(folder, full.as_str())
}

// ---------------------------------------------------------------------------
// Kept Segments of one Video.
// ---------------------------------------------------------------------------

/// The kept Segments named in a listing of a Video's segments folder, in
/// listing order.
pub open spec fn kept_in(folder: Seq<char>, video_id: Seq<char>, names: Seq<Seq<char>>) -> Seq<
    SegmentView,
>
    decreases names.len(),
{
    if names.len() == 0 {
        Seq::empty()
    } else {
        let rest = kept_in(folder, video_id, names.drop_last());
        match kept_segment_id_spec(names.last()) {
            Some(id) => rest.push(
                SegmentView { id, video_id, path: segment_file(folder, video_id, names.last()) },
            ),
            None => rest,
        }
    }
}

/// Segments are listed by id.
pub open spec fn segment_keys(s: Seq<SegmentView>) -> Seq<(Seq<char>, Seq<char>)> {
    s.map_values(|x: SegmentView| (x.id, Seq::<char>::empty()))
}

impl Segment {
    pub fn duplicate(&self) -> (r: Segment)
        ensures
            r@ == self@,
    {
        Segment { id: self.id.clone(), video_id: self.video_id.clone(), path: self.path.clone() }
    }
}

/// The kept Segments of a Video, from the file names listed in its segments
/// folder: hidden files, partials and sidecars are skipped, `.mov`, `.m4a`
/// and legacy `.mp4` files count, and the result is sorted by id.
pub fn list_segments_in(folder: &str, video_id: &str, names: &Vec<String>) -> (r: Vec<Segment>)
    ensures
        stably_sorted(
            segments_view(r@),
            kept_in(folder@, video_id@, strs_view(names@)),
            segment_keys(kept_in(folder@, video_id@, strs_view(names@))),
        ),
{
    let ghost ns = strs_view(names@);
    let mut found: Vec<Segment> = Vec::new();
    let mut i: usize = 0;
    assert(ns.take(0) =~= Seq::<Seq<char>>::empty());
    assert(segments_view(found@) =~= Seq::<SegmentView>::empty());
    while i < names.len()
        invariant
            i <= names.len(),
            ns == strs_view(names@),
            segments_view(found@) == kept_in(folder@, video_id@, ns.take(i as int)),
        decreases names.len() - i,
    {
        assert(ns.take(i + 1).drop_last() =~= ns.take(i as int));
        assert(ns.take(i + 1).last() == names@[i as int]@);
        match kept_segment_id(names[i].as_str()) {
            Some(id) => {
                let path = segment_file_path(folder, video_id, names[i].as_str());
                let seg = Segment { id, video_id: video_id.to_owned(), path };
                let ghost prev = found@;
                found.push(seg);
                assert(segments_view(found@) =~= segments_view(prev).push(seg@));
            },
            None => {},
        }
        i = i + 1;
    }
    assert(ns.take(names.len() as int) =~= ns);
    let ghost items = segments_view(found@);
    let mut keys: Vec<(String, String)> = Vec::new();
    let mut k: usize = 0;
    while k < found.len()
        invariant
            k <= found.len(),
            items == segments_view(found@),
            keys_view(keys@) == segment_keys(items).take(k as int),
        decreases found.len() - k,
    {
        let empty = String::new();
        let key = (found[k].id.clone(), empty);
        assert(key.1@ =~= Seq::<char>::empty());
        let ghost prev = keys@;
        keys.push(key);
        assert(keys_view(keys@) =~= keys_view(prev).push((key.0@, key.1@)));
        assert(segment_keys(items).take(k + 1) =~= segment_keys(items).take(k as int).push(
            segment_keys(items)[k as int],
        ));
        assert(items[k as int].id == found@[k as int].id@);
        assert(keys_view(keys@) =~= segment_keys(items).take(k + 1));
        k = k + 1;
    }
    assert(segment_keys(items).take(found.len() as int) =~= segment_keys(items));
    let order = stable_order(&keys);
    let ghost p = positions_view(order@);
    let mut out: Vec<Segment> = Vec::new();
    let mut j: usize = 0;
    while j < order.len()
        invariant
            j <= order.len(),
            p == positions_view(order@),
            items == segments_view(found@),
            stable_sort_of(segment_keys(items), p),
            segments_view(out@) == p.take(j as int).map_values(|x: int| items[x]),
        decreases order.len() - j,
    {
        assert(p[j as int] == order@[j as int] as int);
        let s = found[order[j]].duplicate();
        assert(s@ == items[p[j as int]]);
        let ghost prev = out@;
        out.push(s);
        assert(segments_view(out@) =~= segments_view(prev).push(s@));
        assert(p.take(j + 1).map_values(|x: int| items[x]) =~= p.take(j as int).map_values(
            |x: int| items[x],
        ).push(items[p[j as int]]));
        assert(segments_view(out@) =~= p.take(j + 1).map_values(|x: int| items[x]));
        j = j + 1;
    }
    assert(p.take(order.len() as int) =~= p);
    assert(stable_sort_of(segment_keys(items), p) && segments_view(out@) == p.map_values(
        |x: int| items[x],
    ));
    out
}

// ---------------------------------------------------------------------------
// Surviving partials across all Videos.
// ---------------------------------------------------------------------------

/// The file names listed in one Video's segments folder.
pub struct VideoListing {
    pub video_id: String,
    pub names: Vec<String>,
}

impl View for VideoListing {
    type V = (Seq<char>, Seq<Seq<char>>);

    open spec fn view(&self) -> (Seq<char>, Seq<Seq<char>>) {
        (self.video_id@, strs_view(self.names@))
    }
}

pub open spec fn listings_view(s: Seq<VideoListing>) -> Seq<(Seq<char>, Seq<Seq<char>>)> {
    s.map_values(|x: VideoListing| x@)
}

/// The partial files named in one Video's listing, in listing order.
pub open spec fn orphans_in(folder: Seq<char>, video_id: Seq<char>, names: Seq<Seq<char>>) -> Seq<
    SegmentView,
>
    decreases names.len(),
{
    if names.len() == 0 {
        Seq::empty()
    } else {
        let rest = orphans_in(folder, video_id, names.drop_last());
        match orphan_id_spec(names.last()) {
            Some(id) => rest.push(
                SegmentView { id, video_id, path: segment_file(folder, video_id, names.last()) },
            ),
            None => rest,
        }
    }
}

/// The partial files of every listed Video, Video by Video.
pub open spec fn orphans_across(folder: Seq<char>, listings: Seq<(Seq<char>, Seq<Seq<char>>)>) -> Seq<
    SegmentView,
>
    decreases listings.len(),
{
    if listings.len() == 0 {
        Seq::empty()
    } else {
        orphans_across(folder, listings.drop_last()) + orphans_in(
            folder,
            listings.last().0,
            listings.last().1,
        )
    }
}

/// Surviving partials are listed by Video, then by Segment id.
pub open spec fn orphan_keys(s: Seq<SegmentView>) -> Seq<(Seq<char>, Seq<char>)> {
    s.map_values(|x: SegmentView| (x.video_id, x.id))
}

impl OrphanSegment {
    pub fn duplicate(&self) -> (r: OrphanSegment)
        ensures
            r@ == self@,
    {
        OrphanSegment {
            id: self.id.clone(),
            video_id: self.video_id.clone(),
            path: self.path.clone(),
        }
    }
}

fn orphans_of_video(folder: &str, video_id: &str, names: &Vec<String>, out: &mut Vec<OrphanSegment>)
    ensures
        orphans_view(final(out)@) == orphans_view(old(out)@) + orphans_in(
            folder@,
            video_id@,
            strs_view(names@),
        ),
{
    let ghost ns = strs_view(names@);
    let ghost start = orphans_view(out@);
    let mut i: usize = 0;
    assert(ns.take(0) =~= Seq::<Seq<char>>::empty());
    assert(start + orphans_in(folder@, video_id@, ns.take(0)) =~= start);
    while i < names.len()
        invariant
            i <= names.len(),
            ns == strs_view(names@),
            orphans_view(out@) == start + orphans_in(folder@, video_id@, ns.take(i as int)),
        decreases names.len() - i,
    {
        assert(ns.take(i + 1).drop_last() =~= ns.take(i as int));
        assert(ns.take(i + 1).last() == names@[i as int]@);
        match orphan_id(names[i].as_str()) {
            Some(id) => {
                let path = segment_file_path(folder, video_id, names[i].as_str());
                let o = OrphanSegment { id, video_id: video_id.to_owned(), path };
                let ghost prev = out@;
                out.push(o);
                assert(orphans_view(out@) =~= orphans_view(prev).push(o@));
            },
            None => {},
        }
        i = i + 1;
    }
    assert(ns.take(names.len() as int) =~= ns);
}

/// Every surviving partial file (`.partial.mov`, `.partial.m4a` or legacy
/// `.partial.mkv`) in the listed segments folders, sorted by Video id and
/// then Segment id.
pub fn scan_orphans_in(folder: &str, listings: &Vec<VideoListing>) -> (r: Vec<OrphanSegment>)
    ensures
        stably_sorted(
            orphans_view(r@),
            orphans_across(folder@, listings_view(listings@)),
            orphan_keys(orphans_across(folder@, listings_view(listings@))),
        ),
{
    let ghost ls = listings_view(listings@);
    let mut found: Vec<OrphanSegment> = Vec::new();
    let mut v: usize = 0;
    assert(ls.take(0) =~= Seq::<(Seq<char>, Seq<Seq<char>>)>::empty());
    assert(orphans_view(found@) =~= Seq::<SegmentView>::empty());
    while v < listings.len()
        invariant
            v <= listings.len(),
            ls == listings_view(listings@),
            orphans_view(found@) == orphans_across(folder@, ls.take(v as int)),
        decreases listings.len() - v,
    {
        assert(ls.take(v + 1).drop_last() =~= ls.take(v as int));
        assert(ls.take(v + 1).last() == listings@[v as int]@);
        orphans_of_video(folder, listings[v].video_id.as_str(), &listings[v].names, &mut found);
        v = v + 1;
    }
    assert(ls.take(listings.len() as int) =~= ls);
    let ghost items = orphans_view(found@);
    let mut keys: Vec<(String, String)> = Vec::new();
    let mut k: usize = 0;
    while k < found.len()
        invariant
            k <= found.len(),
            items == orphans_view(found@),
            keys_view(keys@) == orphan_keys(items).take(k as int),
        decreases found.len() - k,
    {
        let key = (found[k].video_id.clone(), found[k].id.clone());
        let ghost prev = keys@;
        keys.push(key);
        assert(keys_view(keys@) =~= keys_view(prev).push((key.0@, key.1@)));
        assert(orphan_keys(items).take(k + 1) =~= orphan_keys(items).take(k as int).push(
            orphan_keys(items)[k as int],
        ));
        assert(keys_view(keys@) =~= orphan_keys(items).take(k + 1));
        k = k + 1;
    }
    assert(orphan_keys(items).take(found.len() as int) =~= orphan_keys(items));
    let order = stable_order(&keys);
    let ghost p = positions_view(order@);
    let mut out: Vec<OrphanSegment> = Vec::new();
    let mut j: usize = 0;
    while j < order.len()
        invariant
            j <= order.len(),
            p == positions_view(order@),
            items == orphans_view(found@),
            stable_sort_of(orphan_keys(items), p),
            orphans_view(out@) == p.take(j as int).map_values(|x: int| items[x]),
        decreases order.len() - j,
    {
        assert(p[j as int] == order@[j as int] as int);
        let o = found[order[j]].duplicate();
        assert(o@ == items[p[j as int]]);
        let ghost prev = out@;
        out.push(o);
        assert(orphans_view(out@) =~= orphans_view(prev).push(o@));
        assert(p.take(j + 1).map_values(|x: int| items[x]) =~= p.take(j as int).map_values(
            |x: int| items[x],
        ).push(items[p[j as int]]));
        j = j + 1;
    }
    assert(p.take(order.len() as int) =~= p);
    assert(stable_sort_of(orphan_keys(items), p) && orphans_view(out@) == p.map_values(
        |x: int| items[x],
    ));
    out
}

// ---------------------------------------------------------------------------
// Crashed Takes.
// ---------------------------------------------------------------------------

/// The Take ids of the in-progress markers (`<take-id>.in-progress.json`)
/// among listed names, in listing order.
pub open spec fn marker_ids_in(names: Seq<Seq<char>>) -> Seq<Seq<char>>
    decreases names.len(),
{
    if names.len() == 0 {
        Seq::empty()
    } else {
        let rest = marker_ids_in(names.drop_last());
        match strip_suffix_spec(names.last(), ".in-progress.json"@) {
            Some(id) => rest.push(id),
            None => rest,
        }
    }
}

/// The Take ids whose markers a segments folder holds.
pub fn marker_take_ids(names: &Vec<String>) -> (r: Vec<String>)
    ensures
        strs_view(r@) == marker_ids_in(strs_view(names@)),
{
    let ghost ns = strs_view(names@);
    let mut out: Vec<String> = Vec::new();
    let mut i: usize = 0;
    assert(ns.take(0) =~= Seq::<Seq<char>>::empty());
    assert(strs_view(out@) =~= Seq::<Seq<char>>::empty());
    while i < names.len()
        invariant
            i <= names.len(),
            ns == strs_view(names@),
            strs_view(out@) == marker_ids_in(ns.take(i as int)),
        decreases names.len() - i,
    {
        assert(ns.take(i + 1).drop_last() =~= ns.take(i as int));
        assert(ns.take(i + 1).last() == names@[i as int]@);
        match strip_suffix(names[i].as_str(), ".in-progress.json") {
            Some(id) => {
                let ghost prev = out@;
                out.push(id);
                assert(strs_view(out@) =~= strs_view(prev).push(id@));
            },
            None => {},
        }
        i = i + 1;
    }
    assert(ns.take(names.len() as int) =~= ns);
    out
}

/// One entry of a segments-folder listing and whether it is a plain file.
pub struct ListedEntry {
    pub name: String,
    pub is_file: bool,
}

impl View for ListedEntry {
    type V = (Seq<char>, bool);

    open spec fn view(&self) -> (Seq<char>, bool) {
        (self.name@, self.is_file)
    }
}

pub open spec fn entries_view(s: Seq<ListedEntry>) -> Seq<(Seq<char>, bool)> {
    s.map_values(|x: ListedEntry| x@)
}

/// One source of a Take marker: the Segment id it records to and its role.
pub struct MarkerSource {
    pub segment_id: String,
    pub role: SourceRole,
}

/// What the scan reads from a Take marker.
pub struct TakeMarkerInfo {
    pub take_id: String,
    pub recorded_at: String,
    pub scene_id: Option<String>,
    pub sources: Vec<MarkerSource>,
}

pub struct TakeMarkerInfoView {
    pub take_id: Seq<char>,
    pub recorded_at: Seq<char>,
    pub scene_id: Option<Seq<char>>,
    pub sources: Seq<(Seq<char>, SourceRole)>,
}

impl View for TakeMarkerInfo {
    type V = TakeMarkerInfoView;

    open spec fn view(&self) -> TakeMarkerInfoView {
        TakeMarkerInfoView {
            take_id: self.take_id@,
            recorded_at: self.recorded_at@,
            scene_id: opt_seq(self.scene_id),
            sources: self.sources@.map_values(|m: MarkerSource| (m.segment_id@, m.role)),
        }
    }
}

pub open spec fn markers_view(s: Seq<TakeMarkerInfo>) -> Seq<TakeMarkerInfoView> {
    s.map_values(|x: TakeMarkerInfo| x@)
}

/// A plain file of that name is listed.
pub open spec fn file_listed(entries: Seq<(Seq<char>, bool)>, name: Seq<char>) -> bool {
    exists|k: int| 0 <= k < entries.len() && #[trigger] entries[k] == (name, true)
}

/// The file a source of `role` records to under `segment_id`.
pub open spec fn partial_name(segment_id: Seq<char>, role: SourceRole) -> Seq<char> {
    dotted(segment_id, partial_suffix_spec(role))
}

/// The marker's sources whose partial file survived, in marker order.
pub open spec fn surviving_sources(
    folder: Seq<char>,
    video_id: Seq<char>,
    entries: Seq<(Seq<char>, bool)>,
    sources: Seq<(Seq<char>, SourceRole)>,
) -> Seq<OrphanTakeSegmentView>
    decreases sources.len(),
{
    if sources.len() == 0 {
        Seq::empty()
    } else {
        let rest = surviving_sources(folder, video_id, entries, sources.drop_last());
        let (sid, role) = sources.last();
        let name = partial_name(sid, role);
        if file_listed(entries, name) {
            rest.push(
                OrphanTakeSegmentView {
                    segment_id: sid,
                    source_role: role,
                    partial_path: segment_file(folder, video_id, name),
                },
            )
        } else {
            rest
        }
    }
}

/// The partial files the marker's sources claim, in marker order.
pub open spec fn claimed_by(entries: Seq<(Seq<char>, bool)>, sources: Seq<(Seq<char>, SourceRole)>) -> Seq<
    Seq<char>,
>
    decreases sources.len(),
{
    if sources.len() == 0 {
        Seq::empty()
    } else {
        let rest = claimed_by(entries, sources.drop_last());
        let name = partial_name(sources.last().0, sources.last().1);
        if file_listed(entries, name) {
            rest.push(name)
        } else {
            rest
        }
    }
}

/// The row a Take marker contributes.
pub open spec fn marker_take(
    folder: Seq<char>,
    video_id: Seq<char>,
    entries: Seq<(Seq<char>, bool)>,
    m: TakeMarkerInfoView,
) -> OrphanTakeView {
    OrphanTakeView {
        take_id: m.take_id,
        video_id,
        recorded_at: Some(m.recorded_at),
        scene_id: m.scene_id,
        segments: surviving_sources(folder, video_id, entries, m.sources),
    }
}

/// Every partial file claimed by some marker.
pub open spec fn claimed_all(entries: Seq<(Seq<char>, bool)>, markers: Seq<TakeMarkerInfoView>) -> Seq<
    Seq<char>,
>
    decreases markers.len(),
{
    if markers.len() == 0 {
        Seq::empty()
    } else {
        claimed_all(entries, markers.drop_last()) + claimed_by(entries, markers.last().sources)
    }
}

/// A surviving partial that no marker claims: its Segment id and file name.
pub struct OrphanPartial {
    pub segment_id: String,
    pub name: String,
}

pub open spec fn partials_view(s: Seq<OrphanPartial>) -> Seq<(Seq<char>, Seq<char>)> {
    s.map_values(|x: OrphanPartial| (x.segment_id@, x.name@))
}

/// Listed partial files that no marker claims, in listing order.
pub open spec fn unclaimed_in(entries: Seq<(Seq<char>, bool)>, claimed: Seq<Seq<char>>) -> Seq<
    (Seq<char>, Seq<char>),
>
    decreases entries.len(),
{
    if entries.len() == 0 {
        Seq::empty()
    } else {
        let rest = unclaimed_in(entries.drop_last(), claimed);
        let name = entries.last().0;
        if claimed.contains(name) {
            rest
        } else {
            match orphan_id_spec(name) {
                Some(id) => rest.push((id, name)),
                None => rest,
            }
        }
    }
}

/// What the scan reads from a Segment's sidecar, when there is one.
pub struct SidecarInfo {
    pub take_id: String,
    pub source_role: SourceRole,
    pub recorded_at: String,
}

pub open spec fn sidecars_view(s: Seq<Option<SidecarInfo>>) -> Seq<
    Option<(Seq<char>, SourceRole, Seq<char>)>,
> {
    s.map_values(
        |x: Option<SidecarInfo>|
            match x {
                Some(c) => Some((c.take_id@, c.source_role, c.recorded_at@)),
                None => None,
            },
    )
}

/// The single-Segment row of an unclaimed partial: grouped by the Take its
/// sidecar names (a screen recording under `legacy-<id>` without one).
pub open spec fn synthetic_take(
    folder: Seq<char>,
    video_id: Seq<char>,
    partial: (Seq<char>, Seq<char>),
    sidecar: Option<(Seq<char>, SourceRole, Seq<char>)>,
) -> OrphanTakeView {
    OrphanTakeView {
        take_id: match sidecar {
            Some(c) => c.0,
            None => "legacy-"@ + partial.0,
        },
        video_id,
        recorded_at: match sidecar {
            Some(c) => Some(c.2),
            None => None,
        },
        scene_id: None,
        segments: seq![
            OrphanTakeSegmentView {
                segment_id: partial.0,
                source_role: match sidecar {
                    Some(c) => c.1,
                    None => SourceRole::Screen,
                },
                partial_path: segment_file(folder, video_id, partial.1),
            },
        ],
    }
}

/// The rows of one Video: one per marker, in marker order, then one per
/// unclaimed partial, in listing order.
pub open spec fn video_takes(
    folder: Seq<char>,
    video_id: Seq<char>,
    entries: Seq<(Seq<char>, bool)>,
    markers: Seq<TakeMarkerInfoView>,
    sidecars: Seq<Option<(Seq<char>, SourceRole, Seq<char>)>>,
) -> Seq<OrphanTakeView> {
    let partials = unclaimed_in(entries, claimed_all(entries, markers));
    markers.map_values(|m: TakeMarkerInfoView| marker_take(folder, video_id, entries, m))
        + Seq::new(
        partials.len(),
        |i: int| synthetic_take(folder, video_id, partials[i], sidecars[i]),
    )
}

fn file_is_listed(entries: &Vec<ListedEntry>, name: &String) -> (b: bool)
    ensures
        b == file_listed(entries_view(entries@), name@),
{
    let ghost es = entries_view(entries@);
    let mut i: usize = 0;
    while i < entries.len()
        invariant
            i <= entries.len(),
            es == entries_view(entries@),
            forall|k: int| 0 <= k < i ==> es[k] != (name@, true),
        decreases entries.len() - i,
    {
        if entries[i].is_file && entries[i].name == *name {
            assert(es[i as int] == (name@, true));
            return true;
        }
        assert(es[i as int] == (entries@[i as int].name@, entries@[i as int].is_file));
        i = i + 1;
    }
    false
}

impl OrphanTakeSegment {
    pub fn duplicate(&self) -> (r: OrphanTakeSegment)
        ensures
            r@ == self@,
    {
        OrphanTakeSegment {
            segment_id: self.segment_id.clone(),
            source_role: self.source_role,
            partial_path: self.partial_path.clone(),
        }
    }
}

fn copy_opt(o: &Option<String>) -> (r: Option<String>)
    ensures
        opt_seq(r) == opt_seq(*o),
{
    match o {
        Some(s) => Some(s.clone()),
        None => None,
    }
}

impl OrphanTake {
    pub fn duplicate(&self) -> (r: OrphanTake)
        ensures
            r@ == self@,
    {
        let mut segments: Vec<OrphanTakeSegment> = Vec::new();
        let mut i: usize = 0;
        while i < self.segments.len()
            invariant
                i <= self.segments.len(),
                take_segments_view(segments@) == take_segments_view(self.segments@).take(i as int),
            decreases self.segments.len() - i,
        {
            let s = self.segments[i].duplicate();
            let ghost prev = segments@;
            segments.push(s);
            assert(take_segments_view(segments@) =~= take_segments_view(prev).push(s@));
            assert(take_segments_view(self.segments@).take(i + 1) =~= take_segments_view(
                self.segments@,
            ).take(i as int).push(self.segments@[i as int]@));
            i = i + 1;
        }
        assert(take_segments_view(self.segments@).take(self.segments.len() as int)
            =~= take_segments_view(self.segments@));
        OrphanTake {
            take_id: self.take_id.clone(),
            video_id: self.video_id.clone(),
            recorded_at: copy_opt(&self.recorded_at),
            scene_id: copy_opt(&self.scene_id),
            segments,
        }
    }
}

/// The row of one marker, and the partial files it claims appended to
/// `claimed`.
fn take_for_marker(
    folder: &str,
    video_id: &str,
    entries: &Vec<ListedEntry>,
    m: &TakeMarkerInfo,
    claimed: &mut Vec<String>,
) -> (r: OrphanTake)
    ensures
        r@ == marker_take(folder@, video_id@, entries_view(entries@), m@),
        strs_view(final(claimed)@) == strs_view(old(claimed)@) + claimed_by(
            entries_view(entries@),
            m@.sources,
        ),
{
    let ghost es = entries_view(entries@);
    let ghost srcs = m@.sources;
    let ghost start = strs_view(claimed@);
    let mut segments: Vec<OrphanTakeSegment> = Vec::new();
    let mut i: usize = 0;
    assert(srcs.take(0) =~= Seq::<(Seq<char>, SourceRole)>::empty());
    assert(take_segments_view(segments@) =~= Seq::<OrphanTakeSegmentView>::empty());
    assert(start + claimed_by(es, srcs.take(0)) =~= start);
    while i < m.sources.len()
        invariant
            i <= m.sources.len(),
            es == entries_view(entries@),
            srcs == m@.sources,
            take_segments_view(segments@) == surviving_sources(
                folder@,
                video_id@,
                es,
                srcs.take(i as int),
            ),
            strs_view(claimed@) == start + claimed_by(es, srcs.take(i as int)),
        decreases m.sources.len() - i,
    {
        assert(srcs.take(i + 1).drop_last() =~= srcs.take(i as int));
        assert(srcs.take(i + 1).last() == (m.sources@[i as int].segment_id@, m.sources@[i as int].role));
        let src = &m.sources[i];
        let name = dotted_name(src.segment_id.as_str(), partial_suffix_for(src.role));
        if file_is_listed(entries, &name) {
            let path = segment_file_path(folder, video_id, name.as_str());
            let seg = OrphanTakeSegment {
                segment_id: src.segment_id.clone(),
                source_role: src.role,
                partial_path: path,
            };
            let ghost prev = segments@;
            segments.push(seg);
            assert(take_segments_view(segments@) =~= take_segments_view(prev).push(seg@));
            let ghost prevc = claimed@;
            claimed.push(name);
            assert(strs_view(claimed@) =~= strs_view(prevc).push(name@));
            assert(start + claimed_by(es, srcs.take(i + 1)) =~= (start + claimed_by(
                es,
                srcs.take(i as int),
            )).push(name@));
        }
        i = i + 1;
    }
    assert(srcs.take(m.sources.len() as int) =~= srcs);
    OrphanTake {
        take_id: m.take_id.clone(),
        video_id: video_id.to_owned(),
        recorded_at: Some(m.recorded_at.clone()),
        scene_id: copy_opt(&m.scene_id),
        segments,
    }
}

fn marker_rows(
    folder: &str,
    video_id: &str,
    entries: &Vec<ListedEntry>,
    markers: &Vec<TakeMarkerInfo>,
) -> (r: (Vec<OrphanTake>, Vec<String>))
    ensures
        takes_view(r.0@) == markers_view(markers@).map_values(
            |m: TakeMarkerInfoView| marker_take(folder@, video_id@, entries_view(entries@), m),
        ),
        strs_view(r.1@) == claimed_all(entries_view(entries@), markers_view(markers@)),
{
    let ghost es = entries_view(entries@);
    let ghost ms = markers_view(markers@);
    let ghost f = |m: TakeMarkerInfoView| marker_take(folder@, video_id@, es, m);
    let mut rows: Vec<OrphanTake> = Vec::new();
    let mut claimed: Vec<String> = Vec::new();
    let mut i: usize = 0;
    assert(ms.take(0) =~= Seq::<TakeMarkerInfoView>::empty());
    assert(takes_view(rows@) =~= ms.take(0).map_values(f));
    assert(strs_view(claimed@) =~= Seq::<Seq<char>>::empty());
    while i < markers.len()
        invariant
            i <= markers.len(),
            es == entries_view(entries@),
            ms == markers_view(markers@),
            f == (|m: TakeMarkerInfoView| marker_take(folder@, video_id@, es, m)),
            takes_view(rows@) == ms.take(i as int).map_values(f),
            strs_view(claimed@) == claimed_all(es, ms.take(i as int)),
        decreases markers.len() - i,
    {
        assert(ms.take(i + 1).drop_last() =~= ms.take(i as int));
        assert(ms.take(i + 1).last() == markers@[i as int]@);
        let row = take_for_marker(folder, video_id, entries, &markers[i], &mut claimed);
        let ghost prev = rows@;
        rows.push(row);
        assert(takes_view(rows@) =~= takes_view(prev).push(row@));
        assert(ms.take(i + 1).map_values(f) =~= ms.take(i as int).map_values(f).push(
            f(markers@[i as int]@),
        ));
        i = i + 1;
    }
    assert(ms.take(markers.len() as int) =~= ms);
    (rows, claimed)
}

fn unclaimed_given(entries: &Vec<ListedEntry>, claimed: &Vec<String>) -> (r: Vec<OrphanPartial>)
    ensures
        partials_view(r@) == unclaimed_in(entries_view(entries@), strs_view(claimed@)),
{
    let ghost es = entries_view(entries@);
    let ghost cl = strs_view(claimed@);
    let mut out: Vec<OrphanPartial> = Vec::new();
    let mut i: usize = 0;
    assert(es.take(0) =~= Seq::<(Seq<char>, bool)>::empty());
    assert(partials_view(out@) =~= Seq::<(Seq<char>, Seq<char>)>::empty());
    while i < entries.len()
        invariant
            i <= entries.len(),
            es == entries_view(entries@),
            cl == strs_view(claimed@),
            partials_view(out@) == unclaimed_in(es.take(i as int), cl),
        decreases entries.len() - i,
    {
        assert(es.take(i + 1).drop_last() =~= es.take(i as int));
        assert(es.take(i + 1).last() == entries@[i as int]@);
        let name = &entries[i].name;
        if !crate::text::contains_str(claimed, name) {
            match orphan_id(name.as_str()) {
                Some(id) => {
                    let p = OrphanPartial { segment_id: id, name: name.clone() };
                    let ghost prev = out@;
                    out.push(p);
                    assert(partials_view(out@) =~= partials_view(prev).push((p.segment_id@, p.name@)));
                },
                None => {},
            }
        }
        i = i + 1;
    }
    assert(es.take(entries.len() as int) =~= es);
    out
}

/// The partial files of one Video's segments folder that none of its Take
/// markers claims, in listing order. Their sidecars, where present, say
/// which Take each belongs to.
pub fn unclaimed_partials(
    folder: &str,
    video_id: &str,
    entries: &Vec<ListedEntry>,
    markers: &Vec<TakeMarkerInfo>,
) -> (r: Vec<OrphanPartial>)
    ensures
        partials_view(r@) == unclaimed_in(
            entries_view(entries@),
            claimed_all(entries_view(entries@), markers_view(markers@)),
        ),
{
    let (_rows, claimed) = marker_rows(folder, video_id, entries, markers);
    unclaimed_given(entries, &claimed)
}

/// The crashed-Take rows of one Video: a row per Take marker with the
/// sources whose partial file survived, then a single-Segment row per
/// partial no marker claims, described by its sidecar (`sidecars[i]` for
/// the i-th unclaimed partial) or, without one, as a legacy screen
/// recording.
pub fn video_orphan_takes(
    folder: &str,
    video_id: &str,
    entries: &Vec<ListedEntry>,
    markers: &Vec<TakeMarkerInfo>,
    sidecars: &Vec<Option<SidecarInfo>>,
) -> (r: Vec<OrphanTake>)
    requires
        sidecars@.len() == unclaimed_in(
            entries_view(entries@),
            claimed_all(entries_view(entries@), markers_view(markers@)),
        ).len(),
    ensures
        takes_view(r@) == video_takes(
            folder@,
            video_id@,
            entries_view(entries@),
            markers_view(markers@),
            sidecars_view(sidecars@),
        ),
{
    let (mut rows, claimed) = marker_rows(folder, video_id, entries, markers);
    let partials = unclaimed_given(entries, &claimed);
    let ghost ps = partials_view(partials@);
    let ghost scs = sidecars_view(sidecars@);
    let ghost base = takes_view(rows@);
    let ghost g = |i: int| synthetic_take(folder@, video_id@, ps[i], scs[i]);
    let mut i: usize = 0;
    assert(base + Seq::new(0, g) =~= base);
    while i < partials.len()
        invariant
            i <= partials.len(),
            partials.len() == sidecars.len(),
            ps == partials_view(partials@),
            scs == sidecars_view(sidecars@),
            g == (|i: int| synthetic_take(folder@, video_id@, ps[i], scs[i])),
            takes_view(rows@) == base + Seq::new(i as nat, g),
        decreases partials.len() - i,
    {
        let p = &partials[i];
        let path = segment_file_path(folder, video_id, p.name.as_str());
        let (take_id, role, recorded_at) = match &sidecars[i] {
            Some(c) => (c.take_id.clone(), c.source_role, Some(c.recorded_at.clone())),
            None => (concat("legacy-", p.segment_id.as_str()), SourceRole::Screen, None),
        };
        let seg = OrphanTakeSegment { segment_id: p.segment_id.clone(), source_role: role, partial_path: path };
        let mut segments: Vec<OrphanTakeSegment> = Vec::new();
        segments.push(seg);
        let row = OrphanTake {
            take_id,
            video_id: video_id.to_owned(),
            recorded_at,
            scene_id: None,
            segments,
        };
        assert(take_segments_view(row.segments@) =~= seq![seg@]);
        assert(row@ == g(i as int));
        let ghost prev = rows@;
        rows.push(row);
        assert(takes_view(rows@) =~= takes_view(prev).push(row@));
        assert(base + Seq::new((i + 1) as nat, g) =~= (base + Seq::new(i as nat, g)).push(g(i as int)));
        i = i + 1;
    }
    rows
}

/// Crashed Takes are listed by Video, then by Take id.
pub open spec fn take_keys(s: Seq<OrphanTakeView>) -> Seq<(Seq<char>, Seq<char>)> {
    s.map_values(|x: OrphanTakeView| (x.video_id, x.take_id))
}

/// The rows sorted by Video id and then Take id; rows with equal keys keep
/// their order.
pub fn sort_orphan_takes(takes: &Vec<OrphanTake>) -> (r: Vec<OrphanTake>)
    ensures
        stably_sorted(takes_view(r@), takes_view(takes@), take_keys(takes_view(takes@))),
{
    let ghost items = takes_view(takes@);
    let mut keys: Vec<(String, String)> = Vec::new();
    let mut k: usize = 0;
    while k < takes.len()
        invariant
            k <= takes.len(),
            items == takes_view(takes@),
            keys_view(keys@) == take_keys(items).take(k as int),
        decreases takes.len() - k,
    {
        let key = (takes[k].video_id.clone(), takes[k].take_id.clone());
        let ghost prev = keys@;
        keys.push(key);
        assert(keys_view(keys@) =~= keys_view(prev).push((key.0@, key.1@)));
        assert(take_keys(items).take(k + 1) =~= take_keys(items).take(k as int).push(
            take_keys(items)[k as int],
        ));
        assert(keys_view(keys@) =~= take_keys(items).take(k + 1));
        k = k + 1;
    }
    assert(take_keys(items).take(takes.len() as int) =~= take_keys(items));
    let order = stable_order(&keys);
    let ghost p = positions_view(order@);
    let mut out: Vec<OrphanTake> = Vec::new();
    let mut j: usize = 0;
    while j < order.len()
        invariant
            j <= order.len(),
            p == positions_view(order@),
            items == takes_view(takes@),
            stable_sort_of(take_keys(items), p),
            takes_view(out@) == p.take(j as int).map_values(|x: int| items[x]),
        decreases order.len() - j,
    {
        assert(p[j as int] == order@[j as int] as int);
        let t = takes[order[j]].duplicate();
        assert(t@ == items[p[j as int]]);
        let ghost prev = out@;
        out.push(t);
        assert(takes_view(out@) =~= takes_view(prev).push(t@));
        assert(p.take(j + 1).map_values(|x: int| items[x]) =~= p.take(j as int).map_values(
            |x: int| items[x],
        ).push(items[p[j as int]]));
        j = j + 1;
    }
    assert(p.take(order.len() as int) =~= p);
    assert(stable_sort_of(take_keys(items), p) && takes_view(out@) == p.map_values(
        |x: int| items[x],
    ));
    out
}

// ---------------------------------------------------------------------------
// Picking a Segment.
// ---------------------------------------------------------------------------

/// The Segment a transcription reads: the first listed one, as an absolute
/// path under the Course Folder.
pub fn find_segment_to_transcribe(folder: &str, video_id: &str, segments: &Vec<Segment>) -> (r:
    Result<String, CoreError>)
    ensures
        segments@.len() == 0 ==> (r matches Err(CoreError::NoSegmentsForTranscription(v)) && v@
            == video_id@),
        segments@.len() > 0 ==> (r matches Ok(p) && p@ == join_spec(folder@, segments@[0].path@)),
{
    if segments.len() == 0 {
        return Err(CoreError::NoSegmentsForTranscription(video_id.to_owned()));
    }
    Ok(join_path(folder, segments[0].path.as_str()))
}

/// The Segment an export renders: the first listed one, as a path relative
/// to the Course Folder.
pub fn first_segment_path(video_id: &str, segments: &Vec<Segment>) -> (r: Result<String, CoreError>)
    ensures
        segments@.len() == 0 ==> (r matches Err(CoreError::NoSegmentsForExport(v)) && v@
            == video_id@),
        segments@.len() > 0 ==> (r matches Ok(p) && p@ == segments@[0].path@),
{
    if segments.len() == 0 {
        return Err(CoreError::NoSegmentsForExport(video_id.to_owned()));
    }
    Ok(segments[0].path.clone())
}

/// The Segment id a media path names: its file stem.
pub fn segment_id_from_path(p: &str) -> (r: Option<String>)
    ensures
        opt_view(r) == path_file_stem_spec(p@),
{
    path_file_stem(p)
}

/// The kept file a partial becomes: `<dir>/<id>.partial.mov` turns into
/// `<dir>/<id>.mov` (a name without that suffix is kept whole).
pub open spec fn sibling_final_spec(partial: Seq<char>) -> Seq<char> {
    final_beside_spec(path_parent_spec(partial), path_file_name_spec(partial))
}

/// The kept file for a partial with the given parent folder and file name
/// (as `Path::parent` and `Path::file_name` give them): `.` stands for a
/// missing parent, and the `.partial.mov` suffix becomes `.mov`.
pub open spec fn final_beside_spec(parent: Option<Seq<char>>, name: Option<Seq<char>>) -> Seq<char> {
    let dir = match parent {
        Some(d) => d,
        None => "."@,
    };
    let file = match name {
        Some(n) => n,
        None => Seq::empty(),
    };
    let id = match strip_suffix_spec(file, ".partial.mov"@) {
        Some(i) => i,
        None => file,
    };
    join_spec(dir, id + ".mov"@)
}

pub fn sibling_final(partial: &str) -> (r: String)
    ensures
        r@ == sibling_final_spec(partial@),
{
    final_beside(path_parent(partial), path_file_name(partial))
}

/// The kept file for a partial whose parent folder and file name are
/// `parent` and `file_name`.
pub fn final_beside(parent: Option<String>, file_name: Option<String>) -> (r: String)
    ensures
        r@ == final_beside_spec(opt_view(parent), opt_view(file_name)),
{
    let dir = match parent {
        Some(d) => d,
        None => ".".to_owned(),
    };
    let name = match file_name {
        Some(n) => n,
        None => String::new(),
    };
    let id = match strip_suffix(name.as_str(), ".partial.mov") {
        Some(i) => i,
        None => name,
    };
    let file = concat(id.as_str(), ".mov");
    join_path(dir.as_str(), file.as_str())
}

/// A stable sort rearranges: the result is as long as the items, holds
/// every item and nothing else, and its keys never decrease.
pub proof fn lemma_stably_sorted_rearranges<T>(
    r: Seq<T>,
    items: Seq<T>,
    keys: Seq<(Seq<char>, Seq<char>)>,
    key_of: spec_fn(T) -> (Seq<char>, Seq<char>),
)
    requires
        stably_sorted(r, items, keys),
        keys == items.map_values(key_of),
    ensures
        r.len() == items.len(),
        forall|a: int| 0 <= a < r.len() ==> items.contains(#[trigger] r[a]),
        forall|i: int| 0 <= i < items.len() ==> r.contains(#[trigger] items[i]),
        forall|a: int, b: int| 0 <= a < b < r.len() ==> !key_lt(key_of(#[trigger] r[b]), key_of(#[trigger] r[a])),
{
    let p = choose|p: Seq<int>| #[trigger]
        stable_sort_of(keys, p) && r == p.map_values(|k: int| items[k]);
    assert forall|a: int| 0 <= a < r.len() implies items.contains(#[trigger] r[a]) by {
        assert(r[a] == items[p[a]]);
    }
    assert forall|i: int| 0 <= i < items.len() implies r.contains(#[trigger] items[i]) by {
        lemma_positions_onto(p, items.len() as int, i);
        let a = choose|a: int| 0 <= a < items.len() && p[a] == i;
        assert(r[a] == items[i]);
    }
    assert forall|a: int, b: int| 0 <= a < b < r.len() implies !key_lt(key_of(#[trigger] r[b]), key_of(#[trigger] r[a])) by {
        assert(r[a] == items[p[a]] && r[b] == items[p[b]]);
        assert(keys[p[a]] == key_of(items[p[a]]));
        assert(keys[p[b]] == key_of(items[p[b]]));
    }
}

/// The key a kept Segment is listed by.
pub open spec fn segment_key(x: SegmentView) -> (Seq<char>, Seq<char>) {
    (x.id, Seq::<char>::empty())
}

/// The key an orphan is listed by.
pub open spec fn orphan_key(x: SegmentView) -> (Seq<char>, Seq<char>) {
    (x.video_id, x.id)
}

proof fn lemma_kept_in_members(folder: Seq<char>, video_id: Seq<char>, names: Seq<Seq<char>>)
    ensures
        forall|i: int| 0 <= i < names.len() && #[trigger] kept_segment_id_spec(names[i]) is Some
            ==> kept_in(folder, video_id, names).contains(SegmentView {
                id: kept_segment_id_spec(names[i])->0,
                video_id,
                path: segment_file(folder, video_id, names[i]),
            }),
        forall|a: int| 0 <= a < kept_in(folder, video_id, names).len() ==> exists|i: int|
            0 <= i < names.len() && #[trigger] kept_segment_id_spec(names[i]) == Some(
                (#[trigger] kept_in(folder, video_id, names)[a]).id,
            ) && kept_in(folder, video_id, names)[a] == (SegmentView {
                id: kept_segment_id_spec(names[i])->0,
                video_id,
                path: segment_file(folder, video_id, names[i]),
            }),
    decreases names.len(),
{
    if names.len() > 0 {
        let ns = names.drop_last();
        lemma_kept_in_members(folder, video_id, ns);
        let rest = kept_in(folder, video_id, ns);
        let all = kept_in(folder, video_id, names);
        assert forall|i: int| 0 <= i < names.len() && #[trigger] kept_segment_id_spec(names[i]) is Some
            implies all.contains(SegmentView {
                id: kept_segment_id_spec(names[i])->0,
                video_id,
                path: segment_file(folder, video_id, names[i]),
            }) by {
            if i < ns.len() {
                assert(ns[i] == names[i]);
                let x = SegmentView {
                    id: kept_segment_id_spec(names[i])->0,
                    video_id,
                    path: segment_file(folder, video_id, names[i]),
                };
                assert(rest.contains(x));
                let j = choose|j: int| 0 <= j < rest.len() && rest[j] == x;
                assert(all[j] == rest[j]);
            } else {
                assert(all.last() == SegmentView {
                    id: kept_segment_id_spec(names[i])->0,
                    video_id,
                    path: segment_file(folder, video_id, names[i]),
                });
                assert(all[all.len() - 1] == all.last());
            }
        }
        assert forall|a: int| 0 <= a < all.len() implies exists|i: int|
            0 <= i < names.len() && #[trigger] kept_segment_id_spec(names[i]) == Some((#[trigger] all[a]).id)
                && all[a] == (SegmentView {
                id: kept_segment_id_spec(names[i])->0,
                video_id,
                path: segment_file(folder, video_id, names[i]),
            }) by {
            if a < rest.len() {
                assert(all[a] == rest[a]);
                let i = choose|i: int|
                    0 <= i < ns.len() && #[trigger] kept_segment_id_spec(ns[i]) == Some((#[trigger] rest[a]).id)
                        && rest[a] == (SegmentView {
                        id: kept_segment_id_spec(ns[i])->0,
                        video_id,
                        path: segment_file(folder, video_id, ns[i]),
                    });
                assert(ns[i] == names[i]);
            } else {
                let i = names.len() - 1;
                assert(names[i] == names.last());
            }
        }
    }
}

/// The Segment listing law: the kept Segments of a listing are one per
/// kept file name (hidden files, partials and sidecars skipped; `.mov`,
/// `.m4a` or `.mp4` with a non-empty id), each at its path relative to the
/// Course Folder, nothing else, sorted by id.
pub proof fn lemma_segment_listing(
    folder: Seq<char>,
    video_id: Seq<char>,
    names: Seq<Seq<char>>,
    r: Seq<SegmentView>,
)
    requires
        stably_sorted(r, kept_in(folder, video_id, names), segment_keys(kept_in(folder, video_id, names))),
    ensures
        r.len() == kept_in(folder, video_id, names).len(),
        forall|i: int| 0 <= i < names.len() && #[trigger] kept_segment_id_spec(names[i]) is Some
            ==> r.contains(SegmentView {
                id: kept_segment_id_spec(names[i])->0,
                video_id,
                path: segment_file(folder, video_id, names[i]),
            }),
        forall|a: int| 0 <= a < r.len() ==> exists|i: int|
            0 <= i < names.len() && #[trigger] kept_segment_id_spec(names[i]) == Some((#[trigger] r[a]).id)
                && r[a] == (SegmentView {
                id: kept_segment_id_spec(names[i])->0,
                video_id,
                path: segment_file(folder, video_id, names[i]),
            }),
        forall|a: int, b: int| 0 <= a < b < r.len() ==> !key_lt(segment_key(#[trigger] r[b]), segment_key(#[trigger] r[a])),
{
    let items = kept_in(folder, video_id, names);
    assert(segment_keys(items) =~= items.map_values(|x: SegmentView| segment_key(x)));
    lemma_stably_sorted_rearranges(r, items, segment_keys(items), |x: SegmentView| segment_key(x));
    lemma_kept_in_members(folder, video_id, names);
    assert forall|i: int| 0 <= i < names.len() && #[trigger] kept_segment_id_spec(names[i]) is Some
        implies r.contains(SegmentView {
            id: kept_segment_id_spec(names[i])->0,
            video_id,
            path: segment_file(folder, video_id, names[i]),
        }) by {
        let x = SegmentView {
            id: kept_segment_id_spec(names[i])->0,
            video_id,
            path: segment_file(folder, video_id, names[i]),
        };
        assert(items.contains(x));
        let j = choose|j: int| 0 <= j < items.len() && items[j] == x;
        assert(r.contains(items[j]));
    }
    assert forall|a: int| 0 <= a < r.len() implies exists|i: int|
        0 <= i < names.len() && #[trigger] kept_segment_id_spec(names[i]) == Some((#[trigger] r[a]).id)
            && r[a] == (SegmentView {
            id: kept_segment_id_spec(names[i])->0,
            video_id,
            path: segment_file(folder, video_id, names[i]),
        }) by {
        assert(items.contains(r[a]));
        let j = choose|j: int| 0 <= j < items.len() && items[j] == r[a];
        assert(items[j] == items[j]);
    }
    assert forall|a: int, b: int| 0 <= a < b < r.len() implies !key_lt(segment_key(#[trigger] r[b]), segment_key(#[trigger] r[a])) by {}
}

proof fn lemma_orphans_in_members(folder: Seq<char>, video_id: Seq<char>, names: Seq<Seq<char>>)
    ensures
        forall|i: int| 0 <= i < names.len() && #[trigger] orphan_id_spec(names[i]) is Some
            ==> orphans_in(folder, video_id, names).contains(SegmentView {
                id: orphan_id_spec(names[i])->0,
                video_id,
                path: segment_file(folder, video_id, names[i]),
            }),
        forall|a: int| 0 <= a < orphans_in(folder, video_id, names).len() ==> exists|i: int|
            0 <= i < names.len() && #[trigger] orphan_id_spec(names[i]) == Some(
                (#[trigger] orphans_in(folder, video_id, names)[a]).id,
            ) && orphans_in(folder, video_id, names)[a] == (SegmentView {
                id: orphan_id_spec(names[i])->0,
                video_id,
                path: segment_file(folder, video_id, names[i]),
            }),
    decreases names.len(),
{
    if names.len() > 0 {
        let ns = names.drop_last();
        lemma_orphans_in_members(folder, video_id, ns);
        let rest = orphans_in(folder, video_id, ns);
        let all = orphans_in(folder, video_id, names);
        assert forall|i: int| 0 <= i < names.len() && #[trigger] orphan_id_spec(names[i]) is Some
            implies all.contains(SegmentView {
                id: orphan_id_spec(names[i])->0,
                video_id,
                path: segment_file(folder, video_id, names[i]),
            }) by {
            if i < ns.len() {
                assert(ns[i] == names[i]);
                let x = SegmentView {
                    id: orphan_id_spec(names[i])->0,
                    video_id,
                    path: segment_file(folder, video_id, names[i]),
                };
                assert(rest.contains(x));
                let j = choose|j: int| 0 <= j < rest.len() && rest[j] == x;
                assert(all[j] == rest[j]);
            } else {
                assert(all.last() == SegmentView {
                    id: orphan_id_spec(names[i])->0,
                    video_id,
                    path: segment_file(folder, video_id, names[i]),
                });
                assert(all[all.len() - 1] == all.last());
            }
        }
        assert forall|a: int| 0 <= a < all.len() implies exists|i: int|
            0 <= i < names.len() && #[trigger] orphan_id_spec(names[i]) == Some((#[trigger] all[a]).id)
                && all[a] == (SegmentView {
                id: orphan_id_spec(names[i])->0,
                video_id,
                path: segment_file(folder, video_id, names[i]),
            }) by {
            if a < rest.len() {
                assert(all[a] == rest[a]);
                let i = choose|i: int|
                    0 <= i < ns.len() && #[trigger] orphan_id_spec(ns[i]) == Some((#[trigger] rest[a]).id)
                        && rest[a] == (SegmentView {
                        id: orphan_id_spec(ns[i])->0,
                        video_id,
                        path: segment_file(folder, video_id, ns[i]),
                    });
                assert(ns[i] == names[i]);
            } else {
                let i = names.len() - 1;
                assert(names[i] == names.last());
            }
        }
    }
}

/// The orphan `o` comes from some file of some listed Video.
pub open spec fn listed_orphan(folder: Seq<char>, ls: Seq<(Seq<char>, Seq<Seq<char>>)>, o: SegmentView) -> bool {
    exists|v: int, i: int|
        0 <= v < ls.len() && 0 <= i < ls[v].1.len() && #[trigger] orphan_of(folder, ls[v].0, ls[v].1[i], o)
}

/// The orphan `o` comes from file `name` of Video `video_id`.
pub open spec fn orphan_of(folder: Seq<char>, video_id: Seq<char>, name: Seq<char>, o: SegmentView) -> bool {
    &&& orphan_id_spec(name) is Some
    &&& o == (SegmentView {
        id: orphan_id_spec(name)->0,
        video_id,
        path: segment_file(folder, video_id, name),
    })
}

proof fn lemma_orphans_across_members(folder: Seq<char>, ls: Seq<(Seq<char>, Seq<Seq<char>>)>)
    ensures
        forall|v: int, i: int| 0 <= v < ls.len() && 0 <= i < ls[v].1.len() && #[trigger] orphan_id_spec(ls[v].1[i]) is Some
            ==> orphans_across(folder, ls).contains(SegmentView {
                id: orphan_id_spec(ls[v].1[i])->0,
                video_id: ls[v].0,
                path: segment_file(folder, ls[v].0, ls[v].1[i]),
            }),
        forall|a: int| 0 <= a < orphans_across(folder, ls).len() ==> listed_orphan(folder, ls, #[trigger] orphans_across(folder, ls)[a]),
    decreases ls.len(),
{
    if ls.len() > 0 {
        let pre = ls.drop_last();
        lemma_orphans_across_members(folder, pre);
        let l = ls.last();
        lemma_orphans_in_members(folder, l.0, l.1);
        let a1 = orphans_across(folder, pre);
        let a2 = orphans_in(folder, l.0, l.1);
        let all = orphans_across(folder, ls);
        assert(all == a1 + a2);
        assert forall|v: int, i: int| 0 <= v < ls.len() && 0 <= i < ls[v].1.len() && #[trigger] orphan_id_spec(ls[v].1[i]) is Some
            implies all.contains(SegmentView {
                id: orphan_id_spec(ls[v].1[i])->0,
                video_id: ls[v].0,
                path: segment_file(folder, ls[v].0, ls[v].1[i]),
            }) by {
            let x = SegmentView {
                id: orphan_id_spec(ls[v].1[i])->0,
                video_id: ls[v].0,
                path: segment_file(folder, ls[v].0, ls[v].1[i]),
            };
            if v < pre.len() {
                assert(pre[v] == ls[v]);
                assert(a1.contains(x));
                let j = choose|j: int| 0 <= j < a1.len() && a1[j] == x;
                assert(all[j] == a1[j]);
            } else {
                assert(ls[v] == l);
                assert(a2.contains(x));
                let j = choose|j: int| 0 <= j < a2.len() && a2[j] == x;
                assert(all[a1.len() + j] == a2[j]);
            }
        }
        assert forall|a: int| 0 <= a < all.len() implies listed_orphan(folder, ls, #[trigger] all[a]) by {
            if a < a1.len() {
                assert(all[a] == a1[a]);
                assert(listed_orphan(folder, pre, a1[a]));
                let (v, i) = choose|v: int, i: int|
                    0 <= v < pre.len() && 0 <= i < pre[v].1.len() && #[trigger] orphan_of(folder, pre[v].0, pre[v].1[i], a1[a]);
                assert(pre[v] == ls[v]);
                assert(orphan_of(folder, ls[v].0, ls[v].1[i], all[a]));
            } else {
                let b = a - a1.len();
                assert(all[a] == a2[b]);
                let i = choose|i: int|
                    0 <= i < l.1.len() && #[trigger] orphan_id_spec(l.1[i]) == Some((#[trigger] a2[b]).id)
                        && a2[b] == (SegmentView {
                        id: orphan_id_spec(l.1[i])->0,
                        video_id: l.0,
                        path: segment_file(folder, l.0, l.1[i]),
                    });
                let v = ls.len() - 1;
                assert(ls[v] == l);
                assert(orphan_of(folder, ls[v].0, ls[v].1[i], all[a]));
            }
        }
    }
}

/// The orphan-segment law: the surviving partials of all Videos are listed
/// one per partial file name with a non-empty id, each at its path relative
/// to the Course Folder, nothing else (kept files never), sorted by Video
/// and then id.
pub proof fn lemma_orphan_listing(
    folder: Seq<char>,
    ls: Seq<(Seq<char>, Seq<Seq<char>>)>,
    r: Seq<SegmentView>,
)
    requires
        stably_sorted(r, orphans_across(folder, ls), orphan_keys(orphans_across(folder, ls))),
    ensures
        r.len() == orphans_across(folder, ls).len(),
        forall|v: int, i: int| 0 <= v < ls.len() && 0 <= i < ls[v].1.len() && #[trigger] orphan_id_spec(ls[v].1[i]) is Some
            ==> r.contains(SegmentView {
                id: orphan_id_spec(ls[v].1[i])->0,
                video_id: ls[v].0,
                path: segment_file(folder, ls[v].0, ls[v].1[i]),
            }),
        forall|a: int| 0 <= a < r.len() ==> listed_orphan(folder, ls, #[trigger] r[a]),
        forall|a: int, b: int| 0 <= a < b < r.len() ==> !key_lt(orphan_key(#[trigger] r[b]), orphan_key(#[trigger] r[a])),
{
    let items = orphans_across(folder, ls);
    assert(orphan_keys(items) =~= items.map_values(|x: SegmentView| orphan_key(x)));
    lemma_stably_sorted_rearranges(r, items, orphan_keys(items), |x: SegmentView| orphan_key(x));
    lemma_orphans_across_members(folder, ls);
    assert forall|v: int, i: int| 0 <= v < ls.len() && 0 <= i < ls[v].1.len() && #[trigger] orphan_id_spec(ls[v].1[i]) is Some
        implies r.contains(SegmentView {
            id: orphan_id_spec(ls[v].1[i])->0,
            video_id: ls[v].0,
            path: segment_file(folder, ls[v].0, ls[v].1[i]),
        }) by {
        let x = SegmentView {
            id: orphan_id_spec(ls[v].1[i])->0,
            video_id: ls[v].0,
            path: segment_file(folder, ls[v].0, ls[v].1[i]),
        };
        assert(items.contains(x));
        let j = choose|j: int| 0 <= j < items.len() && items[j] == x;
        assert(r.contains(items[j]));
    }
    assert forall|a: int| 0 <= a < r.len() implies listed_orphan(folder, ls, #[trigger] r[a]) by {
        assert(items.contains(r[a]));
        let j = choose|j: int| 0 <= j < items.len() && items[j] == r[a];
        assert(items[j] == orphans_across(folder, ls)[j]);
        assert(listed_orphan(folder, ls, items[j]));
        let (v, i) = choose|v: int, i: int|
            0 <= v < ls.len() && 0 <= i < ls[v].1.len() && #[trigger] orphan_of(folder, ls[v].0, ls[v].1[i], items[j]);
        assert(orphan_of(folder, ls[v].0, ls[v].1[i], r[a]));
    }
    assert forall|a: int, b: int| 0 <= a < b < r.len() implies !key_lt(orphan_key(#[trigger] r[b]), orphan_key(#[trigger] r[a])) by {}
}

/// The partial file names the rows of one Video show, in row order: the
/// names each marker claims, then the unclaimed partials.
pub open spec fn take_partial_names(
    entries: Seq<(Seq<char>, bool)>,
    markers: Seq<TakeMarkerInfoView>,
) -> Seq<Seq<char>> {
    claimed_all(entries, markers) + unclaimed_in(entries, claimed_all(entries, markers)).map_values(
        |p: (Seq<char>, Seq<char>)| p.1,
    )
}

/// No two listed entries share a name.
pub open spec fn names_distinct(entries: Seq<(Seq<char>, bool)>) -> bool {
    forall|j: int, k: int| 0 <= j < k < entries.len() ==> (#[trigger] entries[j]).0 != (#[trigger] entries[k]).0
}

/// Some listed entry is named `n`.
pub open spec fn entry_named(entries: Seq<(Seq<char>, bool)>, n: Seq<char>) -> bool {
    exists|k: int| 0 <= k < entries.len() && (#[trigger] entries[k]).0 == n
}

/// A marker row shows one segment per claimed name, at that name's path.
pub proof fn lemma_marker_row_names(
    folder: Seq<char>,
    video_id: Seq<char>,
    entries: Seq<(Seq<char>, bool)>,
    sources: Seq<(Seq<char>, SourceRole)>,
)
    ensures
        surviving_sources(folder, video_id, entries, sources).len() == claimed_by(entries, sources).len(),
        forall|k: int| 0 <= k < claimed_by(entries, sources).len() ==> (#[trigger] surviving_sources(folder, video_id, entries, sources)[k]).partial_path
            == segment_file(folder, video_id, claimed_by(entries, sources)[k]),
    decreases sources.len(),
{
    if sources.len() > 0 {
        lemma_marker_row_names(folder, video_id, entries, sources.drop_last());
    }
}

proof fn lemma_claimed_by_listed(entries: Seq<(Seq<char>, bool)>, sources: Seq<(Seq<char>, SourceRole)>)
    ensures
        forall|k: int| 0 <= k < claimed_by(entries, sources).len() ==> file_listed(entries, #[trigger] claimed_by(entries, sources)[k]),
    decreases sources.len(),
{
    if sources.len() > 0 {
        lemma_claimed_by_listed(entries, sources.drop_last());
        let rest = claimed_by(entries, sources.drop_last());
        let all = claimed_by(entries, sources);
        assert forall|k: int| 0 <= k < all.len() implies file_listed(entries, #[trigger] all[k]) by {
            if k < rest.len() {
                assert(all[k] == rest[k]);
            }
        }
    }
}

proof fn lemma_claimed_all_listed(entries: Seq<(Seq<char>, bool)>, markers: Seq<TakeMarkerInfoView>)
    ensures
        forall|k: int| 0 <= k < claimed_all(entries, markers).len() ==> file_listed(entries, #[trigger] claimed_all(entries, markers)[k]),
    decreases markers.len(),
{
    if markers.len() > 0 {
        lemma_claimed_all_listed(entries, markers.drop_last());
        lemma_claimed_by_listed(entries, markers.last().sources);
        let a = claimed_all(entries, markers.drop_last());
        let b = claimed_by(entries, markers.last().sources);
        assert forall|k: int| 0 <= k < (a + b).len() implies file_listed(entries, #[trigger] (a + b)[k]) by {
            if k < a.len() {
                assert((a + b)[k] == a[k]);
            } else {
                assert((a + b)[k] == b[k - a.len()]);
            }
        }
    }
}

proof fn lemma_unclaimed_count(entries: Seq<(Seq<char>, bool)>, claimed: Seq<Seq<char>>, n: Seq<char>)
    requires
        names_distinct(entries),
    ensures
        count_of(unclaimed_in(entries, claimed).map_values(|p: (Seq<char>, Seq<char>)| p.1), n) == if !claimed.contains(n)
            && orphan_id_spec(n) is Some && entry_named(entries, n) {
            1nat
        } else {
            0nat
        },
        forall|j: int| 0 <= j < unclaimed_in(entries, claimed).len() ==> entry_named(entries, (#[trigger] unclaimed_in(entries, claimed)[j]).1),
    decreases entries.len(),
{
    if entries.len() > 0 {
        let r = entries.drop_last();
        assert(names_distinct(r)) by {
            assert forall|j: int, k: int| 0 <= j < k < r.len() implies (#[trigger] r[j]).0 != (#[trigger] r[k]).0 by {
                assert(r[j] == entries[j] && r[k] == entries[k]);
            }
        }
        lemma_unclaimed_count(r, claimed, n);
        let prev = unclaimed_in(r, claimed);
        let cur = unclaimed_in(entries, claimed);
        let pm = prev.map_values(|p: (Seq<char>, Seq<char>)| p.1);
        let cm = cur.map_values(|p: (Seq<char>, Seq<char>)| p.1);
        let last = entries.last().0;
        if entry_named(r, n) {
            let k = choose|k: int| 0 <= k < r.len() && (#[trigger] r[k]).0 == n;
            assert(entries[k] == r[k]);
            assert(entry_named(entries, n));
        }
        if entry_named(entries, n) && !entry_named(r, n) {
            let k = choose|k: int| 0 <= k < entries.len() && (#[trigger] entries[k]).0 == n;
            if k < r.len() {
                assert(r[k] == entries[k]);
            }
        }
        if entry_named(r, n) && last == n {
            let k = choose|k: int| 0 <= k < r.len() && (#[trigger] r[k]).0 == n;
            assert(entries[k] == r[k]);
            assert(entries[k].0 != entries[entries.len() - 1].0);
        }
        if !claimed.contains(last) && orphan_id_spec(last) is Some {
            let id = orphan_id_spec(last)->0;
            assert(cur == prev.push((id, last)));
            assert(cm =~= pm.push(last));
            assert(pm.push(last).drop_last() =~= pm);
            assert(count_of(cm, n) == count_of(pm, n) + if last == n { 1nat } else { 0nat });
        } else {
            assert(cur == prev);
        }
        assert forall|j: int| 0 <= j < cur.len() implies entry_named(entries, (#[trigger] cur[j]).1) by {
            if j < prev.len() {
                assert(cur[j] == prev[j]);
                let k = choose|k: int| 0 <= k < r.len() && (#[trigger] r[k]).0 == prev[j].1;
                assert(entries[k] == r[k]);
            } else {
                assert(entries[entries.len() - 1].0 == last);
            }
        }
    } else {
        assert(unclaimed_in(entries, claimed).map_values(|p: (Seq<char>, Seq<char>)| p.1) =~= Seq::<Seq<char>>::empty());
    }
}

/// Every partial lands in exactly one row of its Video: when no two listed
/// entries share a name and no partial is claimed by two marker sources,
/// each listed partial file is shown exactly once across the rows (under
/// the marker that claims it, or on a row of its own), and every name the
/// rows show is a listed entry.
pub proof fn lemma_each_partial_in_one_take(
    entries: Seq<(Seq<char>, bool)>,
    markers: Seq<TakeMarkerInfoView>,
    n: Seq<char>,
)
    requires
        names_distinct(entries),
        claimed_all(entries, markers).no_duplicates(),
    ensures
        file_listed(entries, n) && orphan_id_spec(n) is Some ==> count_of(take_partial_names(entries, markers), n) == 1,
        forall|j: int| 0 <= j < take_partial_names(entries, markers).len() ==> entry_named(entries, #[trigger] take_partial_names(entries, markers)[j]),
{
    let c = claimed_all(entries, markers);
    let u = unclaimed_in(entries, c).map_values(|p: (Seq<char>, Seq<char>)| p.1);
    lemma_count_concat(c, u, n);
    lemma_count_no_duplicates(c, n);
    lemma_unclaimed_count(entries, c, n);
    lemma_claimed_all_listed(entries, markers);
    if file_listed(entries, n) {
        let k = choose|k: int| 0 <= k < entries.len() && #[trigger] entries[k] == (n, true);
        assert(entries[k].0 == n);
    }
    let t = take_partial_names(entries, markers);
    assert forall|j: int| 0 <= j < t.len() implies entry_named(entries, #[trigger] t[j]) by {
        if j < c.len() {
            assert(t[j] == c[j]);
            assert(file_listed(entries, c[j]));
            let k = choose|k: int| 0 <= k < entries.len() && #[trigger] entries[k] == (c[j], true);
            assert(entries[k].0 == c[j]);
        } else {
            let i = j - c.len();
            assert(t[j] == u[i]);
            assert(u[i] == unclaimed_in(entries, c)[i].1);
        }
    }
}

/// The partial paths the rows show, row by row and, within a row, in
/// segment order.
pub open spec fn rows_partial_paths(rows: Seq<OrphanTakeView>) -> Seq<Seq<char>>
    decreases rows.len(),
{
    if rows.len() == 0 {
        Seq::empty()
    } else {
        rows_partial_paths(rows.drop_last()) + rows.last().segments.map_values(
            |s: OrphanTakeSegmentView| s.partial_path,
        )
    }
}

/// Each name as a path of the Video's segments folder.
pub open spec fn segment_files(folder: Seq<char>, video_id: Seq<char>, names: Seq<Seq<char>>) -> Seq<
    Seq<char>,
> {
    names.map_values(|n: Seq<char>| segment_file(folder, video_id, n))
}

proof fn lemma_rows_partial_paths_concat(a: Seq<OrphanTakeView>, b: Seq<OrphanTakeView>)
    ensures
        rows_partial_paths(a + b) == rows_partial_paths(a) + rows_partial_paths(b),
    decreases b.len(),
{
    if b.len() == 0 {
        assert(a + b =~= a);
        assert(rows_partial_paths(a) + rows_partial_paths(b) =~= rows_partial_paths(a));
    } else {
        assert((a + b).drop_last() =~= a + b.drop_last());
        assert((a + b).last() == b.last());
        lemma_rows_partial_paths_concat(a, b.drop_last());
        let tail = b.last().segments.map_values(|s: OrphanTakeSegmentView| s.partial_path);
        assert(rows_partial_paths(a + b) =~= rows_partial_paths(a) + rows_partial_paths(b.drop_last())
            + tail);
        assert(rows_partial_paths(a) + rows_partial_paths(b) =~= rows_partial_paths(a)
            + rows_partial_paths(b.drop_last()) + tail);
    }
}

proof fn lemma_marker_rows_paths(
    folder: Seq<char>,
    video_id: Seq<char>,
    entries: Seq<(Seq<char>, bool)>,
    markers: Seq<TakeMarkerInfoView>,
)
    ensures
        rows_partial_paths(
            markers.map_values(|m: TakeMarkerInfoView| marker_take(folder, video_id, entries, m)),
        ) == segment_files(folder, video_id, claimed_all(entries, markers)),
    decreases markers.len(),
{
    let rows = markers.map_values(|m: TakeMarkerInfoView| marker_take(folder, video_id, entries, m));
    if markers.len() == 0 {
        assert(rows =~= Seq::<OrphanTakeView>::empty());
        assert(segment_files(folder, video_id, claimed_all(entries, markers)) =~= Seq::<Seq<char>>::empty());
    } else {
        let init = markers.drop_last();
        lemma_marker_rows_paths(folder, video_id, entries, init);
        assert(rows.drop_last() =~= init.map_values(
            |m: TakeMarkerInfoView| marker_take(folder, video_id, entries, m),
        ));
        let srcs = markers.last().sources;
        lemma_marker_row_names(folder, video_id, entries, srcs);
        let cb = claimed_by(entries, srcs);
        let tail = rows.last().segments.map_values(|s: OrphanTakeSegmentView| s.partial_path);
        assert(rows.last() == marker_take(folder, video_id, entries, markers.last()));
        assert(tail =~= segment_files(folder, video_id, cb));
        let ca = claimed_all(entries, init);
        assert(claimed_all(entries, markers) == ca + cb);
        assert(segment_files(folder, video_id, ca + cb) =~= segment_files(folder, video_id, ca)
            + segment_files(folder, video_id, cb));
    }
}

proof fn lemma_synthetic_rows_paths(
    folder: Seq<char>,
    video_id: Seq<char>,
    partials: Seq<(Seq<char>, Seq<char>)>,
    sidecars: Seq<Option<(Seq<char>, SourceRole, Seq<char>)>>,
    k: nat,
)
    requires
        k <= partials.len(),
    ensures
        rows_partial_paths(
            Seq::new(k, |i: int| synthetic_take(folder, video_id, partials[i], sidecars[i])),
        ) == segment_files(
            folder,
            video_id,
            partials.take(k as int).map_values(|p: (Seq<char>, Seq<char>)| p.1),
        ),
    decreases k,
{
    let rows = Seq::new(k, |i: int| synthetic_take(folder, video_id, partials[i], sidecars[i]));
    let names = partials.take(k as int).map_values(|p: (Seq<char>, Seq<char>)| p.1);
    if k == 0 {
        assert(segment_files(folder, video_id, names) =~= Seq::<Seq<char>>::empty());
    } else {
        let j = (k - 1) as nat;
        lemma_synthetic_rows_paths(folder, video_id, partials, sidecars, j);
        assert(rows.drop_last() =~= Seq::new(
            j,
            |i: int| synthetic_take(folder, video_id, partials[i], sidecars[i]),
        ));
        let prev = partials.take(j as int).map_values(|p: (Seq<char>, Seq<char>)| p.1);
        assert(names =~= prev.push(partials[j as int].1));
        let tail = rows.last().segments.map_values(|s: OrphanTakeSegmentView| s.partial_path);
        assert(tail =~= seq![segment_file(folder, video_id, partials[j as int].1)]);
        assert(segment_files(folder, video_id, names) =~= segment_files(folder, video_id, prev)
            + tail);
    }
}

/// Every listed partial file lands in exactly one crashed-Take row of its
/// Video. The rows' segments show, one for one and in order, the paths of
/// the names in `take_partial_names`: the names each marker claims, then
/// the unclaimed partials. When no two listed entries share a name and no
/// partial is claimed by two marker sources, each listed partial file
/// occurs there exactly once, and every name shown is a listed entry.
pub proof fn lemma_each_partial_in_one_row(
    folder: Seq<char>,
    video_id: Seq<char>,
    entries: Seq<(Seq<char>, bool)>,
    markers: Seq<TakeMarkerInfoView>,
    sidecars: Seq<Option<(Seq<char>, SourceRole, Seq<char>)>>,
    n: Seq<char>,
)
    requires
        names_distinct(entries),
        claimed_all(entries, markers).no_duplicates(),
        sidecars.len() == unclaimed_in(entries, claimed_all(entries, markers)).len(),
    ensures
        rows_partial_paths(video_takes(folder, video_id, entries, markers, sidecars))
            == segment_files(folder, video_id, take_partial_names(entries, markers)),
        file_listed(entries, n) && orphan_id_spec(n) is Some ==> count_of(
            take_partial_names(entries, markers),
            n,
        ) == 1,
        forall|j: int|
            0 <= j < take_partial_names(entries, markers).len() ==> entry_named(
                entries,
                #[trigger] take_partial_names(entries, markers)[j],
            ),
{
    lemma_each_partial_in_one_take(entries, markers, n);
    let claimed = claimed_all(entries, markers);
    let partials = unclaimed_in(entries, claimed);
    let mrows = markers.map_values(|m: TakeMarkerInfoView| marker_take(folder, video_id, entries, m));
    let srows = Seq::new(
        partials.len(),
        |i: int| synthetic_take(folder, video_id, partials[i], sidecars[i]),
    );
    assert(video_takes(folder, video_id, entries, markers, sidecars) =~= mrows + srows);
    lemma_rows_partial_paths_concat(mrows, srows);
    lemma_marker_rows_paths(folder, video_id, entries, markers);
    lemma_synthetic_rows_paths(folder, video_id, partials, sidecars, partials.len());
    assert(partials.take(partials.len() as int) =~= partials);
    let un = partials.map_values(|p: (Seq<char>, Seq<char>)| p.1);
    assert(take_partial_names(entries, markers) == claimed + un);
    assert(segment_files(folder, video_id, claimed + un) =~= segment_files(folder, video_id, claimed)
        + segment_files(folder, video_id, un));
}

} // verus!
