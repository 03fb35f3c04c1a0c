//! The Course skeleton held in `course.json`: ordered Modules, the Videos
//! they list, the per-Video workflow state and pinned Scene, and the
//! editable list of workflow states.
//!
//! Every operation here works on a `Course` value in memory and either
//! applies its whole edit or reports an error and leaves the Course
//! untouched, so a caller that reads, edits and writes back never persists a
//! half-applied change.

use vstd::prelude::*;
use crate::error::CoreError;
use crate::course_structure::{
    id_unused, lemma_structure_add_video, lemma_structure_delete_module,
    lemma_structure_delete_video, lemma_structure_move_video, lemma_structure_push_empty_module,
    lemma_move_lists_once, lemma_structure_reorder_modules, lemma_structure_reorder_videos,
    lemma_structure_same_shape, structure_ok, times_listed,
};
use crate::ids::{is_uuid_v4_text, new_id};
use crate::text::{
    contains_str, not_eq_to, same_set, same_set_spec, strs_view, trim, trim_spec, without_str,
};

verus! {

pub const SCHEMA_VERSION: u32 = 1;
pub const COURSE_JSON: &'static str = "course.json";

/// `<folder>/course.json`: the marker that makes a folder a Course Folder.
pub fn course_json_path(folder: &str) -> (r: String)
    ensures
        r@ == crate::paths::join_spec(folder@, "course.json"@),
{
    crate::paths::join_path(folder, COURSE_JSON)
}

#[derive(Debug, Clone, PartialEq, Eq)]
pub struct Module {
    pub id: String,
    pub title: String,
    pub video_ids: Vec<String>,
}

#[derive(Debug, Clone, PartialEq, Eq)]
pub struct Video {
    pub id: String,
    pub title: String,
    pub state_id: Option<String>,
    /// The Scene a Record press on this Video uses by default, if pinned.
    pub default_scene_id: Option<String>,
}

#[derive(Debug, Clone, PartialEq, Eq)]
pub struct WorkflowState {
    pub id: String,
    pub name: String,
}

#[derive(Debug, Clone)]
pub struct Course {
    pub schema_version: u32,
    pub title: String,
    pub workflow_states: Vec<WorkflowState>,
    pub modules: Vec<Module>,
    pub videos: Vec<Video>,
}

pub struct ModuleView {
    pub id: Seq<char>,
    pub title: Seq<char>,
    pub video_ids: Seq<Seq<char>>,
}

pub struct VideoView {
    pub id: Seq<char>,
    pub title: Seq<char>,
    pub state_id: Option<Seq<char>>,
    pub default_scene_id: Option<Seq<char>>,
}

pub struct WorkflowStateView {
    pub id: Seq<char>,
    pub name: Seq<char>,
}

pub struct CourseView {
    pub schema_version: u32,
    pub title: Seq<char>,
    pub workflow_states: Seq<WorkflowStateView>,
    pub modules: Seq<ModuleView>,
    pub videos: Seq<VideoView>,
}

pub open spec fn opt_str_view(o: Option<String>) -> Option<Seq<char>> {
    match o {
        Some(s) => Some(s@),
        None => None,
    }
}

impl View for Module {
    type V = ModuleView;

    open spec fn view(&self) -> ModuleView {
        ModuleView { id: self.id@, title: self.title@, video_ids: strs_view(self.video_ids@) }
    }
}

impl View for Video {
    type V = VideoView;

    open spec fn view(&self) -> VideoView {
        VideoView {
            id: self.id@,
            title: self.title@,
            state_id: opt_str_view(self.state_id),
            default_scene_id: opt_str_view(self.default_scene_id),
        }
    }
}

impl View for WorkflowState {
    type V = WorkflowStateView;

    open spec fn view(&self) -> WorkflowStateView {
        WorkflowStateView { id: self.id@, name: self.name@ }
    }
}

pub open spec fn modules_view(s: Seq<Module>) -> Seq<ModuleView> {
    s.map_values(|m: Module| m@)
}

pub open spec fn videos_view(s: Seq<Video>) -> Seq<VideoView> {
    s.map_values(|v: Video| v@)
}

pub open spec fn states_view(s: Seq<WorkflowState>) -> Seq<WorkflowStateView> {
    s.map_values(|w: WorkflowState| w@)
}

impl View for Course {
    type V = CourseView;

    open spec fn view(&self) -> CourseView {
        CourseView {
            schema_version: self.schema_version,
            title: self.title@,
            workflow_states: states_view(self.workflow_states@),
            modules: modules_view(self.modules@),
            videos: videos_view(self.videos@),
        }
    }
}

// ---------------------------------------------------------------------------
// Looking items up by id.
// ---------------------------------------------------------------------------

/// Position of the first element satisfying `p`, or `-1` if there is none.
pub open spec fn index_of<T>(s: Seq<T>, p: spec_fn(T) -> bool) -> int
    decreases s.len(),
{
    if s.len() == 0 {
        -1
    } else if p(s[0]) {
        0
    } else {
        let r = index_of(s.drop_first(), p);
        if r < 0 {
            -1
        } else {
            r + 1
        }
    }
}

pub proof fn lemma_index_of_at<T>(s: Seq<T>, p: spec_fn(T) -> bool, i: int)
    requires
        0 <= i <= s.len(),
        forall|j: int| 0 <= j < i ==> !p(#[trigger] s[j]),
        i == s.len() || p(s[i]),
    ensures
        index_of(s, p) == if i == s.len() {
            -1
        } else {
            i
        },
    decreases i,
{
    if i > 0 {
        let t = s.drop_first();
        assert(!p(s[0]));
        assert forall|j: int| 0 <= j < i - 1 implies !p(#[trigger] t[j]) by {
            assert(t[j] == s[j + 1]);
        }
        if i < s.len() {
            assert(t[i - 1] == s[i]);
        }
        lemma_index_of_at(t, p, i - 1);
    }
}

pub proof fn lemma_index_of_props<T>(s: Seq<T>, p: spec_fn(T) -> bool)
    ensures
        -1 <= index_of(s, p) < s.len(),
        index_of(s, p) >= 0 ==> p(s[index_of(s, p)]),
        forall|j: int| 0 <= j < index_of(s, p) ==> !p(#[trigger] s[j]),
        index_of(s, p) < 0 ==> forall|j: int| 0 <= j < s.len() ==> !p(#[trigger] s[j]),
    decreases s.len(),
{
    if s.len() > 0 && !p(s[0]) {
        let t = s.drop_first();
        lemma_index_of_props(t, p);
        assert forall|j: int| 0 <= j < index_of(s, p) implies !p(#[trigger] s[j]) by {
            if j > 0 {
                assert(s[j] == t[j - 1]);
            }
        }
        if index_of(s, p) < 0 {
            assert forall|j: int| 0 <= j < s.len() implies !p(#[trigger] s[j]) by {
                if j > 0 {
                    assert(s[j] == t[j - 1]);
                }
            }
        } else {
            assert(s[index_of(s, p)] == t[index_of(t, p)]);
        }
    }
}

pub open spec fn video_pos(vs: Seq<VideoView>, id: Seq<char>) -> int {
    index_of(vs, |v: VideoView| v.id == id)
}

pub open spec fn module_pos(ms: Seq<ModuleView>, id: Seq<char>) -> int {
    index_of(ms, |m: ModuleView| m.id == id)
}

pub open spec fn state_pos(ss: Seq<WorkflowStateView>, id: Seq<char>) -> int {
    index_of(ss, |s: WorkflowStateView| s.id == id)
}

/// Some workflow state of `ss` has the id `id`.
pub open spec fn has_state(ss: Seq<WorkflowStateView>, id: Seq<char>) -> bool {
    exists|k: int| 0 <= k < ss.len() && (#[trigger] ss[k]).id == id
}

/// The Video is in a workflow state of `ss`.
pub open spec fn state_known(ss: Seq<WorkflowStateView>, v: VideoView) -> bool {
    match v.state_id {
        Some(s) => has_state(ss, s),
        None => false,
    }
}

/// The workflow invariant callers rely on: the Course has at least one
/// workflow state, and every Video is in one of its states.
pub open spec fn workflow_ok(c: CourseView) -> bool {
    &&& c.workflow_states.len() > 0
    &&& forall|i: int|
        0 <= i < c.videos.len() ==> state_known(c.workflow_states, #[trigger] c.videos[i])
}

pub proof fn lemma_state_pos_has(ss: Seq<WorkflowStateView>, id: Seq<char>)
    ensures
        (state_pos(ss, id) >= 0) == has_state(ss, id),
{
    lemma_index_of_props(ss, |s: WorkflowStateView| s.id == id);
    if state_pos(ss, id) >= 0 {
        let k = state_pos(ss, id);
        assert(ss[k].id == id);
    }
}

/// A state list that keeps every id of `ss` keeps every Video known.
proof fn lemma_states_cover(c: CourseView, ss2: Seq<WorkflowStateView>)
    requires
        workflow_ok(c),
        ss2.len() > 0,
        forall|id: Seq<char>| has_state(c.workflow_states, id) ==> has_state(ss2, id),
    ensures
        workflow_ok(CourseView { workflow_states: ss2, ..c }),
{
    assert forall|i: int| 0 <= i < c.videos.len() implies state_known(
        ss2,
        #[trigger] c.videos[i],
    ) by {
        assert(state_known(c.workflow_states, c.videos[i]));
    }
}

/// Videos drawn from a Course's own Videos stay known.
proof fn lemma_videos_from(c: CourseView, c2: CourseView)
    requires
        workflow_ok(c),
        c2.workflow_states == c.workflow_states,
        forall|v: VideoView| c2.videos.contains(v) ==> c.videos.contains(v),
    ensures
        workflow_ok(c2),
{
    let vs2 = c2.videos;
    assert forall|i: int| 0 <= i < vs2.len() implies state_known(
        c.workflow_states,
        #[trigger] vs2[i],
    ) by {
        assert(vs2.contains(vs2[i]));
        let j = choose|j: int| 0 <= j < c.videos.len() && c.videos[j] == vs2[i];
        assert(state_known(c.workflow_states, c.videos[j]));
    }
}

/// Laying states out in an order that names every id keeps each id.
proof fn lemma_states_in_order_has(
    order: Seq<Seq<char>>,
    ss: Seq<WorkflowStateView>,
    id: Seq<char>,
)
    requires
        has_state(ss, id),
        order.contains(id),
    ensures
        has_state(states_in_order(order, ss), id),
    decreases order.len(),
{
    let k = choose|k: int| 0 <= k < ss.len() && (#[trigger] ss[k]).id == id;
    let rest = states_in_order(order.drop_last(), ss);
    let f = ss.filter(state_has_id(order.last()));
    assert(states_in_order(order, ss) == rest + f);
    if order.last() == id {
        ss.lemma_filter_contains(state_has_id(id), k);
        let j = choose|j: int| 0 <= j < f.len() && f[j] == ss[k];
        assert((rest + f)[rest.len() + j] == ss[k]);
    } else {
        let i = choose|i: int| 0 <= i < order.len() && order[i] == id;
        assert(order.drop_last()[i] == id);
        lemma_states_in_order_has(order.drop_last(), ss, id);
        let j = choose|j: int| 0 <= j < rest.len() && (#[trigger] rest[j]).id == id;
        assert((rest + f)[j] == rest[j]);
    }
}

/// `r` reports the position `p` (`None` when `p` is negative).
pub open spec fn found_at(r: Option<usize>, p: int) -> bool {
    match r {
        Some(i) => p == i,
        None => p < 0,
    }
}

fn find_video(videos: &Vec<Video>, id: &String) -> (r: Option<usize>)
    ensures
        found_at(r, video_pos(videos_view(videos@), id@)),
{
    let ghost vs = videos_view(videos@);
    let ghost p = |v: VideoView| v.id == id@;
    let mut i: usize = 0;
    while i < videos.len()
        invariant
            i <= videos.len(),
            vs == videos_view(videos@),
            p == (|v: VideoView| v.id == id@),
            forall|j: int| 0 <= j < i ==> !p(#[trigger] vs[j]),
        decreases videos.len() - i,
    {
        if videos[i].id == *id {
            proof {
                lemma_index_of_at(vs, p, i as int);
            }
            return Some(i);
        }
        i = i + 1;
    }
    proof {
        lemma_index_of_at(vs, p, i as int);
    }
    None
}

fn find_module(modules: &Vec<Module>, id: &String) -> (r: Option<usize>)
    ensures
        found_at(r, module_pos(modules_view(modules@), id@)),
{
    let ghost ms = modules_view(modules@);
    let ghost p = |m: ModuleView| m.id == id@;
    let mut i: usize = 0;
    while i < modules.len()
        invariant
            i <= modules.len(),
            ms == modules_view(modules@),
            p == (|m: ModuleView| m.id == id@),
            forall|j: int| 0 <= j < i ==> !p(#[trigger] ms[j]),
        decreases modules.len() - i,
    {
        if modules[i].id == *id {
            proof {
                lemma_index_of_at(ms, p, i as int);
            }
            return Some(i);
        }
        i = i + 1;
    }
    proof {
        lemma_index_of_at(ms, p, i as int);
    }
    None
}

fn find_state(states: &Vec<WorkflowState>, id: &String) -> (r: Option<usize>)
    ensures
        found_at(r, state_pos(states_view(states@), id@)),
{
    let ghost ss = states_view(states@);
    let ghost p = |s: WorkflowStateView| s.id == id@;
    let mut i: usize = 0;
    while i < states.len()
        invariant
            i <= states.len(),
            ss == states_view(states@),
            p == (|s: WorkflowStateView| s.id == id@),
            forall|j: int| 0 <= j < i ==> !p(#[trigger] ss[j]),
        decreases states.len() - i,
    {
        if states[i].id == *id {
            proof {
                lemma_index_of_at(ss, p, i as int);
            }
            return Some(i);
        }
        i = i + 1;
    }
    proof {
        lemma_index_of_at(ss, p, i as int);
    }
    None
}

// ---------------------------------------------------------------------------
// Copies whose views are provably equal to the original.
// ---------------------------------------------------------------------------

fn copy_opt_str(o: &Option<String>) -> (r: Option<String>)
    ensures
        opt_str_view(r) == opt_str_view(*o),
{
    match o {
        Some(s) => Some(s.clone()),
        None => None,
    }
}

impl Video {
    pub fn duplicate(&self) -> (r: Video)
        ensures
            r@ == self@,
    {
        Video {
            id: self.id.clone(),
            title: self.title.clone(),
            state_id: copy_opt_str(&self.state_id),
            default_scene_id: copy_opt_str(&self.default_scene_id),
        }
    }
}

impl Module {
    pub fn duplicate(&self) -> (r: Module)
        ensures
            r@ == self@,
    {
        let ids = self.video_ids.clone();
        assert(strs_view(ids@) =~= strs_view(self.video_ids@));
        Module { id: self.id.clone(), title: self.title.clone(), video_ids: ids }
    }
}

impl WorkflowState {
    pub fn duplicate(&self) -> (r: WorkflowState)
        ensures
            r@ == self@,
    {
        WorkflowState { id: self.id.clone(), name: self.name.clone() }
    }
}

// ---------------------------------------------------------------------------
// Construction.
// ---------------------------------------------------------------------------

/// The default workflow of a brand-new Course, as `(id, name)` pairs.
pub open spec fn default_states_spec() -> Seq<WorkflowStateView> {
    seq![
        WorkflowStateView { id: "needs-recording"@, name: "Needs Recording"@ },
        WorkflowStateView { id: "needs-editing"@, name: "Needs Editing"@ },
        WorkflowStateView { id: "needs-intro"@, name: "Needs Intro"@ },
        WorkflowStateView { id: "needs-uploading"@, name: "Needs Uploading"@ },
        WorkflowStateView { id: "done"@, name: "Done"@ },
    ]
}

fn state_of(id: &str, name: &str) -> (s: WorkflowState)
    ensures
        s@ == (WorkflowStateView { id: id@, name: name@ }),
{
    WorkflowState { id: id.to_owned(), name: name.to_owned() }
}

/// The canonical default workflow: Needs Recording, Needs Editing, Needs
/// Intro, Needs Uploading, Done.
pub fn default_workflow_states() -> (v: Vec<WorkflowState>)
    ensures
        states_view(v@) == default_states_spec(),
{
    let mut v: Vec<WorkflowState> = Vec::new();
    v.push(state_of("needs-recording", "Needs Recording"));
    v.push(state_of("needs-editing", "Needs Editing"));
    v.push(state_of("needs-intro", "Needs Intro"));
    v.push(state_of("needs-uploading", "Needs Uploading"));
    v.push(state_of("done", "Done"));
    assert(states_view(v@) =~= default_states_spec());
    v
}

impl Course {
    /// A new, empty Course with the default workflow.
    pub fn new(title: String) -> (c: Course)
        ensures
            c@ == (CourseView {
                schema_version: SCHEMA_VERSION,
                title: title@,
                workflow_states: default_states_spec(),
                modules: Seq::empty(),
                videos: Seq::empty(),
            }),
            workflow_ok(c@),
            structure_ok(c@),
    {
        let c = Course {
            schema_version: SCHEMA_VERSION,
            title,
            workflow_states: default_workflow_states(),
            modules: Vec::new(),
            videos: Vec::new(),
        };
        assert(c@.modules =~= Seq::<ModuleView>::empty());
        assert(c@.videos =~= Seq::<VideoView>::empty());
        c
    }
}

/// A Course title must hold more than whitespace.
pub fn check_course_title(title: &str) -> (r: Result<(), CoreError>)
    ensures
        trim_spec(title@).len() == 0 ==> r == Err::<(), CoreError>(CoreError::EmptyTitle),
        trim_spec(title@).len() > 0 ==> r is Ok,
{
    let t = trim(title);
    if t.as_str().is_empty() {
        return Err(CoreError::EmptyTitle);
    }
    Ok(())
}

/// Retitles the Course; the new title is kept as given (not trimmed) but
/// must hold more than whitespace.
pub fn rename_course_title(course: &mut Course, new_title: &str) -> (r: Result<(), CoreError>)
    ensures
        trim_spec(new_title@).len() == 0 ==> r == Err::<(), CoreError>(CoreError::EmptyTitle)
            && final(course)@ == old(course)@,
        trim_spec(new_title@).len() > 0 ==> r is Ok && final(course)@ == (CourseView {
            title: new_title@,
            ..old(course)@
        }),
        workflow_ok(old(course)@) ==> workflow_ok(final(course)@),
        structure_ok(old(course)@) ==> structure_ok(final(course)@),
{
    check_course_title(new_title)?;
    course.title = new_title.to_owned();
    Ok(())
}

// ---------------------------------------------------------------------------
// Modules.
// ---------------------------------------------------------------------------

/// Appends a new, empty Module with the given id and the trimmed title.
pub fn add_module_with_id(course: &mut Course, id: String, title: &str) -> (r: Result<
    Module,
    CoreError,
>)
    ensures
        trim_spec(title@).len() == 0 ==> r == Err::<Module, CoreError>(CoreError::EmptyTitle)
            && final(course)@ == old(course)@,
        trim_spec(title@).len() > 0 ==> (r matches Ok(m) && m@ == (ModuleView {
            id: id@,
            title: trim_spec(title@),
            video_ids: Seq::empty(),
        }) && final(course)@ == (CourseView {
            modules: old(course)@.modules.push(m@),
            ..old(course)@
        })),
        workflow_ok(old(course)@) ==> workflow_ok(final(course)@),
        structure_ok(old(course)@) ==> structure_ok(final(course)@),
{
    let t = trim(title);
    if t.as_str().is_empty() {
        return Err(CoreError::EmptyTitle);
    }
    let module = Module { id, title: t, video_ids: Vec::new() };
    assert(module@.video_ids =~= Seq::<Seq<char>>::empty());
    let added = module.duplicate();
    course.modules.push(module);
    assert(final(course)@.modules =~= old(course)@.modules.push(added@));
    proof {
        if structure_ok(old(course)@) {
            lemma_structure_push_empty_module(old(course)@, added@);
        }
    }
    Ok(added)
}

/// Appends a new, empty Module with a new random id and the trimmed title.
pub fn add_module(course: &mut Course, title: &str) -> (r: Result<Module, CoreError>)
    ensures
        trim_spec(title@).len() == 0 ==> r == Err::<Module, CoreError>(CoreError::EmptyTitle)
            && final(course)@ == old(course)@,
        trim_spec(title@).len() > 0 ==> (r matches Ok(m) && is_uuid_v4_text(m@.id) && m@.title
            == trim_spec(title@) && m@.video_ids == Seq::<Seq<char>>::empty() && final(course)@
            == (CourseView { modules: old(course)@.modules.push(m@), ..old(course)@ })),
        workflow_ok(old(course)@) ==> workflow_ok(final(course)@),
        structure_ok(old(course)@) ==> structure_ok(final(course)@),
{
    let id = new_id();
    add_module_with_id(course, id, title)
}

/// Renames the first Module with the given id to the trimmed title.
pub fn rename_module(course: &mut Course, module_id: &str, new_title: &str) -> (r: Result<
    (),
    CoreError,
>)
    ensures
        trim_spec(new_title@).len() == 0 ==> r == Err::<(), CoreError>(CoreError::EmptyTitle),
        trim_spec(new_title@).len() > 0 && module_pos(old(course)@.modules, module_id@) < 0 ==> (
        r matches Err(CoreError::ModuleNotFound(s)) && s@ == module_id@),
        r is Err ==> final(course)@ == old(course)@,
        trim_spec(new_title@).len() > 0 && module_pos(old(course)@.modules, module_id@) >= 0 ==> ({
            let i = module_pos(old(course)@.modules, module_id@);
            &&& r is Ok
            &&& final(course)@ == (CourseView {
                modules: old(course)@.modules.update(
                    i,
                    ModuleView { title: trim_spec(new_title@), ..old(course)@.modules[i] },
                ),
                ..old(course)@
            })
        }),
        workflow_ok(old(course)@) ==> workflow_ok(final(course)@),
        structure_ok(old(course)@) ==> structure_ok(final(course)@),
{
    let t = trim(new_title);
    if t.as_str().is_empty() {
        return Err(CoreError::EmptyTitle);
    }
    let key = module_id.to_owned();
    match find_module(&course.modules, &key) {
        None => Err(CoreError::ModuleNotFound(key)),
        Some(i) => {
            proof {
                lemma_index_of_props(old(course)@.modules, |m: ModuleView| m.id == module_id@);
            }
            course.modules[i].title = t;
            assert(final(course)@.modules =~= old(course)@.modules.update(
                i as int,
                ModuleView { title: trim_spec(new_title@), ..old(course)@.modules[i as int] },
            ));
            proof {
                if structure_ok(old(course)@) {
                    lemma_structure_same_shape(old(course)@, course@);
                }
            }
            Ok(())
        },
    }
}

/// Renames the first Video with the given id to the trimmed title.
pub fn rename_video(course: &mut Course, video_id: &str, new_title: &str) -> (r: Result<
    (),
    CoreError,
>)
    ensures
        trim_spec(new_title@).len() == 0 ==> r == Err::<(), CoreError>(CoreError::EmptyTitle),
        trim_spec(new_title@).len() > 0 && video_pos(old(course)@.videos, video_id@) < 0 ==> (
        r matches Err(CoreError::VideoNotFound(s)) && s@ == video_id@),
        r is Err ==> final(course)@ == old(course)@,
        trim_spec(new_title@).len() > 0 && video_pos(old(course)@.videos, video_id@) >= 0 ==> ({
            let i = video_pos(old(course)@.videos, video_id@);
            &&& r is Ok
            &&& final(course)@ == (CourseView {
                videos: old(course)@.videos.update(
                    i,
                    VideoView { title: trim_spec(new_title@), ..old(course)@.videos[i] },
                ),
                ..old(course)@
            })
        }),
        workflow_ok(old(course)@) ==> workflow_ok(final(course)@),
        structure_ok(old(course)@) ==> structure_ok(final(course)@),
{
    let t = trim(new_title);
    if t.as_str().is_empty() {
        return Err(CoreError::EmptyTitle);
    }
    let key = video_id.to_owned();
    match find_video(&course.videos, &key) {
        None => Err(CoreError::VideoNotFound(key)),
        Some(i) => {
            proof {
                lemma_index_of_props(old(course)@.videos, |v: VideoView| v.id == video_id@);
            }
            course.videos[i].title = t;
            assert(final(course)@.videos =~= old(course)@.videos.update(
                i as int,
                VideoView { title: trim_spec(new_title@), ..old(course)@.videos[i as int] },
            ));
            proof {
                if structure_ok(old(course)@) {
                    lemma_structure_same_shape(old(course)@, course@);
                }
            }
            Ok(())
        },
    }
}

// ---------------------------------------------------------------------------
// Workflow states.
// ---------------------------------------------------------------------------

/// Appends a workflow state with the given id and the trimmed name.
pub fn add_workflow_state_with_id(course: &mut Course, id: String, name: &str) -> (r: Result<
    WorkflowState,
    CoreError,
>)
    ensures
        trim_spec(name@).len() == 0 ==> r == Err::<WorkflowState, CoreError>(CoreError::EmptyTitle)
            && final(course)@ == old(course)@,
        trim_spec(name@).len() > 0 ==> (r matches Ok(s) && s@ == (WorkflowStateView {
            id: id@,
            name: trim_spec(name@),
        }) && final(course)@ == (CourseView {
            workflow_states: old(course)@.workflow_states.push(s@),
            ..old(course)@
        })),
        workflow_ok(old(course)@) ==> workflow_ok(final(course)@),
        structure_ok(old(course)@) ==> structure_ok(final(course)@),
{
    let t = trim(name);
    if t.as_str().is_empty() {
        return Err(CoreError::EmptyTitle);
    }
    let state = WorkflowState { id, name: t };
    let added = state.duplicate();
    course.workflow_states.push(state);
    assert(final(course)@.workflow_states =~= old(course)@.workflow_states.push(added@));
    proof {
        let ss = old(course)@.workflow_states;
        if workflow_ok(old(course)@) {
            assert forall|x: Seq<char>| has_state(ss, x) implies has_state(ss.push(added@), x) by {
                let k = choose|k: int| 0 <= k < ss.len() && (#[trigger] ss[k]).id == x;
                assert(ss.push(added@)[k] == ss[k]);
            }
            lemma_states_cover(old(course)@, ss.push(added@));
        }
    }
    Ok(added)
}

/// Appends a workflow state with a new random id and the trimmed name.
pub fn add_workflow_state(course: &mut Course, name: &str) -> (r: Result<
    WorkflowState,
    CoreError,
>)
    ensures
        trim_spec(name@).len() == 0 ==> r == Err::<WorkflowState, CoreError>(CoreError::EmptyTitle)
            && final(course)@ == old(course)@,
        trim_spec(name@).len() > 0 ==> (r matches Ok(s) && is_uuid_v4_text(s@.id) && s@.name
            == trim_spec(name@) && final(course)@ == (CourseView {
            workflow_states: old(course)@.workflow_states.push(s@),
            ..old(course)@
        })),
        workflow_ok(old(course)@) ==> workflow_ok(final(course)@),
        structure_ok(old(course)@) ==> structure_ok(final(course)@),
{
    let id = new_id();
    add_workflow_state_with_id(course, id, name)
}

/// Renames the first workflow state with the given id to the trimmed name.
pub fn rename_workflow_state(course: &mut Course, state_id: &str, new_name: &str) -> (r: Result<
    (),
    CoreError,
>)
    ensures
        trim_spec(new_name@).len() == 0 ==> r == Err::<(), CoreError>(CoreError::EmptyTitle),
        trim_spec(new_name@).len() > 0 && state_pos(old(course)@.workflow_states, state_id@) < 0
            ==> (r matches Err(CoreError::WorkflowStateNotFound(s)) && s@ == state_id@),
        r is Err ==> final(course)@ == old(course)@,
        trim_spec(new_name@).len() > 0 && state_pos(old(course)@.workflow_states, state_id@) >= 0
            ==> ({
            let i = state_pos(old(course)@.workflow_states, state_id@);
            &&& r is Ok
            &&& final(course)@ == (CourseView {
                workflow_states: old(course)@.workflow_states.update(
                    i,
                    WorkflowStateView {
                        name: trim_spec(new_name@),
                        ..old(course)@.workflow_states[i]
                    },
                ),
                ..old(course)@
            })
        }),
        workflow_ok(old(course)@) ==> workflow_ok(final(course)@),
        structure_ok(old(course)@) ==> structure_ok(final(course)@),
{
    let t = trim(new_name);
    if t.as_str().is_empty() {
        return Err(CoreError::EmptyTitle);
    }
    let key = state_id.to_owned();
    match find_state(&course.workflow_states, &key) {
        None => Err(CoreError::WorkflowStateNotFound(key)),
        Some(i) => {
            proof {
                lemma_index_of_props(
                    old(course)@.workflow_states,
                    |s: WorkflowStateView| s.id == state_id@,
                );
            }
            course.workflow_states[i].name = t;
            let ghost ss2 = old(course)@.workflow_states.update(
                i as int,
                WorkflowStateView {
                    name: trim_spec(new_name@),
                    ..old(course)@.workflow_states[i as int]
                },
            );
            assert(final(course)@.workflow_states =~= ss2);
            proof {
                let ss = old(course)@.workflow_states;
                if workflow_ok(old(course)@) {
                    assert forall|x: Seq<char>| has_state(ss, x) implies has_state(ss2, x) by {
                        let k = choose|k: int| 0 <= k < ss.len() && (#[trigger] ss[k]).id == x;
                        assert(ss2[k].id == ss[k].id);
                    }
                    lemma_states_cover(old(course)@, ss2);
                }
            }
            Ok(())
        },
    }
}

/// Moves the first Video with the given id into the given workflow state.
pub fn set_video_state(course: &mut Course, video_id: &str, state_id: &str) -> (r: Result<
    (),
    CoreError,
>)
    ensures
        state_pos(old(course)@.workflow_states, state_id@) < 0 ==> (r matches Err(
            CoreError::WorkflowStateNotFound(s),
        ) && s@ == state_id@),
        state_pos(old(course)@.workflow_states, state_id@) >= 0 && video_pos(
            old(course)@.videos,
            video_id@,
        ) < 0 ==> (r matches Err(CoreError::VideoNotFound(s)) && s@ == video_id@),
        r is Err ==> final(course)@ == old(course)@,
        state_pos(old(course)@.workflow_states, state_id@) >= 0 && video_pos(
            old(course)@.videos,
            video_id@,
        ) >= 0 ==> ({
            let i = video_pos(old(course)@.videos, video_id@);
            &&& r is Ok
            &&& final(course)@ == (CourseView {
                videos: old(course)@.videos.update(
                    i,
                    VideoView { state_id: Some(state_id@), ..old(course)@.videos[i] },
                ),
                ..old(course)@
            })
        }),
        workflow_ok(old(course)@) ==> workflow_ok(final(course)@),
        structure_ok(old(course)@) ==> structure_ok(final(course)@),
{
    let skey = state_id.to_owned();
    if find_state(&course.workflow_states, &skey).is_none() {
        return Err(CoreError::WorkflowStateNotFound(skey));
    }
    let key = video_id.to_owned();
    match find_video(&course.videos, &key) {
        None => Err(CoreError::VideoNotFound(key)),
        Some(i) => {
            proof {
                lemma_index_of_props(old(course)@.videos, |v: VideoView| v.id == video_id@);
            }
            course.videos[i].state_id = Some(skey);
            assert(final(course)@.videos =~= old(course)@.videos.update(
                i as int,
                VideoView { state_id: Some(state_id@), ..old(course)@.videos[i as int] },
            ));
            proof {
                lemma_state_pos_has(old(course)@.workflow_states, state_id@);
                if workflow_ok(old(course)@) {
                    let c = old(course)@;
                    assert forall|j: int| 0 <= j < c.videos.len() implies state_known(
                        c.workflow_states,
                        #[trigger] final(course)@.videos[j],
                    ) by {
                        if j != i {
                            assert(state_known(c.workflow_states, c.videos[j]));
                        }
                    }
                }
            }
            proof {
                if structure_ok(old(course)@) {
                    lemma_structure_same_shape(old(course)@, course@);
                }
            }
            Ok(())
        },
    }
}

/// The pin a `pin_default_scene` request asks for: an empty id clears it.
pub open spec fn requested_pin(scene_id: Option<String>) -> Option<Seq<char>> {
    match scene_id {
        Some(s) => if s@.len() == 0 {
            None
        } else {
            Some(s@)
        },
        None => None,
    }
}

/// Pins (or, with `None` or an empty id, unpins) the default Scene of the
/// first Video with the given id. The Scene id is not checked against the
/// Course's Scenes.
pub fn pin_default_scene(course: &mut Course, video_id: &str, scene_id: Option<String>) -> (r:
    Result<(), CoreError>)
    ensures
        video_pos(old(course)@.videos, video_id@) < 0 ==> (r matches Err(
            CoreError::VideoNotFound(s),
        ) && s@ == video_id@ && final(course)@ == old(course)@),
        video_pos(old(course)@.videos, video_id@) >= 0 ==> ({
            let i = video_pos(old(course)@.videos, video_id@);
            &&& r is Ok
            &&& final(course)@ == (CourseView {
                videos: old(course)@.videos.update(
                    i,
                    VideoView { default_scene_id: requested_pin(scene_id), ..old(course)@.videos[i] },
                ),
                ..old(course)@
            })
        }),
        workflow_ok(old(course)@) ==> workflow_ok(final(course)@),
        structure_ok(old(course)@) ==> structure_ok(final(course)@),
{
    let pin = match scene_id {
        Some(s) => if s.as_str().is_empty() {
            None
        } else {
            Some(s)
        },
        None => None,
    };
    let key = video_id.to_owned();
    match find_video(&course.videos, &key) {
        None => Err(CoreError::VideoNotFound(key)),
        Some(i) => {
            proof {
                lemma_index_of_props(old(course)@.videos, |v: VideoView| v.id == video_id@);
            }
            course.videos[i].default_scene_id = pin;
            assert(final(course)@.videos =~= old(course)@.videos.update(
                i as int,
                VideoView { default_scene_id: requested_pin(scene_id), ..old(course)@.videos[i as int] },
            ));
            proof {
                if structure_ok(old(course)@) {
                    lemma_structure_same_shape(old(course)@, course@);
                }
            }
            Ok(())
        },
    }
}

// ---------------------------------------------------------------------------
// Videos.
// ---------------------------------------------------------------------------

/// The workflow state a new Video starts in: the first state, if any.
pub open spec fn initial_state(c: CourseView) -> Option<Seq<char>> {
    if c.workflow_states.len() > 0 {
        Some(c.workflow_states[0].id)
    } else {
        None
    }
}

/// Creates a Video with the given id and trimmed title, in the Course's first
/// workflow state, and appends it to the first Module with the given id.
pub fn add_video_with_id(course: &mut Course, id: String, module_id: &str, title: &str) -> (r:
    Result<Video, CoreError>)
    ensures
        trim_spec(title@).len() == 0 ==> r == Err::<Video, CoreError>(CoreError::EmptyTitle),
        trim_spec(title@).len() > 0 && module_pos(old(course)@.modules, module_id@) < 0 ==> (
        r matches Err(CoreError::ModuleNotFound(s)) && s@ == module_id@),
        r is Err ==> final(course)@ == old(course)@,
        trim_spec(title@).len() > 0 && module_pos(old(course)@.modules, module_id@) >= 0 ==> ({
            let i = module_pos(old(course)@.modules, module_id@);
            let m = old(course)@.modules[i];
            &&& r matches Ok(v) && v@ == (VideoView {
                id: id@,
                title: trim_spec(title@),
                state_id: initial_state(old(course)@),
                default_scene_id: None,
            })
            &&& final(course)@ == (CourseView {
                modules: old(course)@.modules.update(
                    i,
                    ModuleView { video_ids: m.video_ids.push(id@), ..m },
                ),
                videos: old(course)@.videos.push(r->Ok_0@),
                ..old(course)@
            })
        }),
        workflow_ok(old(course)@) ==> workflow_ok(final(course)@),
        structure_ok(old(course)@) && id_unused(old(course)@, id@) ==> structure_ok(final(course)@),
{
    let t = trim(title);
    if t.as_str().is_empty() {
        return Err(CoreError::EmptyTitle);
    }
    let key = module_id.to_owned();
    match find_module(&course.modules, &key) {
        None => Err(CoreError::ModuleNotFound(key)),
        Some(i) => {
            proof {
                lemma_index_of_props(old(course)@.modules, |m: ModuleView| m.id == module_id@);
            }
            let initial = if course.workflow_states.len() > 0 {
                Some(course.workflow_states[0].id.clone())
            } else {
                None
            };
            let video = Video { id, title: t, state_id: initial, default_scene_id: None };
            let added = video.duplicate();
            course.modules[i].video_ids.push(video.id.clone());
            course.videos.push(video);
            let ghost m = old(course)@.modules[i as int];
            assert(final(course)@.modules[i as int].video_ids =~= m.video_ids.push(id@));
            assert(final(course)@.modules =~= old(course)@.modules.update(
                i as int,
                ModuleView { video_ids: m.video_ids.push(id@), ..m },
            ));
            assert(final(course)@.videos =~= old(course)@.videos.push(added@));
            proof {
                if structure_ok(old(course)@) && id_unused(old(course)@, id@) {
                    lemma_structure_add_video(old(course)@, i as int, added@);
                }
            }
            Ok(added)
        },
    }
}

/// Creates a Video with a new random id in the first Module with the given
/// id. The id is not compared with those in use; the structure invariant is
/// kept when it is unused, as a random UUID is.
pub fn add_video(course: &mut Course, module_id: &str, title: &str) -> (r: Result<
    Video,
    CoreError,
>)
    ensures
        trim_spec(title@).len() == 0 ==> r == Err::<Video, CoreError>(CoreError::EmptyTitle),
        trim_spec(title@).len() > 0 && module_pos(old(course)@.modules, module_id@) < 0 ==> (
        r matches Err(CoreError::ModuleNotFound(s)) && s@ == module_id@),
        r is Err ==> final(course)@ == old(course)@,
        trim_spec(title@).len() > 0 && module_pos(old(course)@.modules, module_id@) >= 0 ==> ({
            let i = module_pos(old(course)@.modules, module_id@);
            let m = old(course)@.modules[i];
            &&& r matches Ok(v) && is_uuid_v4_text(v@.id) && v@.title == trim_spec(title@)
                && v@.state_id == initial_state(old(course)@) && v@.default_scene_id is None
            &&& final(course)@ == (CourseView {
                modules: old(course)@.modules.update(
                    i,
                    ModuleView { video_ids: m.video_ids.push(r->Ok_0@.id), ..m },
                ),
                videos: old(course)@.videos.push(r->Ok_0@),
                ..old(course)@
            })
        }),
        workflow_ok(old(course)@) ==> workflow_ok(final(course)@),
        (structure_ok(old(course)@) && (r matches Ok(v) ==> id_unused(old(course)@, v@.id)))
            ==> structure_ok(final(course)@),
{
    let id = new_id();
    add_video_with_id(course, id, module_id, title)
}

/// Every Module with the given Video id taken out of its list.
pub open spec fn strip_video(ms: Seq<ModuleView>, id: Seq<char>) -> Seq<ModuleView> {
    ms.map_values(|m: ModuleView| ModuleView { video_ids: m.video_ids.filter(not_eq_to(id)), ..m })
}

fn strip_video_from_modules(modules: &Vec<Module>, id: &String) -> (r: Vec<Module>)
    ensures
        modules_view(r@) == strip_video(modules_view(modules@), id@),
{
    let mut out: Vec<Module> = Vec::new();
    let mut i: usize = 0;
    while i < modules.len()
        invariant
            i <= modules.len(),
            modules_view(out@) == strip_video(modules_view(modules@.take(i as int)), id@),
        decreases modules.len() - i,
    {
        let m = &modules[i];
        let stripped = Module { id: m.id.clone(), title: m.title.clone(), video_ids: without_str(&m.video_ids, id) };
        let ghost prev = out@;
        out.push(stripped);
        assert(modules_view(out@) =~= modules_view(prev).push(stripped@));
        assert(modules_view(modules@.take(i + 1)) =~= modules_view(modules@.take(i as int)).push(m@));
        assert(strip_video(modules_view(modules@.take(i + 1)), id@) =~= strip_video(
            modules_view(modules@.take(i as int)),
            id@,
        ).push(stripped@));
        i = i + 1;
    }
    assert(modules@.take(modules.len() as int) =~= modules@);
    out
}

/// Deletes the first Video with the given id and removes every reference to
/// its id from the Modules.
pub fn delete_video(course: &mut Course, video_id: &str) -> (r: Result<(), CoreError>)
    ensures
        video_pos(old(course)@.videos, video_id@) < 0 ==> (r matches Err(
            CoreError::VideoNotFound(s),
        ) && s@ == video_id@ && final(course)@ == old(course)@),
        video_pos(old(course)@.videos, video_id@) >= 0 ==> r is Ok && final(course)@ == (
        CourseView {
            videos: old(course)@.videos.remove(video_pos(old(course)@.videos, video_id@)),
            modules: strip_video(old(course)@.modules, video_id@),
            ..old(course)@
        }),
        workflow_ok(old(course)@) ==> workflow_ok(final(course)@),
        structure_ok(old(course)@) ==> structure_ok(final(course)@),
{
    let key = video_id.to_owned();
    match find_video(&course.videos, &key) {
        None => Err(CoreError::VideoNotFound(key)),
        Some(i) => {
            proof {
                lemma_index_of_props(old(course)@.videos, |v: VideoView| v.id == video_id@);
            }
            course.videos.remove(i);
            let stripped = strip_video_from_modules(&course.modules, &key);
            course.modules = stripped;
            assert(final(course)@.videos =~= old(course)@.videos.remove(i as int));
            proof {
                if structure_ok(old(course)@) {
                    lemma_structure_delete_video(old(course)@, i as int);
                }
            }
            Ok(())
        },
    }
}

/// Where a moved Video lands in the target Module: the requested index,
/// clamped to the end of the list.
pub open spec fn clamp_index(index: usize, len: nat) -> int {
    if index < len {
        index as int
    } else {
        len as int
    }
}

/// The Modules after moving a Video: taken out of every list, then inserted
/// into the target Module's list at the clamped index.
pub open spec fn moved_modules(ms: Seq<ModuleView>, id: Seq<char>, t: int, index: usize) -> Seq<
    ModuleView,
> {
    let s = strip_video(ms, id);
    s.update(
        t,
        ModuleView {
            video_ids: s[t].video_ids.insert(clamp_index(index, s[t].video_ids.len()), id),
            ..s[t]
        },
    )
}

/// Moves a Video to a (possibly different) Module at the given position.
/// Only the Modules' lists change; the Videos themselves are untouched.
pub fn move_video_to_module(
    course: &mut Course,
    video_id: &str,
    target_module_id: &str,
    index: usize,
) -> (r: Result<(), CoreError>)
    ensures
        video_pos(old(course)@.videos, video_id@) < 0 ==> (r matches Err(
            CoreError::VideoNotFound(s),
        ) && s@ == video_id@),
        video_pos(old(course)@.videos, video_id@) >= 0 && module_pos(
            old(course)@.modules,
            target_module_id@,
        ) < 0 ==> (r matches Err(CoreError::ModuleNotFound(s)) && s@ == target_module_id@),
        r is Err ==> final(course)@ == old(course)@,
        video_pos(old(course)@.videos, video_id@) >= 0 && module_pos(
            old(course)@.modules,
            target_module_id@,
        ) >= 0 ==> r is Ok && final(course)@ == (CourseView {
            modules: moved_modules(
                old(course)@.modules,
                video_id@,
                module_pos(old(course)@.modules, target_module_id@),
                index,
            ),
            ..old(course)@
        }),
        r is Ok ==> times_listed(final(course)@.modules, video_id@) == 1,
        workflow_ok(old(course)@) ==> workflow_ok(final(course)@),
        structure_ok(old(course)@) ==> structure_ok(final(course)@),
{
    let key = video_id.to_owned();
    if find_video(&course.videos, &key).is_none() {
        return Err(CoreError::VideoNotFound(key));
    }
    let target = target_module_id.to_owned();
    let t = match find_module(&course.modules, &target) {
        None => {
            return Err(CoreError::ModuleNotFound(target));
        },
        Some(t) => t,
    };
    proof {
        lemma_index_of_props(old(course)@.modules, |m: ModuleView| m.id == target_module_id@);
    }
    let mut stripped = strip_video_from_modules(&course.modules, &key);
    let ghost s = modules_view(stripped@);
    assert(s.len() == stripped@.len());
    assert(s.len() == old(course)@.modules.len());
    let len = stripped[t].video_ids.len();
    let at = if index < len {
        index
    } else {
        len
    };
    stripped[t].video_ids.insert(at, key);
    assert(modules_view(stripped@)[t as int].video_ids =~= s[t as int].video_ids.insert(
        at as int,
        video_id@,
    ));
    assert(modules_view(stripped@) =~= moved_modules(
        old(course)@.modules,
        video_id@,
        t as int,
        index,
    ));
    course.modules = stripped;
    proof {
        lemma_move_lists_once(old(course)@.modules, video_id@, t as int, index);
        if structure_ok(old(course)@) {
            let p = video_pos(old(course)@.videos, video_id@);
            lemma_index_of_props(old(course)@.videos, |v: VideoView| v.id == video_id@);
            assert(old(course)@.videos[p].id == video_id@);
            lemma_structure_move_video(old(course)@, video_id@, t as int, index);
        }
    }
    Ok(())
}

/// Keeps the Videos whose id is not among `ids`.
pub open spec fn video_not_in(ids: Seq<Seq<char>>) -> spec_fn(VideoView) -> bool {
    |v: VideoView| !ids.contains(v.id)
}

/// Deletes the first Module with the given id together with every Video its
/// list names.
pub fn delete_module(course: &mut Course, module_id: &str) -> (r: Result<(), CoreError>)
    ensures
        module_pos(old(course)@.modules, module_id@) < 0 ==> (r matches Err(
            CoreError::ModuleNotFound(s),
        ) && s@ == module_id@ && final(course)@ == old(course)@),
        module_pos(old(course)@.modules, module_id@) >= 0 ==> ({
            let i = module_pos(old(course)@.modules, module_id@);
            &&& r is Ok
            &&& final(course)@ == (CourseView {
                modules: old(course)@.modules.remove(i),
                videos: old(course)@.videos.filter(
                    video_not_in(old(course)@.modules[i].video_ids),
                ),
                ..old(course)@
            })
        }),
        workflow_ok(old(course)@) ==> workflow_ok(final(course)@),
        structure_ok(old(course)@) ==> structure_ok(final(course)@),
{
    let key = module_id.to_owned();
    match find_module(&course.modules, &key) {
        None => Err(CoreError::ModuleNotFound(key)),
        Some(i) => {
            proof {
                lemma_index_of_props(old(course)@.modules, |m: ModuleView| m.id == module_id@);
            }
            let removed = course.modules.remove(i);
            let ghost doomed = removed@.video_ids;
            let ghost vs = videos_view(course.videos@);
            let mut kept: Vec<Video> = Vec::new();
            let mut j: usize = 0;
            while j < course.videos.len()
                invariant
                    j <= course.videos.len(),
                    vs == videos_view(course.videos@),
                    doomed == removed@.video_ids,
                    videos_view(kept@) == vs.take(j as int).filter(video_not_in(doomed)),
                decreases course.videos.len() - j,
            {
                proof {
                    assert(vs.take(j + 1) =~= vs.take(j as int).push(vs[j as int]));
                    vs.take(j as int).lemma_filter_push(vs[j as int], video_not_in(doomed));
                }
                if !contains_str(&removed.video_ids, &course.videos[j].id) {
                    let v = course.videos[j].duplicate();
                    let ghost prev = kept@;
                    kept.push(v);
                    assert(videos_view(kept@) =~= videos_view(prev).push(vs[j as int]));
                }
                j = j + 1;
            }
            assert(vs.take(vs.len() as int) =~= vs);
            course.videos = kept;
            assert(final(course)@.modules =~= old(course)@.modules.remove(i as int));
            proof {
                let c = old(course)@;
                if workflow_ok(c) {
                    let vs2 = c.videos.filter(video_not_in(doomed));
                    assert forall|v: VideoView| vs2.contains(v) implies c.videos.contains(v) by {
                        c.videos.lemma_filter_contains_rev(video_not_in(doomed), v);
                    }
                    lemma_videos_from(c, final(course)@);
                }
            }
            proof {
                if structure_ok(old(course)@) {
                    lemma_structure_delete_module(old(course)@, i as int);
                }
            }
            Ok(())
        },
    }
}

// ---------------------------------------------------------------------------
// Reordering.
// ---------------------------------------------------------------------------

/// Replaces the Video order of the first Module with the given id. The new
/// order must name exactly the Module's distinct Video ids.
pub fn reorder_videos_in_module(course: &mut Course, module_id: &str, ordered_ids: &Vec<String>) -> (r:
    Result<(), CoreError>)
    ensures
        module_pos(old(course)@.modules, module_id@) < 0 ==> (r matches Err(
            CoreError::ModuleNotFound(s),
        ) && s@ == module_id@),
        module_pos(old(course)@.modules, module_id@) >= 0 && !same_set_spec(
            strs_view(ordered_ids@),
            old(course)@.modules[module_pos(old(course)@.modules, module_id@)].video_ids,
        ) ==> r == Err::<(), CoreError>(CoreError::ReorderMismatch),
        r is Err ==> final(course)@ == old(course)@,
        module_pos(old(course)@.modules, module_id@) >= 0 && same_set_spec(
            strs_view(ordered_ids@),
            old(course)@.modules[module_pos(old(course)@.modules, module_id@)].video_ids,
        ) ==> ({
            let i = module_pos(old(course)@.modules, module_id@);
            &&& r is Ok
            &&& final(course)@ == (CourseView {
                modules: old(course)@.modules.update(
                    i,
                    ModuleView { video_ids: strs_view(ordered_ids@), ..old(course)@.modules[i] },
                ),
                ..old(course)@
            })
        }),
        workflow_ok(old(course)@) ==> workflow_ok(final(course)@),
        structure_ok(old(course)@) ==> structure_ok(final(course)@),
{
    let key = module_id.to_owned();
    match find_module(&course.modules, &key) {
        None => Err(CoreError::ModuleNotFound(key)),
        Some(i) => {
            proof {
                lemma_index_of_props(old(course)@.modules, |m: ModuleView| m.id == module_id@);
            }
            if !same_set(ordered_ids, &course.modules[i].video_ids) {
                return Err(CoreError::ReorderMismatch);
            }
            let ids = ordered_ids.clone();
            assert(strs_view(ids@) =~= strs_view(ordered_ids@));
            course.modules[i].video_ids = ids;
            assert(final(course)@.modules =~= old(course)@.modules.update(
                i as int,
                ModuleView {
                    video_ids: strs_view(ordered_ids@),
                    ..old(course)@.modules[i as int]
                },
            ));
            proof {
                if structure_ok(old(course)@) {
                    lemma_structure_reorder_videos(old(course)@, i as int, strs_view(ordered_ids@));
                }
            }
            Ok(())
        },
    }
}

pub open spec fn module_has_id(id: Seq<char>) -> spec_fn(ModuleView) -> bool {
    |m: ModuleView| m.id == id
}

pub open spec fn state_has_id(id: Seq<char>) -> spec_fn(WorkflowStateView) -> bool {
    |s: WorkflowStateView| s.id == id
}

/// Modules laid out in the order of `order`: for each id in turn, the
/// Modules with that id, in their original relative order.
pub open spec fn modules_in_order(order: Seq<Seq<char>>, ms: Seq<ModuleView>) -> Seq<ModuleView>
    decreases order.len(),
{
    if order.len() == 0 {
        Seq::empty()
    } else {
        modules_in_order(order.drop_last(), ms) + ms.filter(module_has_id(order.last()))
    }
}

/// Workflow states laid out in the order of `order`, as for Modules.
pub open spec fn states_in_order(order: Seq<Seq<char>>, ss: Seq<WorkflowStateView>) -> Seq<
    WorkflowStateView,
>
    decreases order.len(),
{
    if order.len() == 0 {
        Seq::empty()
    } else {
        states_in_order(order.drop_last(), ss) + ss.filter(state_has_id(order.last()))
    }
}

fn module_ids(modules: &Vec<Module>) -> (r: Vec<String>)
    ensures
        strs_view(r@) == modules_view(modules@).map_values(|m: ModuleView| m.id),
{
    let mut out: Vec<String> = Vec::new();
    let mut i: usize = 0;
    while i < modules.len()
        invariant
            i <= modules.len(),
            strs_view(out@) == modules_view(modules@.take(i as int)).map_values(
                |m: ModuleView| m.id,
            ),
        decreases modules.len() - i,
    {
        let ghost prev = out@;
        out.push(modules[i].id.clone());
        assert(strs_view(out@) =~= strs_view(prev).push(modules@[i as int].id@));
        assert(modules_view(modules@.take(i + 1)).map_values(|m: ModuleView| m.id) =~= modules_view(
            modules@.take(i as int),
        ).map_values(|m: ModuleView| m.id).push(modules@[i as int].id@));
        i = i + 1;
    }
    assert(modules@.take(modules.len() as int) =~= modules@);
    out
}

fn state_ids(states: &Vec<WorkflowState>) -> (r: Vec<String>)
    ensures
        strs_view(r@) == states_view(states@).map_values(|s: WorkflowStateView| s.id),
{
    let mut out: Vec<String> = Vec::new();
    let mut i: usize = 0;
    while i < states.len()
        invariant
            i <= states.len(),
            strs_view(out@) == states_view(states@.take(i as int)).map_values(
                |s: WorkflowStateView| s.id,
            ),
        decreases states.len() - i,
    {
        let ghost prev = out@;
        out.push(states[i].id.clone());
        assert(strs_view(out@) =~= strs_view(prev).push(states@[i as int].id@));
        assert(states_view(states@.take(i + 1)).map_values(|s: WorkflowStateView| s.id)
            =~= states_view(states@.take(i as int)).map_values(|s: WorkflowStateView| s.id).push(
            states@[i as int].id@,
        ));
        i = i + 1;
    }
    assert(states@.take(states.len() as int) =~= states@);
    out
}

fn arrange_modules(order: &Vec<String>, modules: &Vec<Module>) -> (r: Vec<Module>)
    ensures
        modules_view(r@) == modules_in_order(strs_view(order@), modules_view(modules@)),
{
    let ghost ms = modules_view(modules@);
    let mut out: Vec<Module> = Vec::new();
    let mut k: usize = 0;
    while k < order.len()
        invariant
            k <= order.len(),
            ms == modules_view(modules@),
            modules_view(out@) == modules_in_order(strs_view(order@.take(k as int)), ms),
        decreases order.len() - k,
    {
        let ghost base = modules_view(out@);
        let ghost id = order@[k as int]@;
        let mut j: usize = 0;
        while j < modules.len()
            invariant
                j <= modules.len(),
                k < order.len(),
                id == order@[k as int]@,
                ms == modules_view(modules@),
                modules_view(out@) == base + ms.take(j as int).filter(module_has_id(id)),
            decreases modules.len() - j,
        {
            proof {
                assert(ms.take(j + 1) =~= ms.take(j as int).push(ms[j as int]));
                ms.take(j as int).lemma_filter_push(ms[j as int], module_has_id(id));
            }
            if modules[j].id == order[k] {
                let ghost prev = out@;
                out.push(modules[j].duplicate());
                assert(modules_view(out@) =~= modules_view(prev).push(ms[j as int]));
            }
            j = j + 1;
        }
        assert(ms.take(ms.len() as int) =~= ms);
        assert(strs_view(order@.take(k + 1)).drop_last() =~= strs_view(order@.take(k as int)));
        assert(strs_view(order@.take(k + 1)).last() == id);
        k = k + 1;
    }
    assert(order@.take(order.len() as int) =~= order@);
    out
}

fn arrange_states(order: &Vec<String>, states: &Vec<WorkflowState>) -> (r: Vec<WorkflowState>)
    ensures
        states_view(r@) == states_in_order(strs_view(order@), states_view(states@)),
{
    let ghost ss = states_view(states@);
    let mut out: Vec<WorkflowState> = Vec::new();
    let mut k: usize = 0;
    while k < order.len()
        invariant
            k <= order.len(),
            ss == states_view(states@),
            states_view(out@) == states_in_order(strs_view(order@.take(k as int)), ss),
        decreases order.len() - k,
    {
        let ghost base = states_view(out@);
        let ghost id = order@[k as int]@;
        let mut j: usize = 0;
        while j < states.len()
            invariant
                j <= states.len(),
                k < order.len(),
                id == order@[k as int]@,
                ss == states_view(states@),
                states_view(out@) == base + ss.take(j as int).filter(state_has_id(id)),
            decreases states.len() - j,
        {
            proof {
                assert(ss.take(j + 1) =~= ss.take(j as int).push(ss[j as int]));
                ss.take(j as int).lemma_filter_push(ss[j as int], state_has_id(id));
            }
            if states[j].id == order[k] {
                let ghost prev = out@;
                out.push(states[j].duplicate());
                assert(states_view(out@) =~= states_view(prev).push(ss[j as int]));
            }
            j = j + 1;
        }
        assert(ss.take(ss.len() as int) =~= ss);
        assert(strs_view(order@.take(k + 1)).drop_last() =~= strs_view(order@.take(k as int)));
        assert(strs_view(order@.take(k + 1)).last() == id);
        k = k + 1;
    }
    assert(order@.take(order.len() as int) =~= order@);
    out
}

/// Puts the Modules in the order of `ordered_ids`, which must name exactly
/// the Course's distinct Module ids.
pub fn reorder_modules(course: &mut Course, ordered_ids: &Vec<String>) -> (r: Result<
    (),
    CoreError,
>)
    ensures
        !same_set_spec(
            strs_view(ordered_ids@),
            old(course)@.modules.map_values(|m: ModuleView| m.id),
        ) ==> r == Err::<(), CoreError>(CoreError::ReorderMismatch) && final(course)@ == old(
            course,
        )@,
        same_set_spec(
            strs_view(ordered_ids@),
            old(course)@.modules.map_values(|m: ModuleView| m.id),
        ) ==> r is Ok && final(course)@ == (CourseView {
            modules: modules_in_order(strs_view(ordered_ids@), old(course)@.modules),
            ..old(course)@
        }),
        workflow_ok(old(course)@) ==> workflow_ok(final(course)@),
        structure_ok(old(course)@) ==> structure_ok(final(course)@),
{
    let ids = module_ids(&course.modules);
    if !same_set(ordered_ids, &ids) {
        return Err(CoreError::ReorderMismatch);
    }
    let arranged = arrange_modules(ordered_ids, &course.modules);
    course.modules = arranged;
    proof {
        if structure_ok(old(course)@) {
            lemma_structure_reorder_modules(old(course)@, strs_view(ordered_ids@));
        }
    }
    Ok(())
}

/// Puts the workflow states in the order of `ordered_ids`, which must name
/// exactly the Course's distinct state ids.
pub fn reorder_workflow_states(course: &mut Course, ordered_ids: &Vec<String>) -> (r: Result<
    (),
    CoreError,
>)
    ensures
        !same_set_spec(
            strs_view(ordered_ids@),
            old(course)@.workflow_states.map_values(|s: WorkflowStateView| s.id),
        ) ==> r == Err::<(), CoreError>(CoreError::ReorderMismatch) && final(course)@ == old(
            course,
        )@,
        same_set_spec(
            strs_view(ordered_ids@),
            old(course)@.workflow_states.map_values(|s: WorkflowStateView| s.id),
        ) ==> r is Ok && final(course)@ == (CourseView {
            workflow_states: states_in_order(
                strs_view(ordered_ids@),
                old(course)@.workflow_states,
            ),
            ..old(course)@
        }),
        workflow_ok(old(course)@) ==> workflow_ok(final(course)@),
        structure_ok(old(course)@) ==> structure_ok(final(course)@),
{
    let ids = state_ids(&course.workflow_states);
    if !same_set(ordered_ids, &ids) {
        return Err(CoreError::ReorderMismatch);
    }
    let arranged = arrange_states(ordered_ids, &course.workflow_states);
    course.workflow_states = arranged;
    proof {
        let c = old(course)@;
        let ss = c.workflow_states;
        let order = strs_view(ordered_ids@);
        let ss2 = states_in_order(order, ss);
        let idseq = ss.map_values(|s: WorkflowStateView| s.id);
        if workflow_ok(c) {
            assert forall|x: Seq<char>| has_state(ss, x) implies has_state(ss2, x) by {
                let k = choose|k: int| 0 <= k < ss.len() && (#[trigger] ss[k]).id == x;
                assert(idseq[k] == x);
                assert(idseq.to_set().contains(x));
                assert(order.to_set().contains(x));
                lemma_states_in_order_has(order, ss, x);
            }
            assert(has_state(ss, ss[0].id));
            lemma_states_cover(c, ss2);
        }
    }
    Ok(())
}

// ---------------------------------------------------------------------------
// Workflow invariants.
// ---------------------------------------------------------------------------

/// A Video in state `from` moves to state `to`; other Videos are unchanged.
pub open spec fn migrate_state(from: Seq<char>, to: Seq<char>) -> spec_fn(VideoView) -> VideoView {
    |v: VideoView|
        if v.state_id == Some(from) {
            VideoView { state_id: Some(to), ..v }
        } else {
            v
        }
}

/// Removing a workflow state keeps every other state and only those: what
/// is left holds no state with the removed id, holds only states that were
/// there before, and holds every earlier state with another id.
pub proof fn lemma_remove_state_keeps_the_others(ss: Seq<WorkflowStateView>, id: Seq<char>)
    ensures
        forall|i: int|
            0 <= i < ss.filter(state_id_not(id)).len() ==> (#[trigger] ss.filter(
                state_id_not(id),
            )[i]).id != id && ss.contains(ss.filter(state_id_not(id))[i]),
        forall|i: int|
            0 <= i < ss.len() && ss[i].id != id ==> ss.filter(state_id_not(id)).contains(
                #[trigger] ss[i],
            ),
{
    broadcast use vstd::seq_lib::group_filter_ensures;

    let f = ss.filter(state_id_not(id));
    assert forall|i: int| 0 <= i < f.len() implies (#[trigger] f[i]).id != id && ss.contains(f[i]) by {
        assert(f.contains(f[i]));
        ss.lemma_filter_contains_rev(state_id_not(id), f[i]);
    }
    assert forall|i: int| 0 <= i < ss.len() && ss[i].id != id implies f.contains(#[trigger] ss[i]) by {
        ss.lemma_filter_contains(state_id_not(id), i);
    }
}

/// Moving the Videos of one state to another touches only the Videos in
/// that state: each of them changes its state to `to` and nothing else, and
/// every other Video (in another state, or in none) is left exactly as it
/// was.
pub proof fn lemma_migrate_moves_only_that_state(vs: Seq<VideoView>, from: Seq<char>, to: Seq<char>)
    ensures
        vs.map_values(migrate_state(from, to)).len() == vs.len(),
        forall|i: int|
            0 <= i < vs.len() && vs[i].state_id != Some(from) ==> #[trigger] vs.map_values(
                migrate_state(from, to),
            )[i] == vs[i],
        forall|i: int|
            0 <= i < vs.len() && vs[i].state_id == Some(from) ==> #[trigger] vs.map_values(
                migrate_state(from, to),
            )[i] == (VideoView { state_id: Some(to), ..vs[i] }),
{
}

pub open spec fn state_id_not(id: Seq<char>) -> spec_fn(WorkflowStateView) -> bool {
    |s: WorkflowStateView| s.id != id
}

/// Removes a workflow state, moving the Videos in it to `fallback_state_id`,
/// which must name a different existing state. The last remaining state
/// cannot be removed.
pub fn remove_workflow_state(course: &mut Course, state_id: &str, fallback_state_id: &str) -> (r:
    Result<(), CoreError>)
    ensures
        old(course)@.workflow_states.len() <= 1 ==> r == Err::<(), CoreError>(
            CoreError::OnlyWorkflowStateLeft,
        ),
        old(course)@.workflow_states.len() > 1 && state_pos(old(course)@.workflow_states, state_id@)
            < 0 ==> (r matches Err(CoreError::WorkflowStateNotFound(s)) && s@ == state_id@),
        old(course)@.workflow_states.len() > 1 && state_pos(old(course)@.workflow_states, state_id@)
            >= 0 && (fallback_state_id@ == state_id@ || state_pos(
            old(course)@.workflow_states,
            fallback_state_id@,
        ) < 0) ==> (r matches Err(CoreError::WorkflowStateNotFound(s)) && s@
            == fallback_state_id@),
        r is Err ==> final(course)@ == old(course)@,
        old(course)@.workflow_states.len() > 1 && state_pos(old(course)@.workflow_states, state_id@)
            >= 0 && fallback_state_id@ != state_id@ && state_pos(
            old(course)@.workflow_states,
            fallback_state_id@,
        ) >= 0 ==> r is Ok && final(course)@ == (CourseView {
            workflow_states: old(course)@.workflow_states.filter(state_id_not(state_id@)),
            videos: old(course)@.videos.map_values(migrate_state(state_id@, fallback_state_id@)),
            ..old(course)@
        }),
        r is Ok ==> forall|i: int|
            0 <= i < final(course)@.workflow_states.len() ==> (
            #[trigger] final(course)@.workflow_states[i]).id != state_id@ && old(course)@.workflow_states.contains(
                final(course)@.workflow_states[i],
            ),
        r is Ok ==> forall|i: int|
            0 <= i < old(course)@.workflow_states.len() && old(course)@.workflow_states[i].id
                != state_id@ ==> final(course)@.workflow_states.contains(
                #[trigger] old(course)@.workflow_states[i],
            ),
        r is Ok ==> final(course)@.videos.len() == old(course)@.videos.len(),
        r is Ok ==> forall|i: int|
            0 <= i < old(course)@.videos.len() && old(course)@.videos[i].state_id != Some(
                state_id@,
            ) ==> #[trigger] final(course)@.videos[i] == old(course)@.videos[i],
        r is Ok ==> forall|i: int|
            0 <= i < old(course)@.videos.len() && old(course)@.videos[i].state_id == Some(
                state_id@,
            ) ==> #[trigger] final(course)@.videos[i] == (VideoView {
                state_id: Some(fallback_state_id@),
                ..old(course)@.videos[i]
            }),
        workflow_ok(old(course)@) ==> workflow_ok(final(course)@),
        structure_ok(old(course)@) ==> structure_ok(final(course)@),
{
    proof {
        lemma_migrate_moves_only_that_state(old(course)@.videos, state_id@, fallback_state_id@);
        lemma_remove_state_keeps_the_others(old(course)@.workflow_states, state_id@);
    }
    if course.workflow_states.len() <= 1 {
        return Err(CoreError::OnlyWorkflowStateLeft);
    }
    let key = state_id.to_owned();
    if find_state(&course.workflow_states, &key).is_none() {
        return Err(CoreError::WorkflowStateNotFound(key));
    }
    let fallback = fallback_state_id.to_owned();
    if fallback == key || find_state(&course.workflow_states, &fallback).is_none() {
        return Err(CoreError::WorkflowStateNotFound(fallback));
    }
    let ghost vs = videos_view(course.videos@);
    let mut videos: Vec<Video> = Vec::new();
    let mut j: usize = 0;
    while j < course.videos.len()
        invariant
            j <= course.videos.len(),
            vs == videos_view(course.videos@),
            videos_view(videos@) == vs.take(j as int).map_values(
                migrate_state(state_id@, fallback_state_id@),
            ),
            key@ == state_id@,
            fallback@ == fallback_state_id@,
        decreases course.videos.len() - j,
    {
        let mut v = course.videos[j].duplicate();
        let in_state = match &v.state_id {
            Some(s) => *s == key,
            None => false,
        };
        if in_state {
            v.state_id = Some(fallback.clone());
        }
        let ghost prev = videos@;
        videos.push(v);
        assert(videos_view(videos@) =~= videos_view(prev).push(
            migrate_state(state_id@, fallback_state_id@)(vs[j as int]),
        ));
        assert(vs.take(j + 1).map_values(migrate_state(state_id@, fallback_state_id@))
            =~= vs.take(j as int).map_values(migrate_state(state_id@, fallback_state_id@)).push(
            migrate_state(state_id@, fallback_state_id@)(vs[j as int]),
        ));
        j = j + 1;
    }
    assert(vs.take(vs.len() as int) =~= vs);
    let ghost ss = states_view(course.workflow_states@);
    let mut states: Vec<WorkflowState> = Vec::new();
    let mut k: usize = 0;
    while k < course.workflow_states.len()
        invariant
            k <= course.workflow_states.len(),
            ss == states_view(course.workflow_states@),
            states_view(states@) == ss.take(k as int).filter(state_id_not(state_id@)),
            key@ == state_id@,
        decreases course.workflow_states.len() - k,
    {
        proof {
            assert(ss.take(k + 1) =~= ss.take(k as int).push(ss[k as int]));
            ss.take(k as int).lemma_filter_push(ss[k as int], state_id_not(state_id@));
        }
        if course.workflow_states[k].id != key {
            let ghost prev = states@;
            states.push(course.workflow_states[k].duplicate());
            assert(states_view(states@) =~= states_view(prev).push(ss[k as int]));
        }
        k = k + 1;
    }
    assert(ss.take(ss.len() as int) =~= ss);
    course.videos = videos;
    course.workflow_states = states;
    proof {
        let c = old(course)@;
        let ss2 = ss.filter(state_id_not(state_id@));
        let m = migrate_state(state_id@, fallback_state_id@);
        if workflow_ok(c) {
            lemma_state_pos_has(ss, fallback_state_id@);
            let kf = choose|k: int| 0 <= k < ss.len() && (#[trigger] ss[k]).id == fallback_state_id@;
            ss.lemma_filter_contains(state_id_not(state_id@), kf);
            assert forall|x: Seq<char>| has_state(ss, x) && x != state_id@ implies has_state(ss2, x) by {
                let k = choose|k: int| 0 <= k < ss.len() && (#[trigger] ss[k]).id == x;
                ss.lemma_filter_contains(state_id_not(state_id@), k);
                let j = choose|j: int| 0 <= j < ss2.len() && ss2[j] == ss[k];
                assert(ss2[j].id == x);
            }
            assert(has_state(ss2, fallback_state_id@));
            assert forall|i: int| 0 <= i < vs.len() implies state_known(
                ss2,
                #[trigger] vs.map_values(m)[i],
            ) by {
                assert(state_known(ss, vs[i]));
            }
        }
    }
    proof {
        if structure_ok(old(course)@) {
            lemma_structure_same_shape(old(course)@, course@);
        }
    }
    Ok(())
}

/// The workflow states after normalisation: the defaults when there are none.
pub open spec fn normalized_states(c: CourseView) -> Seq<WorkflowStateView> {
    if c.workflow_states.len() == 0 {
        default_states_spec()
    } else {
        c.workflow_states
    }
}

/// A Video whose state is missing or unknown among `ss` lands in `first`.
pub open spec fn settle_video(ss: Seq<WorkflowStateView>, first: Seq<char>) -> spec_fn(
    VideoView,
) -> VideoView {
    |v: VideoView|
        match v.state_id {
            Some(s) => if state_pos(ss, s) >= 0 {
                v
            } else {
                VideoView { state_id: Some(first), ..v }
            },
            None => VideoView { state_id: Some(first), ..v },
        }
}

/// Normalises a Course read from disk: a Course without workflow states gets
/// the defaults, and every Video whose state is missing or unknown moves to
/// the first state.
pub fn ensure_workflow_invariants(course: &mut Course)
    ensures
        final(course)@ == (CourseView {
            workflow_states: normalized_states(old(course)@),
            videos: old(course)@.videos.map_values(
                settle_video(
                    normalized_states(old(course)@),
                    normalized_states(old(course)@)[0].id,
                ),
            ),
            ..old(course)@
        }),
        workflow_ok(final(course)@),
        structure_ok(old(course)@) ==> structure_ok(final(course)@),
{
    if course.workflow_states.len() == 0 {
        course.workflow_states = default_workflow_states();
        assert(default_states_spec().len() == 5);
    }
    let ghost ss = states_view(course.workflow_states@);
    assert(ss == normalized_states(old(course)@));
    assert(ss.len() == course.workflow_states@.len());
    assert(course.workflow_states@.len() > 0);
    let first_id = course.workflow_states[0].id.clone();
    let ghost f = settle_video(ss, first_id@);
    let ghost vs = videos_view(course.videos@);
    let mut videos: Vec<Video> = Vec::new();
    let mut j: usize = 0;
    while j < course.videos.len()
        invariant
            j <= course.videos.len(),
            vs == videos_view(course.videos@),
            ss == states_view(course.workflow_states@),
            f == settle_video(ss, first_id@),
            videos_view(videos@) == vs.take(j as int).map_values(f),
        decreases course.videos.len() - j,
    {
        let mut v = course.videos[j].duplicate();
        let ok = match &v.state_id {
            Some(s) => find_state(&course.workflow_states, s).is_some(),
            None => false,
        };
        if !ok {
            v.state_id = Some(first_id.clone());
        }
        let ghost prev = videos@;
        videos.push(v);
        assert(videos_view(videos@) =~= videos_view(prev).push(f(vs[j as int])));
        assert(vs.take(j + 1).map_values(f) =~= vs.take(j as int).map_values(f).push(
            f(vs[j as int]),
        ));
        j = j + 1;
    }
    assert(vs.take(vs.len() as int) =~= vs);
    assert(first_id@ == ss[0].id);
    course.videos = videos;
    proof {
        assert(has_state(ss, ss[0].id));
        assert forall|i: int| 0 <= i < vs.len() implies state_known(
            ss,
            #[trigger] vs.map_values(f)[i],
        ) by {
            match vs[i].state_id {
                Some(st) => {
                    lemma_state_pos_has(ss, st);
                },
                None => {},
            }
        }
        if structure_ok(old(course)@) {
            lemma_structure_same_shape(old(course)@, course@);
        }
    }
}

/// Against distinct existing ids, a list `ordered` passes the reorder check
/// exactly when it is a permutation of them: it holds each existing id
/// exactly as many times as `existing` does (equal multisets), or, put
/// another way, it is as long, has no repeats and names the same ids.
pub proof fn lemma_reorder_check_is_permutation(ordered: Seq<Seq<char>>, existing: Seq<Seq<char>>)
    requires
        existing.no_duplicates(),
    ensures
        same_set_spec(ordered, existing) <==> ordered.to_multiset() == existing.to_multiset(),
        same_set_spec(ordered, existing) <==> (ordered.no_duplicates() && ordered.len()
            == existing.len() && ordered.to_set() == existing.to_set()),
{
    broadcast use vstd::seq_lib::group_to_multiset_ensures;

    existing.unique_seq_to_set();
    existing.lemma_multiset_has_no_duplicates();
    if same_set_spec(ordered, existing) {
        ordered.lemma_no_dup_set_cardinality();
        ordered.lemma_multiset_has_no_duplicates();
        assert forall|x: Seq<char>|
            ordered.to_multiset().count(x) == existing.to_multiset().count(
                x,
            ) by {
            assert(ordered.contains(x) <==> ordered.to_set().contains(x));
            assert(existing.contains(x) <==> existing.to_set().contains(x));
        }
        assert(ordered.to_multiset() =~= existing.to_multiset());
    }
    if ordered.to_multiset() == existing.to_multiset() {
        assert forall|x: Seq<char>| ordered.to_multiset().contains(x) implies ordered.to_multiset().count(x) == 1 by {}
        ordered.lemma_multiset_has_no_duplicates_conv();
        assert forall|x: Seq<char>| ordered.to_set().contains(x) <==> existing.to_set().contains(x) by {
            assert(ordered.contains(x) <==> ordered.to_multiset().count(x) > 0);
            assert(existing.contains(x) <==> existing.to_multiset().count(x) > 0);
        }
        assert(ordered.to_set() =~= existing.to_set());
        assert(ordered.len() == ordered.to_multiset().len());
    }
}

proof fn lemma_filter_none<A>(s: Seq<A>, p: spec_fn(A) -> bool)
    requires
        forall|i: int| 0 <= i < s.len() ==> !p(#[trigger] s[i]),
    ensures
        s.filter(p) == Seq::<A>::empty(),
    decreases s.len(),
{
    if s.len() > 0 {
        let r = s.drop_last();
        assert(r.push(s.last()) =~= s);
        r.lemma_filter_push(s.last(), p);
        assert forall|i: int| 0 <= i < r.len() implies !p(#[trigger] r[i]) by {
            assert(r[i] == s[i]);
        }
        lemma_filter_none(r, p);
    } else {
        assert(s.filter(p) =~= Seq::<A>::empty()) by {
            reveal(Seq::filter);
        }
    }
}

proof fn lemma_filter_unique<A>(s: Seq<A>, p: spec_fn(A) -> bool, k: int)
    requires
        0 <= k < s.len(),
        p(s[k]),
        forall|i: int| 0 <= i < s.len() && i != k ==> !p(#[trigger] s[i]),
    ensures
        s.filter(p) == seq![s[k]],
    decreases s.len(),
{
    let r = s.drop_last();
    assert(r.push(s.last()) =~= s);
    r.lemma_filter_push(s.last(), p);
    if k == s.len() - 1 {
        assert forall|i: int| 0 <= i < r.len() implies !p(#[trigger] r[i]) by {
            assert(r[i] == s[i]);
        }
        lemma_filter_none(r, p);
        assert(Seq::<A>::empty().push(s.last()) =~= seq![s[k]]);
    } else {
        assert forall|i: int| 0 <= i < r.len() && i != k implies !p(#[trigger] r[i]) by {
            assert(r[i] == s[i]);
        }
        assert(r[k] == s[k]);
        lemma_filter_unique(r, p, k);
    }
}

/// After a Module reorder that passed the check on a Course whose Module
/// ids are distinct, the Module ids read exactly as the order given.
pub proof fn lemma_modules_in_order_ids(order: Seq<Seq<char>>, ms: Seq<ModuleView>)
    requires
        ms.map_values(|m: ModuleView| m.id).no_duplicates(),
        forall|i: int| 0 <= i < order.len() ==> ms.map_values(|m: ModuleView| m.id).contains(
            #[trigger] order[i],
        ),
    ensures
        modules_in_order(order, ms).map_values(|m: ModuleView| m.id) == order,
    decreases order.len(),
{
    let ids = ms.map_values(|m: ModuleView| m.id);
    if order.len() == 0 {
        assert(modules_in_order(order, ms).map_values(|m: ModuleView| m.id) =~= order);
    } else {
        let o = order.drop_last();
        assert forall|i: int| 0 <= i < o.len() implies ids.contains(#[trigger] o[i]) by {
            assert(o[i] == order[i]);
        }
        lemma_modules_in_order_ids(o, ms);
        let x = order.last();
        assert(ids.contains(order[order.len() - 1]));
        let k = choose|k: int| 0 <= k < ids.len() && ids[k] == x;
        assert forall|i: int| 0 <= i < ms.len() && i != k implies !module_has_id(x)(#[trigger] ms[i]) by {
            assert(ids[i] == ms[i].id);
        }
        lemma_filter_unique(ms, module_has_id(x), k);
        let prev = modules_in_order(o, ms);
        assert(modules_in_order(order, ms) == prev + seq![ms[k]]);
        assert(modules_in_order(order, ms).map_values(|m: ModuleView| m.id) =~= prev.map_values(
            |m: ModuleView| m.id,
        ).push(x));
        assert(o.push(x) =~= order);
    }
}

/// After a workflow-state reorder that passed the check on a Course whose
/// state ids are distinct, the state ids read exactly as the order given,
/// each state keeping its name.
pub proof fn lemma_states_in_order_ids(order: Seq<Seq<char>>, ss: Seq<WorkflowStateView>)
    requires
        ss.map_values(|s: WorkflowStateView| s.id).no_duplicates(),
        forall|i: int| 0 <= i < order.len() ==> ss.map_values(|s: WorkflowStateView| s.id).contains(
            #[trigger] order[i],
        ),
    ensures
        states_in_order(order, ss).map_values(|s: WorkflowStateView| s.id) == order,
        forall|i: int| 0 <= i < order.len() ==> ss.contains(#[trigger] states_in_order(order, ss)[i]),
    decreases order.len(),
{
    let ids = ss.map_values(|s: WorkflowStateView| s.id);
    if order.len() == 0 {
        assert(states_in_order(order, ss).map_values(|s: WorkflowStateView| s.id) =~= order);
    } else {
        let o = order.drop_last();
        assert forall|i: int| 0 <= i < o.len() implies ids.contains(#[trigger] o[i]) by {
            assert(o[i] == order[i]);
        }
        lemma_states_in_order_ids(o, ss);
        let x = order.last();
        assert(ids.contains(order[order.len() - 1]));
        let k = choose|k: int| 0 <= k < ids.len() && ids[k] == x;
        assert forall|i: int| 0 <= i < ss.len() && i != k implies !state_has_id(x)(#[trigger] ss[i]) by {
            assert(ids[i] == ss[i].id);
        }
        lemma_filter_unique(ss, state_has_id(x), k);
        let prev = states_in_order(o, ss);
        let r = states_in_order(order, ss);
        assert(r == prev + seq![ss[k]]);
        assert(r.map_values(|s: WorkflowStateView| s.id) =~= prev.map_values(
            |s: WorkflowStateView| s.id,
        ).push(x));
        assert(o.push(x) =~= order);
        assert forall|i: int| 0 <= i < order.len() implies ss.contains(#[trigger] r[i]) by {
            if i < o.len() {
                assert(r[i] == prev[i]);
            } else {
                assert(r[i] == ss[k]);
            }
        }
    }
}

/// Reordering Modules with an order that passed the check, on a Course
/// whose Module ids are distinct, leaves the Module ids exactly in that
/// order; likewise for workflow states.
pub proof fn lemma_reorder_follows_the_order(
    ordered: Seq<Seq<char>>,
    ms: Seq<ModuleView>,
    ss: Seq<WorkflowStateView>,
)
    ensures
        ms.map_values(|m: ModuleView| m.id).no_duplicates() && same_set_spec(
            ordered,
            ms.map_values(|m: ModuleView| m.id),
        ) ==> modules_in_order(ordered, ms).map_values(|m: ModuleView| m.id) == ordered,
        ss.map_values(|s: WorkflowStateView| s.id).no_duplicates() && same_set_spec(
            ordered,
            ss.map_values(|s: WorkflowStateView| s.id),
        ) ==> states_in_order(ordered, ss).map_values(|s: WorkflowStateView| s.id) == ordered,
{
    let mids = ms.map_values(|m: ModuleView| m.id);
    let sids = ss.map_values(|s: WorkflowStateView| s.id);
    if mids.no_duplicates() && same_set_spec(ordered, mids) {
        assert forall|i: int| 0 <= i < ordered.len() implies mids.contains(#[trigger] ordered[i]) by {
            assert(ordered.to_set().contains(ordered[i]));
            assert(mids.to_set().contains(ordered[i]));
        }
        lemma_modules_in_order_ids(ordered, ms);
    }
    if sids.no_duplicates() && same_set_spec(ordered, sids) {
        assert forall|i: int| 0 <= i < ordered.len() implies sids.contains(#[trigger] ordered[i]) by {
            assert(ordered.to_set().contains(ordered[i]));
            assert(sids.to_set().contains(ordered[i]));
        }
        lemma_states_in_order_ids(ordered, ss);
    }
}

} // verus!
