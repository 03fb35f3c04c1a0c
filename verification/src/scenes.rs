//! Scenes: named, reusable Capture presets stored next to `course.json`.
//! A Scene is an ordered list of sources, each a Source Role bound to a
//! device with its composition defaults `D`.
//!
//! Every operation works on the in-memory `ScenesFile` and either applies
//! its whole edit or reports an error and leaves the file untouched.

use vstd::prelude::*;
use crate::capture::{Device, DeviceView, SourceRole};
use crate::course::{index_of, lemma_index_of_at, lemma_index_of_props, found_at};
use crate::error::CoreError;
use crate::ids::{is_uuid_v4_text, new_id};
use crate::text::{trim, trim_spec};

verus! {

pub const SCENES_SCHEMA_VERSION: u32 = 1;
pub const SCENES_JSON: &'static str = "scenes.json";

/// `<folder>/scenes.json`, beside `course.json`.
pub fn scenes_path(folder: &str) -> (r: String)
    ensures
        r@ == crate::paths::join_spec(folder@, "scenes.json"@),
{
    crate::paths::join_path(folder, SCENES_JSON)
}

#[derive(Debug, Clone, PartialEq)]
pub struct SceneSource<D> {
    pub role: SourceRole,
    pub device: Device,
    pub defaults: D,
}

#[derive(Debug, Clone, PartialEq)]
pub struct Scene<D> {
    pub id: String,
    pub name: String,
    pub sources: Vec<SceneSource<D>>,
}

#[derive(Debug, Clone, PartialEq)]
pub struct ScenesFile<D> {
    pub schema_version: u32,
    pub scenes: Vec<Scene<D>>,
}

pub struct SceneSourceView<D> {
    pub role: SourceRole,
    pub device: DeviceView,
    pub defaults: D,
}

pub struct SceneView<D> {
    pub id: Seq<char>,
    pub name: Seq<char>,
    pub sources: Seq<SceneSourceView<D>>,
}

impl<D> View for SceneSource<D> {
    type V = SceneSourceView<D>;

    open spec fn view(&self) -> SceneSourceView<D> {
        SceneSourceView { role: self.role, device: self.device@, defaults: self.defaults }
    }
}

pub open spec fn sources_view<D>(s: Seq<SceneSource<D>>) -> Seq<SceneSourceView<D>> {
    s.map_values(|x: SceneSource<D>| x@)
}

impl<D> View for Scene<D> {
    type V = SceneView<D>;

    open spec fn view(&self) -> SceneView<D> {
        SceneView { id: self.id@, name: self.name@, sources: sources_view(self.sources@) }
    }
}

pub open spec fn scenes_view<D>(s: Seq<Scene<D>>) -> Seq<SceneView<D>> {
    s.map_values(|x: Scene<D>| x@)
}

impl<D> View for ScenesFile<D> {
    type V = Seq<SceneView<D>>;

    open spec fn view(&self) -> Seq<SceneView<D>> {
        scenes_view(self.scenes@)
    }
}

pub open spec fn scene_pos<D>(ss: Seq<SceneView<D>>, id: Seq<char>) -> int {
    index_of(ss, |s: SceneView<D>| s.id == id)
}

impl<D: Copy> SceneSource<D> {
    pub fn duplicate(&self) -> (r: Self)
        ensures
            r@ == self@,
    {
        SceneSource { role: self.role, device: self.device.duplicate(), defaults: self.defaults }
    }
}

impl<D: Default> SceneSource<D> {
    /// A source for `role` on the system default device with default
    /// composition.
    pub fn placeholder(role: SourceRole) -> (s: Self)
        ensures
            s.role == role,
            s.device@ == (DeviceView { id: "default"@, label: "Default"@ }),
    {
        SceneSource {
            role,
            device: Device { id: "default".to_owned(), label: "Default".to_owned() },
            defaults: D::default(),
        }
    }
}

impl<D> ScenesFile<D> {
    /// An empty Scene list.
    pub fn empty() -> (f: Self)
        ensures
            f.schema_version == SCENES_SCHEMA_VERSION,
            f@ == Seq::<SceneView<D>>::empty(),
    {
        let f = ScenesFile { schema_version: SCENES_SCHEMA_VERSION, scenes: Vec::new() };
        assert(f@ =~= Seq::<SceneView<D>>::empty());
        f
    }
}

fn find_scene<D>(scenes: &Vec<Scene<D>>, id: &String) -> (r: Option<usize>)
    ensures
        found_at(r, scene_pos(scenes_view(scenes@), id@)),
{
    let ghost ss = scenes_view(scenes@);
    let ghost p = |s: SceneView<D>| s.id == id@;
    let mut i: usize = 0;
    while i < scenes.len()
        invariant
            i <= scenes.len(),
            ss == scenes_view(scenes@),
            p == (|s: SceneView<D>| s.id == id@),
            forall|j: int| 0 <= j < i ==> !p(#[trigger] ss[j]),
        decreases scenes.len() - i,
    {
        if scenes[i].id == *id {
            proof {
                lemma_index_of_at(ss, p, i as int);
            }
            return Some(i);
        }
        i = i + 1;
    }
    proof {
        lemma_index_of_at(ss, p, i as int);
    }
    None
}

fn copy_sources<D: Copy>(src: &Vec<SceneSource<D>>) -> (r: Vec<SceneSource<D>>)
    ensures
        sources_view(r@) == sources_view(src@),
{
    let mut out: Vec<SceneSource<D>> = Vec::new();
    let mut i: usize = 0;
    while i < src.len()
        invariant
            i <= src.len(),
            sources_view(out@) == sources_view(src@.take(i as int)),
        decreases src.len() - i,
    {
        let ghost prev = out@;
        out.push(src[i].duplicate());
        assert(sources_view(out@) =~= sources_view(prev).push(src@[i as int]@));
        assert(sources_view(src@.take(i + 1)) =~= sources_view(src@.take(i as int)).push(
            src@[i as int]@,
        ));
        i = i + 1;
    }
    assert(src@.take(src.len() as int) =~= src@);
    out
}

impl<D: Copy> Scene<D> {
    pub fn duplicate(&self) -> (r: Self)
        ensures
            r@ == self@,
    {
        Scene { id: self.id.clone(), name: self.name.clone(), sources: copy_sources(&self.sources) }
    }
}

/// Appends an empty Scene with the given id and the trimmed name.
pub fn create_scene_with_id<D: Copy>(file: &mut ScenesFile<D>, id: String, name: &str) -> (r:
    Result<Scene<D>, CoreError>)
    ensures
        trim_spec(name@).len() == 0 ==> r == Err::<Scene<D>, CoreError>(CoreError::EmptyTitle)
            && final(file)@ == old(file)@,
        trim_spec(name@).len() > 0 ==> (r matches Ok(s) && s@ == (SceneView {
            id: id@,
            name: trim_spec(name@),
            sources: Seq::<SceneSourceView<D>>::empty(),
        }) && final(file)@ == old(file)@.push(s@)),
        final(file).schema_version == old(file).schema_version,
{
    let t = trim(name);
    if t.as_str().is_empty() {
        return Err(CoreError::EmptyTitle);
    }
    let scene = Scene { id, name: t, sources: Vec::new() };
    assert(scene@.sources =~= Seq::<SceneSourceView<D>>::empty());
    let out = scene.duplicate();
    file.scenes.push(scene);
    assert(final(file)@ =~= old(file)@.push(out@));
    Ok(out)
}

/// Appends an empty Scene with a new random id and the trimmed name.
pub fn create_scene<D: Copy>(file: &mut ScenesFile<D>, name: &str) -> (r: Result<
    Scene<D>,
    CoreError,
>)
    ensures
        trim_spec(name@).len() == 0 ==> r == Err::<Scene<D>, CoreError>(CoreError::EmptyTitle)
            && final(file)@ == old(file)@,
        trim_spec(name@).len() > 0 ==> (r matches Ok(s) && is_uuid_v4_text(s@.id) && s@.name
            == trim_spec(name@) && s@.sources == Seq::<SceneSourceView<D>>::empty()
            && final(file)@ == old(file)@.push(s@)),
        final(file).schema_version == old(file).schema_version,
{
    let id = new_id();
    create_scene_with_id(file, id, name)
}

/// Renames the first Scene with the given id to the trimmed name.
pub fn rename_scene<D>(file: &mut ScenesFile<D>, scene_id: &str, new_name: &str) -> (r: Result<
    (),
    CoreError,
>)
    ensures
        trim_spec(new_name@).len() == 0 ==> r == Err::<(), CoreError>(CoreError::EmptyTitle),
        trim_spec(new_name@).len() > 0 && scene_pos(old(file)@, scene_id@) < 0 ==> (r matches Err(
            CoreError::SceneNotFound(s),
        ) && s@ == scene_id@),
        r is Err ==> final(file)@ == old(file)@,
        trim_spec(new_name@).len() > 0 && scene_pos(old(file)@, scene_id@) >= 0 ==> r is Ok
            && final(file)@ == old(file)@.update(
            scene_pos(old(file)@, scene_id@),
            SceneView {
                name: trim_spec(new_name@),
                ..old(file)@[scene_pos(old(file)@, scene_id@)]
            },
        ),
        final(file).schema_version == old(file).schema_version,
{
    let t = trim(new_name);
    if t.as_str().is_empty() {
        return Err(CoreError::EmptyTitle);
    }
    let key = scene_id.to_owned();
    match find_scene(&file.scenes, &key) {
        None => Err(CoreError::SceneNotFound(key)),
        Some(i) => {
            proof {
                lemma_index_of_props(old(file)@, |s: SceneView<D>| s.id == scene_id@);
            }
            file.scenes[i].name = t;
            assert(final(file)@ =~= old(file)@.update(
                i as int,
                SceneView { name: trim_spec(new_name@), ..old(file)@[i as int] },
            ));
            Ok(())
        },
    }
}

/// Inserts a copy of the first Scene with the given id right after it,
/// under the given id and the original name followed by ` Copy`.
pub fn duplicate_scene_with_id<D: Copy>(file: &mut ScenesFile<D>, id: String, scene_id: &str) -> (r:
    Result<Scene<D>, CoreError>)
    ensures
        scene_pos(old(file)@, scene_id@) < 0 ==> (r matches Err(CoreError::SceneNotFound(s)) && s@
            == scene_id@ && final(file)@ == old(file)@),
        scene_pos(old(file)@, scene_id@) >= 0 ==> ({
            let i = scene_pos(old(file)@, scene_id@);
            let src = old(file)@[i];
            &&& r matches Ok(s) && s@ == (SceneView {
                id: id@,
                name: src.name + " Copy"@,
                sources: src.sources,
            })
            &&& final(file)@ == old(file)@.insert(i + 1, r->Ok_0@)
        }),
        final(file).schema_version == old(file).schema_version,
{
    let key = scene_id.to_owned();
    match find_scene(&file.scenes, &key) {
        None => Err(CoreError::SceneNotFound(key)),
        Some(i) => {
            proof {
                lemma_index_of_props(old(file)@, |s: SceneView<D>| s.id == scene_id@);
            }
            assert(scenes_view(file.scenes@).len() == file.scenes@.len());
            let mut name = file.scenes[i].name.clone();
            name.append(" Copy");
            let copy = Scene { id, name, sources: copy_sources(&file.scenes[i].sources) };
            let out = copy.duplicate();
            assert(i < file.scenes.len());
            file.scenes.insert(i + 1, copy);
            assert(final(file)@ =~= old(file)@.insert(i + 1, out@));
            Ok(out)
        },
    }
}

/// Inserts a copy of the first Scene with the given id right after it,
/// under a new random id.
pub fn duplicate_scene<D: Copy>(file: &mut ScenesFile<D>, scene_id: &str) -> (r: Result<
    Scene<D>,
    CoreError,
>)
    ensures
        scene_pos(old(file)@, scene_id@) < 0 ==> (r matches Err(CoreError::SceneNotFound(s)) && s@
            == scene_id@ && final(file)@ == old(file)@),
        scene_pos(old(file)@, scene_id@) >= 0 ==> ({
            let i = scene_pos(old(file)@, scene_id@);
            let src = old(file)@[i];
            &&& r matches Ok(s) && is_uuid_v4_text(s@.id) && s@.name == src.name + " Copy"@
                && s@.sources == src.sources
            &&& final(file)@ == old(file)@.insert(i + 1, r->Ok_0@)
        }),
        final(file).schema_version == old(file).schema_version,
{
    let id = new_id();
    duplicate_scene_with_id(file, id, scene_id)
}

/// Deletes the first Scene with the given id.
pub fn delete_scene<D>(file: &mut ScenesFile<D>, scene_id: &str) -> (r: Result<(), CoreError>)
    ensures
        scene_pos(old(file)@, scene_id@) < 0 ==> (r matches Err(CoreError::SceneNotFound(s)) && s@
            == scene_id@ && final(file)@ == old(file)@),
        scene_pos(old(file)@, scene_id@) >= 0 ==> r is Ok && final(file)@ == old(file)@.remove(
            scene_pos(old(file)@, scene_id@),
        ),
        final(file).schema_version == old(file).schema_version,
{
    let key = scene_id.to_owned();
    match find_scene(&file.scenes, &key) {
        None => Err(CoreError::SceneNotFound(key)),
        Some(i) => {
            proof {
                lemma_index_of_props(old(file)@, |s: SceneView<D>| s.id == scene_id@);
            }
            file.scenes.remove(i);
            assert(final(file)@ =~= old(file)@.remove(i as int));
            Ok(())
        },
    }
}

/// Appends a source to the first Scene with the given id.
pub fn push_scene_source<D>(file: &mut ScenesFile<D>, scene_id: &str, source: SceneSource<D>) -> (r:
    Result<(), CoreError>)
    ensures
        scene_pos(old(file)@, scene_id@) < 0 ==> (r matches Err(CoreError::SceneNotFound(s)) && s@
            == scene_id@ && final(file)@ == old(file)@),
        scene_pos(old(file)@, scene_id@) >= 0 ==> ({
            let i = scene_pos(old(file)@, scene_id@);
            &&& r is Ok
            &&& final(file)@ == old(file)@.update(
                i,
                SceneView { sources: old(file)@[i].sources.push(source@), ..old(file)@[i] },
            )
        }),
        final(file).schema_version == old(file).schema_version,
{
    let key = scene_id.to_owned();
    match find_scene(&file.scenes, &key) {
        None => Err(CoreError::SceneNotFound(key)),
        Some(i) => {
            proof {
                lemma_index_of_props(old(file)@, |s: SceneView<D>| s.id == scene_id@);
            }
            let ghost sv = source@;
            file.scenes[i].sources.push(source);
            assert(final(file)@[i as int].sources =~= old(file)@[i as int].sources.push(sv));
            assert(final(file)@ =~= old(file)@.update(
                i as int,
                SceneView { sources: old(file)@[i as int].sources.push(sv), ..old(file)@[i as int] },
            ));
            Ok(())
        },
    }
}

/// Appends a placeholder source for `role` (default device, default
/// composition) to the first Scene with the given id, returning it.
pub fn add_scene_source<D: Copy + Default>(
    file: &mut ScenesFile<D>,
    scene_id: &str,
    role: SourceRole,
) -> (r: Result<SceneSource<D>, CoreError>)
    ensures
        scene_pos(old(file)@, scene_id@) < 0 ==> (r matches Err(CoreError::SceneNotFound(s)) && s@
            == scene_id@ && final(file)@ == old(file)@),
        scene_pos(old(file)@, scene_id@) >= 0 ==> ({
            let i = scene_pos(old(file)@, scene_id@);
            &&& r matches Ok(src) && src.role == role && src.device@ == (DeviceView {
                id: "default"@,
                label: "Default"@,
            })
            &&& final(file)@ == old(file)@.update(
                i,
                SceneView { sources: old(file)@[i].sources.push(r->Ok_0@), ..old(file)@[i] },
            )
        }),
        final(file).schema_version == old(file).schema_version,
{
    let source: SceneSource<D> = SceneSource::placeholder(role);
    let out = source.duplicate();
    match push_scene_source(file, scene_id, source) {
        Ok(()) => Ok(out),
        Err(e) => Err(e),
    }
}

/// Removes the source at `source_index` from the first Scene with the given
/// id.
pub fn remove_scene_source<D>(file: &mut ScenesFile<D>, scene_id: &str, source_index: usize) -> (r:
    Result<(), CoreError>)
    ensures
        scene_pos(old(file)@, scene_id@) < 0 ==> (r matches Err(CoreError::SceneNotFound(s)) && s@
            == scene_id@),
        scene_pos(old(file)@, scene_id@) >= 0 && source_index >= old(file)@[scene_pos(
            old(file)@,
            scene_id@,
        )].sources.len() ==> (r matches Err(
            CoreError::SceneSourceIndexOutOfBounds { scene_id: s, index, len },
        ) && s@ == scene_id@ && index == source_index && len == old(file)@[scene_pos(
            old(file)@,
            scene_id@,
        )].sources.len()),
        r is Err ==> final(file)@ == old(file)@,
        scene_pos(old(file)@, scene_id@) >= 0 && source_index < old(file)@[scene_pos(
            old(file)@,
            scene_id@,
        )].sources.len() ==> ({
            let i = scene_pos(old(file)@, scene_id@);
            &&& r is Ok
            &&& final(file)@ == old(file)@.update(
                i,
                SceneView {
                    sources: old(file)@[i].sources.remove(source_index as int),
                    ..old(file)@[i]
                },
            )
        }),
        final(file).schema_version == old(file).schema_version,
{
    let key = scene_id.to_owned();
    match find_scene(&file.scenes, &key) {
        None => Err(CoreError::SceneNotFound(key)),
        Some(i) => {
            proof {
                lemma_index_of_props(old(file)@, |s: SceneView<D>| s.id == scene_id@);
            }
            let len = file.scenes[i].sources.len();
            if source_index >= len {
                return Err(
                    CoreError::SceneSourceIndexOutOfBounds { scene_id: key, index: source_index, len },
                );
            }
            file.scenes[i].sources.remove(source_index);
            assert(final(file)@[i as int].sources =~= old(file)@[i as int].sources.remove(
                source_index as int,
            ));
            assert(final(file)@ =~= old(file)@.update(
                i as int,
                SceneView {
                    sources: old(file)@[i as int].sources.remove(source_index as int),
                    ..old(file)@[i as int]
                },
            ));
            Ok(())
        },
    }
}

} // verus!
