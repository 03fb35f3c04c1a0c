//! The Library: one entry per Course Folder found under the Scanned Root.
//! A folder holding `course.json` is a Course (and the walk does not look
//! inside it for more); the title shown is the one in `course.json`, not
//! the folder's name.

use vstd::prelude::*;
use crate::course::Course;

verus! {

#[derive(Debug, Clone)]
pub struct CourseEntry {
    pub folder: String,
    pub title: String,
    /// Last-modified time of the Course Folder, in Unix milliseconds.
    pub modified_ms: i64,
    pub video_count: usize,
}

/// The Library entry of the Course in `folder`.
pub fn course_entry(folder: String, course: &Course, modified_ms: i64) -> (e: CourseEntry)
    ensures
        e.folder == folder,
        e.title@ == course@.title,
        e.modified_ms == modified_ms,
        e.video_count == course@.videos.len(),
{
    CourseEntry {
        folder,
        title: course.title.clone(),
        modified_ms,
        video_count: course.videos.len(),
    }
}

impl CourseEntry {
    pub fn duplicate(&self) -> (r: CourseEntry)
        ensures
            r == *self,
    {
        CourseEntry {
            folder: self.folder.clone(),
            title: self.title.clone(),
            modified_ms: self.modified_ms,
            video_count: self.video_count,
        }
    }
}

/// What the walk of the Scanned Root does with one directory entry.
#[derive(Debug, Clone, Copy, PartialEq, Eq)]
pub enum WalkStep {
    /// Not a directory: nothing to find there.
    Skip,
    /// A directory holding `course.json`: a Course, not looked into.
    Course,
    /// A directory without `course.json`: walked for Courses inside.
    Descend,
}

/// A Course Folder is a directory with `course.json` in it, and the walk
/// stops there; other directories are walked, anything else is skipped.
pub fn walk_step(is_dir: bool, has_course_json: bool) -> (w: WalkStep)
    ensures
        !is_dir ==> w == WalkStep::Skip,
        is_dir && has_course_json ==> w == WalkStep::Course,
        is_dir && !has_course_json ==> w == WalkStep::Descend,
{
    if !is_dir {
        WalkStep::Skip
    } else if has_course_json {
        WalkStep::Course
    } else {
        WalkStep::Descend
    }
}

/// What the walk of the Scanned Root found at one directory entry.
pub enum LibraryNode {
    /// Not a directory.
    Other,
    /// A directory holding `course.json`: its Library entry, or nothing when
    /// the Course could not be read. The walk does not look inside.
    CourseFolder(Option<CourseEntry>),
    /// A directory without `course.json`, with what was found inside it
    /// (nothing when it could not be listed).
    Folder(Vec<LibraryNode>),
}

/// The Courses among `nodes`, depth first, in listing order.
pub open spec fn courses_in(nodes: Seq<LibraryNode>) -> Seq<CourseEntry>
    decreases nodes,
{
    if nodes.len() == 0 {
        Seq::empty()
    } else {
        let rest = nodes.drop_first();
        proof {
            assert(decreases_to!(nodes => rest));
        }
        let here = match nodes[0] {
            LibraryNode::Other => Seq::empty(),
            LibraryNode::CourseFolder(e) => match e {
                Some(c) => seq![c],
                None => Seq::empty(),
            },
            LibraryNode::Folder(children) => {
                proof {
                    assert(decreases_to!(nodes => nodes[0]));
                    assert(decreases_to!(nodes[0] => children));
                    assert(decreases_to!(children => children@));
                }
                courses_in(children@)
            },
        };
        here + courses_in(rest)
    }
}

proof fn lemma_courses_in_step(nodes: Seq<LibraryNode>, i: int)
    requires
        0 <= i < nodes.len(),
    ensures
        courses_in(nodes.skip(i)) == courses_in(seq![nodes[i]]) + courses_in(nodes.skip(i + 1)),
{
    let s = nodes.skip(i);
    assert(s.drop_first() =~= nodes.skip(i + 1));
    assert(seq![nodes[i]].drop_first() =~= Seq::<LibraryNode>::empty());
    assert(courses_in(Seq::<LibraryNode>::empty()) =~= Seq::<CourseEntry>::empty());
    assert(s[0] == nodes[i]);
    assert(courses_in(seq![nodes[i]]) =~= courses_in(seq![nodes[i]]) + courses_in(
        Seq::<LibraryNode>::empty(),
    ));
}

fn collect_courses(nodes: &Vec<LibraryNode>, out: &mut Vec<CourseEntry>)
    ensures
        final(out)@ == old(out)@ + courses_in(nodes@),
    decreases nodes,
{
    let ghost start = out@;
    let mut i: usize = 0;
    assert(nodes@.skip(0) =~= nodes@);
    assert(start + courses_in(nodes@) =~= out@ + courses_in(nodes@.skip(0)));
    while i < nodes.len()
        invariant
            i <= nodes.len(),
            start + courses_in(nodes@) == out@ + courses_in(nodes@.skip(i as int)),
        decreases nodes.len() - i,
    {
        proof {
            lemma_courses_in_step(nodes@, i as int);
        }
        let ghost before = out@;
        let ghost one = courses_in(seq![nodes@[i as int]]);
        assert(seq![nodes@[i as int]].drop_first() =~= Seq::<LibraryNode>::empty());
        assert(courses_in(Seq::<LibraryNode>::empty()) =~= Seq::<CourseEntry>::empty());
        assert(seq![nodes@[i as int]][0] == nodes@[i as int]);
        match &nodes[i] {
            LibraryNode::Other => {
                assert(one =~= Seq::<CourseEntry>::empty());
            },
            LibraryNode::CourseFolder(e) => {
                match e {
                    Some(c) => {
                        out.push(c.duplicate());
                        assert(one =~= seq![*c]);
                    },
                    None => {
                        assert(one =~= Seq::<CourseEntry>::empty());
                    },
                }
            },
            LibraryNode::Folder(children) => {
                proof {
                    assert(decreases_to!(nodes => nodes@));
                    assert(decreases_to!(nodes@ => nodes@[i as int]));
                    assert(decreases_to!(nodes@[i as int] => *children));
                }
                collect_courses(children, out);
                assert(one =~= courses_in(children@) + courses_in(Seq::<LibraryNode>::empty()));
                assert(courses_in(Seq::<LibraryNode>::empty()) =~= Seq::<CourseEntry>::empty());
            },
        }
        assert(out@ =~= before + one);
        assert(out@ + courses_in(nodes@.skip(i + 1)) =~= before + courses_in(nodes@.skip(i as int)));
        i = i + 1;
    }
    assert(nodes@.skip(nodes.len() as int) =~= Seq::<LibraryNode>::empty());
    assert(courses_in(Seq::<LibraryNode>::empty()) =~= Seq::<CourseEntry>::empty());
    assert(out@ =~= start + courses_in(nodes@));
}

/// The Library: every Course Folder the walk of the Scanned Root found,
/// depth first in listing order, without looking inside Course Folders.
/// A root that is not a directory holds no Courses.
pub fn scan_library(root_is_dir: bool, root: &Vec<LibraryNode>) -> (r: Vec<CourseEntry>)
    ensures
        !root_is_dir ==> r@.len() == 0,
        root_is_dir ==> r@ == courses_in(root@),
{
    let mut out: Vec<CourseEntry> = Vec::new();
    if !root_is_dir {
        return out;
    }
    collect_courses(root, &mut out);
    assert(out@ =~= courses_in(root@));
    out
}

} // verus!
