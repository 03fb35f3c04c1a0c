//! The edit decision list of a Video: an ordered log of `AddCut`, `Undo`
//! and `Redo` commands kept at `videos/<video-id>/edits.json`.
//!
//! Replaying the log yields two stacks: the cuts in force and the cuts that
//! were undone and may be redone. Each stack entry is the position in the
//! log of the `AddCut` command that created the cut, so the caller reads the
//! cut's bounds from the command itself. A new `AddCut` empties the redo
//! stack: undo and redo never cross onto a branch the user abandoned.

use vstd::prelude::*;
use crate::paths::{join_path, join_spec, video_dir, video_dir_spec};

verus! {

pub const EDITS_FILENAME: &'static str = "edits.json";
pub const SCHEMA_VERSION: u32 = 1;

/// The kind of one command of an edit log.
#[derive(Debug, Clone, Copy, PartialEq, Eq, Structural)]
pub enum EditOp {
    AddCut,
    Undo,
    Redo,
}

/// Active and undone cuts, as positions of `AddCut` commands in the log.
/// The top of each stack is its last element.
pub struct EditStacks {
    pub active: Vec<usize>,
    pub undone: Vec<usize>,
}

/// The stacks as sequences of log positions: (active, undone).
pub type Stacks = (Seq<int>, Seq<int>);

/// The effect of the command `op`, standing at position `at` of the log.
pub open spec fn apply_op(s: Stacks, op: EditOp, at: int) -> Stacks {
    match op {
        EditOp::AddCut => (s.0.push(at), Seq::empty()),
        EditOp::Undo => if s.0.len() > 0 {
            (s.0.drop_last(), s.1.push(s.0.last()))
        } else {
            s
        },
        EditOp::Redo => if s.1.len() > 0 {
            (s.0.push(s.1.last()), s.1.drop_last())
        } else {
            s
        },
    }
}

/// The stacks after replaying `ops` from an empty state.
pub open spec fn replay_spec(ops: Seq<EditOp>) -> Stacks
    decreases ops.len(),
{
    if ops.len() == 0 {
        (Seq::empty(), Seq::empty())
    } else {
        apply_op(replay_spec(ops.drop_last()), ops.last(), ops.len() - 1)
    }
}

pub open spec fn usizes_view(v: Seq<usize>) -> Seq<int> {
    v.map_values(|x: usize| x as int)
}

impl EditStacks {
    pub open spec fn stacks(&self) -> Stacks {
        (usizes_view(self.active@), usizes_view(self.undone@))
    }

    /// Whether an `Undo` now would take back a cut.
    pub fn can_undo(&self) -> (b: bool)
        ensures
            b == (self.active@.len() > 0),
    {
        self.active.len() > 0
    }

    /// Whether a `Redo` now would restore a cut.
    pub fn can_redo(&self) -> (b: bool)
        ensures
            b == (self.undone@.len() > 0),
    {
        self.undone.len() > 0
    }
}

proof fn lemma_usizes_push(v: Seq<usize>, x: usize)
    ensures
        usizes_view(v.push(x)) == usizes_view(v).push(x as int),
{
    assert(usizes_view(v.push(x)) =~= usizes_view(v).push(x as int));
}

proof fn lemma_usizes_drop_last(v: Seq<usize>)
    requires
        v.len() > 0,
    ensures
        usizes_view(v.drop_last()) == usizes_view(v).drop_last(),
        usizes_view(v).last() == v.last() as int,
{
    assert(usizes_view(v.drop_last()) =~= usizes_view(v).drop_last());
}

/// Replays an edit log: walks the commands in order and returns the cuts
/// in force and the redo stack.
pub fn replay_stacks(ops: &Vec<EditOp>) -> (r: EditStacks)
    ensures
        r.stacks() == replay_spec(ops@),
{
    let mut active: Vec<usize> = Vec::new();
    let mut undone: Vec<usize> = Vec::new();
    let mut i: usize = 0;
    assert(ops@.subrange(0, 0) =~= Seq::<EditOp>::empty());
    assert(usizes_view(active@) =~= Seq::<int>::empty());
    assert(usizes_view(undone@) =~= Seq::<int>::empty());
    while i < ops.len()
        invariant
            i <= ops.len(),
            (usizes_view(active@), usizes_view(undone@)) == replay_spec(ops@.subrange(0, i as int)),
        decreases ops.len() - i,
    {
        let ghost prev = ops@.subrange(0, i as int);
        assert(ops@.subrange(0, i + 1).drop_last() =~= prev);
        match ops[i] {
            EditOp::AddCut => {
                proof {
                    lemma_usizes_push(active@, i);
                }
                active.push(i);
                undone = Vec::new();
                assert(usizes_view(undone@) =~= Seq::<int>::empty());
            },
            EditOp::Undo => {
                if active.len() > 0 {
                    proof {
                        lemma_usizes_drop_last(active@);
                    }
                    let c = active.pop().unwrap();
                    proof {
                        lemma_usizes_push(undone@, c);
                    }
                    undone.push(c);
                }
            },
            EditOp::Redo => {
                if undone.len() > 0 {
                    proof {
                        lemma_usizes_drop_last(undone@);
                    }
                    let c = undone.pop().unwrap();
                    proof {
                        lemma_usizes_push(active@, c);
                    }
                    active.push(c);
                }
            },
        }
        i = i + 1;
    }
    assert(ops@.subrange(0, ops@.len() as int) =~= ops@);
    EditStacks { active, undone }
}

/// `<folder>/videos/<video_id>/edits.json`.
pub fn edits_path(folder: &str, video_id: &str) -> (r: String)
    ensures
        r@ == join_spec(video_dir_spec(folder@, video_id@), "edits.json"@),
{
    let dir = video_dir(folder, video_id);
    join_path(dir.as_str(), EDITS_FILENAME)
}

/// Every cut ever added and not yet discarded, oldest first: the active
/// stack followed by the redo stack read from its top down.
pub open spec fn cut_history(s: Stacks) -> Seq<int> {
    s.0 + s.1.reverse()
}

/// `k` copies of the command `op`.
pub open spec fn repeated(op: EditOp, k: nat) -> Seq<EditOp> {
    Seq::new(k, |i: int| op)
}

proof fn lemma_push_drop_last(ops: Seq<EditOp>, op: EditOp)
    ensures
        ops.push(op).drop_last() == ops,
        ops.push(op).last() == op,
        ops.push(op).len() == ops.len() + 1,
{
    assert(ops.push(op).drop_last() =~= ops);
}

proof fn lemma_reverse_push(u: Seq<int>, x: int)
    ensures
        u.push(x).reverse() == seq![x] + u.reverse(),
{
    assert(u.push(x).reverse() =~= seq![x] + u.reverse());
}

/// An `Undo` that takes back a cut, followed by a `Redo`, restores both
/// stacks exactly.
pub proof fn lemma_undo_then_redo(ops: Seq<EditOp>)
    requires
        replay_spec(ops).0.len() > 0,
    ensures
        replay_spec(ops.push(EditOp::Undo).push(EditOp::Redo)) == replay_spec(ops),
{
    let s = replay_spec(ops);
    let o1 = ops.push(EditOp::Undo);
    lemma_push_drop_last(ops, EditOp::Undo);
    lemma_push_drop_last(o1, EditOp::Redo);
    assert(replay_spec(o1) == apply_op(s, EditOp::Undo, ops.len() as int));
    assert(replay_spec(o1.push(EditOp::Redo)) == apply_op(replay_spec(o1), EditOp::Redo, o1.len() as int));
    assert(s.0.drop_last().push(s.0.last()) =~= s.0);
    assert(s.1.push(s.0.last()).drop_last() =~= s.1);
}

/// A `Redo` that restores a cut, followed by an `Undo`, restores both
/// stacks exactly.
pub proof fn lemma_redo_then_undo(ops: Seq<EditOp>)
    requires
        replay_spec(ops).1.len() > 0,
    ensures
        replay_spec(ops.push(EditOp::Redo).push(EditOp::Undo)) == replay_spec(ops),
{
    let s = replay_spec(ops);
    let o1 = ops.push(EditOp::Redo);
    lemma_push_drop_last(ops, EditOp::Redo);
    lemma_push_drop_last(o1, EditOp::Undo);
    assert(replay_spec(o1) == apply_op(s, EditOp::Redo, ops.len() as int));
    assert(replay_spec(o1.push(EditOp::Undo)) == apply_op(replay_spec(o1), EditOp::Undo, o1.len() as int));
    assert(s.1.drop_last().push(s.1.last()) =~= s.1);
    assert(s.0.push(s.1.last()).drop_last() =~= s.0);
}

/// A new cut goes on top of the active stack and empties the redo stack.
pub proof fn lemma_add_cut_clears_redo(ops: Seq<EditOp>)
    ensures
        replay_spec(ops.push(EditOp::AddCut)) == (
            replay_spec(ops).0.push(ops.len() as int),
            Seq::<int>::empty(),
        ),
{
    lemma_push_drop_last(ops, EditOp::AddCut);
}

/// `Undo` with nothing to undo, and `Redo` with nothing to redo, change
/// nothing.
pub proof fn lemma_idle_undo_redo(ops: Seq<EditOp>)
    ensures
        replay_spec(ops).0.len() == 0 ==> replay_spec(ops.push(EditOp::Undo)) == replay_spec(ops),
        replay_spec(ops).1.len() == 0 ==> replay_spec(ops.push(EditOp::Redo)) == replay_spec(ops),
{
    lemma_push_drop_last(ops, EditOp::Undo);
    lemma_push_drop_last(ops, EditOp::Redo);
}

/// Undo and redo are unlimited: `k` undos followed by `k` redos, for any
/// `k` up to the number of cuts in force, land back on the same stacks.
pub proof fn lemma_undo_redo_many(ops: Seq<EditOp>, k: nat)
    requires
        k <= replay_spec(ops).0.len(),
    ensures
        replay_spec(ops + repeated(EditOp::Undo, k) + repeated(EditOp::Redo, k)) == replay_spec(ops),
    decreases k,
{
    if k == 0 {
        assert(ops + repeated(EditOp::Undo, 0) + repeated(EditOp::Redo, 0) =~= ops);
    } else {
        let ops1 = ops.push(EditOp::Undo);
        lemma_push_drop_last(ops, EditOp::Undo);
        let k1 = (k - 1) as nat;
        lemma_undo_redo_many(ops1, k1);
        let x = ops1 + repeated(EditOp::Undo, k1) + repeated(EditOp::Redo, k1);
        assert(ops + repeated(EditOp::Undo, k) + repeated(EditOp::Redo, k) =~= x.push(EditOp::Redo));
        lemma_push_drop_last(x, EditOp::Redo);
        lemma_push_drop_last(ops1, EditOp::Redo);
        lemma_undo_then_redo(ops);
    }
}

/// `Undo` and `Redo` only move cuts between the two stacks: the history of
/// cuts is the same before and after.
pub proof fn lemma_undo_redo_keep_history(ops: Seq<EditOp>)
    ensures
        cut_history(replay_spec(ops.push(EditOp::Undo))) == cut_history(replay_spec(ops)),
        cut_history(replay_spec(ops.push(EditOp::Redo))) == cut_history(replay_spec(ops)),
{
    let s = replay_spec(ops);
    lemma_push_drop_last(ops, EditOp::Undo);
    lemma_push_drop_last(ops, EditOp::Redo);
    if s.0.len() > 0 {
        lemma_reverse_push(s.1, s.0.last());
        assert(s.0.drop_last() + (seq![s.0.last()] + s.1.reverse()) =~= s.0 + s.1.reverse());
    }
    if s.1.len() > 0 {
        lemma_reverse_push(s.1.drop_last(), s.1.last());
        assert(s.1.drop_last().push(s.1.last()) =~= s.1);
        assert(s.0.push(s.1.last()) + s.1.drop_last().reverse() =~= s.0 + (seq![s.1.last()]
            + s.1.drop_last().reverse()));
    }
}

/// Every stack entry names an `AddCut` command of the log, and the history
/// lists them in log order without repeats, so no cut is in force twice or
/// both in force and undone.
pub open spec fn stacks_well_formed(ops: Seq<EditOp>, s: Stacks) -> bool {
    let h = cut_history(s);
    &&& forall|i: int|
        0 <= i < h.len() ==> 0 <= #[trigger] h[i] < ops.len() && ops[h[i]] == EditOp::AddCut
    &&& forall|i: int, j: int| 0 <= i < j < h.len() ==> h[i] < h[j]
}

/// Replaying any log yields well-formed stacks.
pub proof fn lemma_replay_well_formed(ops: Seq<EditOp>)
    ensures
        stacks_well_formed(ops, replay_spec(ops)),
    decreases ops.len(),
{
    if ops.len() > 0 {
        let prev = ops.drop_last();
        let op = ops.last();
        lemma_replay_well_formed(prev);
        assert(prev.push(op) =~= ops);
        let s = replay_spec(prev);
        let h = cut_history(s);
        let s2 = replay_spec(ops);
        assert(s2 == apply_op(s, op, prev.len() as int));
        let h2 = cut_history(s2);
        assert forall|x: int| 0 <= x < prev.len() implies ops[x] == prev[x] by {}
        if op == EditOp::AddCut {
            let n = prev.len() as int;
            assert(Seq::<int>::empty().reverse() =~= Seq::<int>::empty());
            assert(h2 =~= s.0.push(n));
            assert forall|i: int| 0 <= i < s.0.len() implies s.0[i] == h[i] by {}
            assert forall|i: int| 0 <= i < h2.len() implies 0 <= #[trigger] h2[i] < ops.len()
                && ops[h2[i]] == EditOp::AddCut by {
                if i < s.0.len() {
                    assert(h2[i] == h[i]);
                }
            }
            assert forall|i: int, j: int| 0 <= i < j < h2.len() implies h2[i] < h2[j] by {
                assert(h2[i] == h[i]);
                if j < s.0.len() {
                    assert(h2[j] == h[j]);
                }
            }
        } else {
            lemma_undo_redo_keep_history(prev);
            assert(h2 == h);
        }
    }
}

/// Each cut in force comes from its own `AddCut` command of the log: the
/// active stack names `AddCut` positions, no position twice.
pub proof fn lemma_active_cuts_from_distinct_add_cuts(ops: Seq<EditOp>)
    ensures
        ({
            let a = replay_spec(ops).0;
            &&& forall|i: int| 0 <= i < a.len() ==> 0 <= #[trigger] a[i] < ops.len() && ops[a[i]] == EditOp::AddCut
            &&& forall|i: int, j: int| 0 <= i < a.len() && 0 <= j < a.len() && i != j ==> a[i] != a[j]
        }),
{
    lemma_replay_well_formed(ops);
    let s = replay_spec(ops);
    let a = s.0;
    let h = cut_history(s);
    assert forall|i: int| 0 <= i < a.len() implies 0 <= #[trigger] a[i] < ops.len() && ops[a[i]] == EditOp::AddCut by {
        assert(h[i] == a[i]);
    }
    assert forall|i: int, j: int| 0 <= i < a.len() && 0 <= j < a.len() && i != j implies a[i] != a[j] by {
        assert(h[i] == a[i] && h[j] == a[j]);
        if i < j {
            assert(h[i] < h[j]);
        } else {
            assert(h[j] < h[i]);
        }
    }
}

} // verus!
