//! The action planner: orders the classified actions so that parents are
//! created before their contents and children are removed before their
//! parents, and turns them into a sequence of filesystem operations.  Deletes
//! are opt-in: with deletes disabled the plan holds no removal and reports
//! how many were suppressed.

use vstd::prelude::*;

use itertools::Itertools;

use crate::configuration::{OptionsView, ProgramOptions};
use crate::paths::{
    act_views, action_wf, actions_wf, decompose, join_with, spec_action_depth, ActionType,
    ActionView, FileInfoParserAction, FileInfoParserActionList, ActionListView, UNIX_SPLITTER,
};
use crate::utilities::ci_eq;

verus! {

/// One filesystem effect of the plan.
pub enum FsOperation {
    CopyFile { source: String, destination: String },
    MakeDir { destination: String },
    RemoveFile { destination: String },
    RemoveDir { destination: String },
}

/// The mathematical view of one operation.
#[verifier::ext_equal]
pub enum FsOpView {
    CopyFile { source: Seq<char>, destination: Seq<char> },
    MakeDir { destination: Seq<char> },
    RemoveFile { destination: Seq<char> },
    RemoveDir { destination: Seq<char> },
}

impl View for FsOperation {
    type V = FsOpView;

    open spec fn view(&self) -> FsOpView {
        match self {
            FsOperation::CopyFile { source, destination } => FsOpView::CopyFile {
                source: source@,
                destination: destination@,
            },
            FsOperation::MakeDir { destination } => FsOpView::MakeDir { destination: destination@ },
            FsOperation::RemoveFile { destination } => FsOpView::RemoveFile {
                destination: destination@,
            },
            FsOperation::RemoveDir { destination } => FsOpView::RemoveDir {
                destination: destination@,
            },
        }
    }
}

/// The views of a sequence of operations.
pub open spec fn op_views(items: Seq<FsOperation>) -> Seq<FsOpView> {
    items.map_values(|op: FsOperation| op@)
}

/// The operation one action gives rise to.  A create copies the file, or
/// makes the directory, at the destination computed from the target root and
/// the source's relative segments; an update copies over the already-known
/// destination path; a delete removes the destination file or directory.
pub open spec fn spec_op_for(a: ActionView, target_directory: Seq<char>) -> FsOpView {
    match a.action_type {
        ActionType::Create => {
            let dst = join_with(decompose(target_directory) + a.source->0.segment->0, UNIX_SPLITTER);
            if a.source->0.is_file {
                FsOpView::CopyFile { source: a.source->0.path, destination: dst }
            } else {
                FsOpView::MakeDir { destination: dst }
            }
        },
        ActionType::Update => {
            if a.source->0.is_file {
                FsOpView::CopyFile {
                    source: a.source->0.path,
                    destination: a.destination->0.path,
                }
            } else {
                FsOpView::MakeDir { destination: a.destination->0.path }
            }
        },
        ActionType::Delete => {
            if a.destination->0.is_file {
                FsOpView::RemoveFile { destination: a.destination->0.path }
            } else {
                FsOpView::RemoveDir { destination: a.destination->0.path }
            }
        },
    }
}

/// Non-decreasing depth.
pub open spec fn sorted_by_depth(s: Seq<ActionView>) -> bool {
    forall|i: int, j: int|
        0 <= i < j < s.len() ==> spec_action_depth(#[trigger] s[i]) <= spec_action_depth(
            #[trigger] s[j],
        )
}

/// Non-increasing depth.
pub open spec fn sorted_by_depth_desc(s: Seq<ActionView>) -> bool {
    forall|i: int, j: int|
        0 <= i < j < s.len() ==> spec_action_depth(#[trigger] s[i]) >= spec_action_depth(
            #[trigger] s[j],
        )
}

/// Relies on `itertools::Itertools::sorted_by_key`: a stable sort of the
/// iterator's items by the given key, here the action's depth.  The result is
/// a permutation of the input, non-decreasing in depth; which of two
/// equal-depth actions comes first is left open.
#[verifier::external_body]
fn sort_actions_by_depth(actions: Vec<FileInfoParserAction>) -> (r: Vec<FileInfoParserAction>)
    ensures
        act_views(r@).to_multiset() == act_views(actions@).to_multiset(),
        sorted_by_depth(act_views(r@)),
{
    actions.into_iter().sorted_by_key(|a| a.get_depth()).collect::<Vec<FileInfoParserAction>>()
}

/// The actions in reverse order.
fn reverse_actions(actions: Vec<FileInfoParserAction>) -> (r: Vec<FileInfoParserAction>)
    ensures
        r@.len() == actions@.len(),
        forall|i: int| 0 <= i < r@.len() ==> r@[i] == actions@[actions@.len() - 1 - i],
{
    let ghost original = actions@;
    let n = actions.len();
    let mut src = actions;
    let mut r: Vec<FileInfoParserAction> = Vec::new();
    while src.len() > 0
        invariant
            n == original.len(),
            src@ == original.take(src@.len() as int),
            r@.len() == n - src@.len(),
            forall|i: int| 0 <= i < r@.len() ==> r@[i] == original[n - 1 - i],
        decreases src@.len(),
    {
        let ghost k = src@.len() as int;
        let x = match src.pop() {
            Some(x) => x,
            None => unreached(),
        };
        proof {
            assert(x == original.take(k)[k - 1]);
            assert(original.take(k).drop_last() =~= original.take(k - 1));
        }
        r.push(x);
    }
    r
}

/// Filtering a well-formed action sequence keeps it well formed.
proof fn lemma_filter_wf(s: Seq<ActionView>, p: spec_fn(ActionView) -> bool)
    requires
        actions_wf(s),
    ensures
        actions_wf(s.filter(p)),
{
    crate::utilities::lemma_filter_elements(s, p);
    assert forall|i: int| 0 <= i < s.filter(p).len() implies action_wf(#[trigger] s.filter(p)[i]) by {
        assert(s.contains(s.filter(p)[i]));
        let j = choose|j: int| 0 <= j < s.len() && s[j] == s.filter(p)[i];
        assert(action_wf(s[j]));
    }
}

/// A property of every element carries across a permutation.
proof fn lemma_multiset_transfer(
    a: Seq<ActionView>,
    b: Seq<ActionView>,
    pred: spec_fn(ActionView) -> bool,
)
    requires
        a.to_multiset() == b.to_multiset(),
        forall|i: int| 0 <= i < a.len() ==> pred(#[trigger] a[i]),
    ensures
        forall|i: int| 0 <= i < b.len() ==> pred(#[trigger] b[i]),
{
    broadcast use vstd::seq_lib::group_to_multiset_ensures;

    assert forall|i: int| 0 <= i < b.len() implies pred(b[i]) by {
        assert(b.contains(b[i]));
        assert(b.to_multiset().count(b[i]) > 0);
        assert(a.to_multiset().count(b[i]) > 0);
        assert(a.contains(b[i]));
        let j = choose|j: int| 0 <= j < a.len() && a[j] == b[i];
        assert(pred(a[j]));
    }
}

/// The segment sequence an action is ordered by.
pub open spec fn action_segs(a: ActionView) -> Seq<Seq<char>> {
    match a.source {
        Some(f) => f.segment->0,
        None => a.destination->0.segment->0,
    }
}

/// `a` is a proper path ancestor of `b`: a strictly shorter case-insensitive
/// prefix of its components.
pub open spec fn is_proper_ancestor(a: Seq<Seq<char>>, b: Seq<Seq<char>>) -> bool {
    a.len() < b.len() && forall|k: int| 0 <= k < a.len() ==> ci_eq(a[k], b[k])
}

/// Depth ordering for creates and updates: in a depth-ascending, well-formed
/// action sequence, no action is placed before an action for an ancestor of
/// its path, so a parent directory is always made before anything inside it.
pub proof fn lemma_creates_parent_first(s: Seq<ActionView>)
    requires
        sorted_by_depth(s),
        actions_wf(s),
    ensures
        forall|i: int, j: int|
            0 <= i < j < s.len() ==> !is_proper_ancestor(
                action_segs(#[trigger] s[j]),
                action_segs(#[trigger] s[i]),
            ),
{
    assert forall|i: int, j: int|
        0 <= i < j < s.len() implies !is_proper_ancestor(
        action_segs(s[j]),
        action_segs(s[i]),
    ) by {
        assert(action_wf(s[i]));
        assert(action_wf(s[j]));
        if is_proper_ancestor(action_segs(s[j]), action_segs(s[i])) {
            assert(spec_action_depth(s[j]) < spec_action_depth(s[i]));
            assert(spec_action_depth(s[i]) <= spec_action_depth(s[j]));
        }
    }
}

/// Depth ordering for deletes: in a depth-descending, well-formed action
/// sequence, no action is placed before an action for a descendant of its
/// path, so everything inside a directory is removed before the directory.
pub proof fn lemma_deletes_children_first(s: Seq<ActionView>)
    requires
        sorted_by_depth_desc(s),
        actions_wf(s),
    ensures
        forall|i: int, j: int|
            0 <= i < j < s.len() ==> !is_proper_ancestor(
                action_segs(#[trigger] s[i]),
                action_segs(#[trigger] s[j]),
            ),
{
    assert forall|i: int, j: int|
        0 <= i < j < s.len() implies !is_proper_ancestor(
        action_segs(s[i]),
        action_segs(s[j]),
    ) by {
        assert(action_wf(s[i]));
        assert(action_wf(s[j]));
        if is_proper_ancestor(action_segs(s[i]), action_segs(s[j])) {
            assert(spec_action_depth(s[i]) < spec_action_depth(s[j]));
            assert(spec_action_depth(s[i]) >= spec_action_depth(s[j]));
        }
    }
}

/// Depth ordering of a whole plan: among its creates and updates no action
/// precedes the action for an ancestor of its path, and among its deletes no
/// action precedes the action for a descendant of its path.
pub proof fn lemma_plan_respects_ancestry(o: OptionsView, l: ActionListView, p: CopyPlanView)
    requires
        plan_matches(o, l, p),
    ensures
        forall|i: int, j: int|
            0 <= i < j < p.ordered_creates.len() ==> !is_proper_ancestor(
                action_segs(#[trigger] p.ordered_creates[j]),
                action_segs(#[trigger] p.ordered_creates[i]),
            ),
        forall|i: int, j: int|
            0 <= i < j < p.ordered_deletes.len() ==> !is_proper_ancestor(
                action_segs(#[trigger] p.ordered_deletes[i]),
                action_segs(#[trigger] p.ordered_deletes[j]),
            ),
{
    lemma_creates_parent_first(p.ordered_creates);
    lemma_deletes_children_first(p.ordered_deletes);
}


/// The mathematical view of one per-target plan.
#[verifier::ext_equal]
pub struct CopyPlanView {
    pub ordered_creates: Seq<ActionView>,
    pub ordered_deletes: Seq<ActionView>,
    pub operations: Seq<FsOpView>,
    pub suppressed_deletes: int,
}

/// The ordered plan for one action list: the creates and updates sorted
/// shallow-first, the deletes sorted deep-first, the operations to perform in
/// order, and how many deletes the configuration suppressed.
pub struct CopyPlan {
    pub ordered_creates: Vec<FileInfoParserAction>,
    pub ordered_deletes: Vec<FileInfoParserAction>,
    pub operations: Vec<FsOperation>,
    pub suppressed_deletes: usize,
}

impl View for CopyPlan {
    type V = CopyPlanView;

    open spec fn view(&self) -> CopyPlanView {
        CopyPlanView {
            ordered_creates: act_views(self.ordered_creates@),
            ordered_deletes: act_views(self.ordered_deletes@),
            operations: op_views(self.operations@),
            suppressed_deletes: self.suppressed_deletes as int,
        }
    }
}

/// What a correct plan for one action list looks like: the creates and
/// updates of the list, sorted ascending by depth; the deletes, sorted
/// descending; the operations of the creates followed, only when deletes are
/// enabled, by those of the deletes; and the number of suppressed deletes.
pub open spec fn plan_matches(o: OptionsView, l: ActionListView, p: CopyPlanView) -> bool {
    &&& p.ordered_creates.to_multiset() == l.actions.filter(
        |a: ActionView| a.action_type != ActionType::Delete,
    ).to_multiset()
    &&& sorted_by_depth(p.ordered_creates)
    &&& p.ordered_deletes.to_multiset() == l.actions.filter(
        |a: ActionView| a.action_type == ActionType::Delete,
    ).to_multiset()
    &&& sorted_by_depth_desc(p.ordered_deletes)
    &&& actions_wf(p.ordered_creates)
    &&& actions_wf(p.ordered_deletes)
    &&& p.operations == p.ordered_creates.map_values(
        |a: ActionView| spec_op_for(a, l.target_directory),
    ) + (if o.enable_deletes {
        p.ordered_deletes.map_values(|a: ActionView| spec_op_for(a, l.target_directory))
    } else {
        Seq::<FsOpView>::empty()
    })
    &&& p.suppressed_deletes == (if o.enable_deletes {
        0int
    } else {
        p.ordered_deletes.len() as int
    })
}

/// The operation for one action of the plan.
fn op_for_action(action: &FileInfoParserAction, target_directory: &String) -> (r: FsOperation)
    requires
        action_wf(action@),
        decompose(target_directory@).len() > 0,
    ensures
        r@ == spec_op_for(action@, target_directory@),
{
    match action.action_type {
        ActionType::Create => {
            let source = match &action.source {
                Some(f) => f,
                None => unreached(),
            };
            let dst = action.get_destination_from_segment(target_directory);
            if source.is_file {
                FsOperation::CopyFile { source: source.get_path(), destination: dst }
            } else {
                FsOperation::MakeDir { destination: dst }
            }
        },
        ActionType::Update => {
            let source = match &action.source {
                Some(f) => f,
                None => unreached(),
            };
            let destination = match &action.destination {
                Some(g) => g,
                None => unreached(),
            };
            if source.is_file {
                FsOperation::CopyFile {
                    source: source.get_path(),
                    destination: destination.get_path(),
                }
            } else {
                FsOperation::MakeDir { destination: destination.get_path() }
            }
        },
        ActionType::Delete => {
            let destination = match &action.destination {
                Some(g) => g,
                None => unreached(),
            };
            if destination.is_file {
                FsOperation::RemoveFile { destination: destination.get_path() }
            } else {
                FsOperation::RemoveDir { destination: destination.get_path() }
            }
        },
    }
}

/// The planner for one configuration.
pub struct Copier {
    program_options: ProgramOptions,
}

impl View for Copier {
    type V = OptionsView;

    closed spec fn view(&self) -> OptionsView {
        self.program_options@
    }
}

impl Copier {
    pub fn new(o: ProgramOptions) -> (r: Copier)
        ensures
            r@ == o@,
    {
        Copier { program_options: o }
    }

    /// Builds the ordered plan for one action list.
    fn plan_for_list(&self, list: &FileInfoParserActionList) -> (r: CopyPlan)
        requires
            actions_wf(list@.actions),
            decompose(list@.target_directory).len() > 0,
        ensures
            plan_matches(self@, list@, r@),
    {
        let ghost l_actions = list@.actions;
        let ghost pred_keep = |a: ActionView| a.action_type != ActionType::Delete;
        let ghost pred_del = |a: ActionView| a.action_type == ActionType::Delete;
        let mut creates_all: Vec<FileInfoParserAction> = Vec::new();
        let mut deletes_all: Vec<FileInfoParserAction> = Vec::new();
        let mut i: usize = 0;
        while i < list.actions.len()
            invariant
                l_actions == act_views(list.actions@),
                i <= l_actions.len(),
                pred_keep == (|a: ActionView| a.action_type != ActionType::Delete),
                pred_del == (|a: ActionView| a.action_type == ActionType::Delete),
                act_views(creates_all@) =~= l_actions.take(i as int).filter(pred_keep),
                act_views(deletes_all@) =~= l_actions.take(i as int).filter(pred_del),
            decreases l_actions.len() - i,
        {
            let action: &FileInfoParserAction = &list.actions[i];
            proof {
                assert(action@ == l_actions[i as int]);
                assert(l_actions.take(i + 1 as int).drop_last() =~= l_actions.take(i as int));
                assert(l_actions.take(i + 1 as int).drop_last() == l_actions.take(i as int));
                assert(l_actions.take(i + 1 as int).last() == l_actions[i as int]);
                reveal_with_fuel(Seq::filter, 2);
            }
            if matches!(action.action_type, ActionType::Delete) {
                let ghost prev = act_views(deletes_all@);
                deletes_all.push(action.clone());
                proof {
                    assert(act_views(deletes_all@) =~= prev.push(l_actions[i as int]));
                    assert(l_actions.take(i + 1 as int).filter(pred_del) =~= l_actions.take(
                        i as int,
                    ).filter(pred_del).push(l_actions[i as int]));
                    assert(l_actions.take(i + 1 as int).filter(pred_keep) =~= l_actions.take(
                        i as int,
                    ).filter(pred_keep));
                }
            } else {
                let ghost prev = act_views(creates_all@);
                creates_all.push(action.clone());
                proof {
                    assert(act_views(creates_all@) =~= prev.push(l_actions[i as int]));
                    assert(l_actions.take(i + 1 as int).filter(pred_keep) =~= l_actions.take(
                        i as int,
                    ).filter(pred_keep).push(l_actions[i as int]));
                    assert(l_actions.take(i + 1 as int).filter(pred_del) =~= l_actions.take(
                        i as int,
                    ).filter(pred_del));
                }
            }
            i = i + 1;
        }
        proof {
            assert(l_actions.take(l_actions.len() as int) =~= l_actions);
            assert(l_actions.take(l_actions.len() as int) == l_actions);
        }
        let ordered_creates = sort_actions_by_depth(creates_all);
        let deletes_sorted = sort_actions_by_depth(deletes_all);
        let ordered_deletes = reverse_actions(deletes_sorted);
        proof {
            assert(act_views(ordered_deletes@) =~= act_views(deletes_sorted@).reverse());
            act_views(deletes_sorted@).lemma_reverse_to_multiset();
            assert forall|x: int, y: int|
                0 <= x < y < act_views(ordered_deletes@).len() implies spec_action_depth(
                act_views(ordered_deletes@)[x],
            ) >= spec_action_depth(act_views(ordered_deletes@)[y]) by {
                let n = act_views(deletes_sorted@).len();
                assert(act_views(ordered_deletes@)[x] == act_views(deletes_sorted@)[n - 1 - x]);
                assert(act_views(ordered_deletes@)[y] == act_views(deletes_sorted@)[n - 1 - y]);
            }
            lemma_filter_wf(l_actions, pred_keep);
            lemma_filter_wf(l_actions, pred_del);
            lemma_multiset_transfer(
                l_actions.filter(pred_keep),
                act_views(ordered_creates@),
                |a: ActionView| action_wf(a),
            );
            lemma_multiset_transfer(
                l_actions.filter(pred_del),
                act_views(ordered_deletes@),
                |a: ActionView| action_wf(a),
            );
        }
        let mut operations: Vec<FsOperation> = Vec::new();
        let ghost opfn = |a: ActionView| spec_op_for(a, list@.target_directory);
        let mut ci: usize = 0;
        while ci < ordered_creates.len()
            invariant
                actions_wf(act_views(ordered_creates@)),
                decompose(list@.target_directory).len() > 0,
                ci <= ordered_creates@.len(),
                opfn == (|a: ActionView| spec_op_for(a, list@.target_directory)),
                op_views(operations@) =~= act_views(ordered_creates@).take(ci as int).map_values(
                    opfn,
                ),
            decreases ordered_creates@.len() - ci,
        {
            let action: &FileInfoParserAction = &ordered_creates[ci];
            proof {
                assert(action@ == act_views(ordered_creates@)[ci as int]);
                assert(action_wf(action@));
            }
            let ghost prev = op_views(operations@);
            operations.push(op_for_action(action, &list.target_directory));
            proof {
                assert(op_views(operations@) =~= prev.push(opfn(action@)));
                assert(act_views(ordered_creates@).take(ci + 1 as int).map_values(opfn)
                    =~= act_views(ordered_creates@).take(ci as int).map_values(opfn).push(
                    opfn(act_views(ordered_creates@)[ci as int]),
                ));
            }
            ci = ci + 1;
        }
        proof {
            assert(act_views(ordered_creates@).take(act_views(ordered_creates@).len() as int)
                =~= act_views(ordered_creates@));
            assert(act_views(ordered_creates@).take(act_views(ordered_creates@).len() as int)
                == act_views(ordered_creates@));
        }
        let mut suppressed_deletes: usize = 0;
        if self.program_options.enable_deletes {
            let ghost creates_ops = op_views(operations@);
            let mut di: usize = 0;
            while di < ordered_deletes.len()
                invariant
                    actions_wf(act_views(ordered_deletes@)),
                    decompose(list@.target_directory).len() > 0,
                    di <= ordered_deletes@.len(),
                    opfn == (|a: ActionView| spec_op_for(a, list@.target_directory)),
                    op_views(operations@) =~= creates_ops + act_views(ordered_deletes@).take(
                        di as int,
                    ).map_values(opfn),
                decreases ordered_deletes@.len() - di,
            {
                let action: &FileInfoParserAction = &ordered_deletes[di];
                proof {
                    assert(action@ == act_views(ordered_deletes@)[di as int]);
                    assert(action_wf(action@));
                }
                let ghost prev = op_views(operations@);
                operations.push(op_for_action(action, &list.target_directory));
                proof {
                    assert(op_views(operations@) =~= prev.push(opfn(action@)));
                    assert(act_views(ordered_deletes@).take(di + 1 as int).map_values(opfn)
                        =~= act_views(ordered_deletes@).take(di as int).map_values(opfn).push(
                        opfn(act_views(ordered_deletes@)[di as int]),
                    ));
                }
                di = di + 1;
            }
            proof {
                assert(act_views(ordered_deletes@).take(act_views(ordered_deletes@).len() as int)
                    =~= act_views(ordered_deletes@));
                assert(act_views(ordered_deletes@).take(act_views(ordered_deletes@).len() as int)
                    == act_views(ordered_deletes@));
            }
        } else {
            suppressed_deletes = ordered_deletes.len();
        }
        let plan = CopyPlan { ordered_creates, ordered_deletes, operations, suppressed_deletes };
        proof {
            assert(plan_matches(self@, list@, plan@));
        }
        plan
    }

    /// Builds one ordered plan per action list.  The operations of each plan
    /// are meant to be applied in order: all creates and updates,
    /// shallow-first, then — only when deletes are enabled — all deletes,
    /// deep-first.
    pub fn incremental_copy(&self, action_list: Vec<FileInfoParserActionList>) -> (r: Vec<CopyPlan>)
        requires
            forall|i: int|
                0 <= i < action_list@.len() ==> actions_wf((#[trigger] action_list@[i])@.actions),
            forall|i: int|
                0 <= i < action_list@.len() ==> decompose(
                    (#[trigger] action_list@[i])@.target_directory,
                ).len() > 0,
        ensures
            r@.len() == action_list@.len(),
            forall|i: int|
                0 <= i < r@.len() ==> plan_matches(
                    self@,
                    (#[trigger] action_list@[i])@,
                    (#[trigger] r@[i])@,
                ),
    {
        let mut results: Vec<CopyPlan> = Vec::new();
        let mut i: usize = 0;
        while i < action_list.len()
            invariant
                forall|k: int|
                    0 <= k < action_list@.len() ==> actions_wf(
                        (#[trigger] action_list@[k])@.actions,
                    ),
                forall|k: int|
                    0 <= k < action_list@.len() ==> decompose(
                        (#[trigger] action_list@[k])@.target_directory,
                    ).len() > 0,
                i <= action_list@.len(),
                results@.len() == i,
                forall|k: int|
                    0 <= k < i ==> plan_matches(
                        self@,
                        (#[trigger] action_list@[k])@,
                        (#[trigger] results@[k])@,
                    ),
            decreases action_list@.len() - i,
        {
            let plan = self.plan_for_list(&action_list[i]);
            results.push(plan);
            i = i + 1;
        }
        results
    }
}

} // verus!
