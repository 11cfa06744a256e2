//! Carrying out a synchronization plan.

use vstd::prelude::*;
use vstd::string::*;

use crate::paths::join_path;
use crate::remote_path::join_remote_under_root;
use crate::remote_path::local_path_from_remote_relative;
use crate::remote_path::LocalPaths;
use crate::sync::sync_error;
use crate::sync::ActionView;
use crate::sync::SyncActionKind;
use crate::sync::SyncError;
use crate::sync::SyncPlan;
use crate::sync::SyncProblem;

verus! {

/// One thing to do, with full paths.
#[derive(Debug, PartialEq, Eq)]
pub enum SyncStep {
    RemoveFile(String),
    RemoveDirectory(String),
    MakeDirectory(String),
    Upload { local: String, remote: String },
}

#[verifier::ext_equal]
pub enum StepView {
    RemoveFile(Seq<char>),
    RemoveDirectory(Seq<char>),
    MakeDirectory(Seq<char>),
    Upload { local: Seq<char>, remote: Seq<char> },
}

impl View for SyncStep {
    type V = StepView;

    open spec fn view(&self) -> StepView {
        match *self {
            SyncStep::RemoveFile(path) => StepView::RemoveFile(path@),
            SyncStep::RemoveDirectory(path) => StepView::RemoveDirectory(path@),
            SyncStep::MakeDirectory(path) => StepView::MakeDirectory(path@),
            SyncStep::Upload { local, remote } => StepView::Upload {
                local: local@,
                remote: remote@,
            },
        }
    }
}

pub open spec fn step_views(steps: Seq<SyncStep>) -> Seq<StepView> {
    steps.map_values(|s: SyncStep| s@)
}

/// The step of an action.
pub open spec fn step_of(local_root: Seq<char>, remote_root: Seq<char>, action: ActionView) -> StepView {
    let remote = crate::remote_path::under_root(remote_root, action.path);
    match action.kind {
        SyncActionKind::DeleteRemoteFile => StepView::RemoveFile(remote),
        SyncActionKind::DeleteRemoteDirectory => StepView::RemoveDirectory(remote),
        SyncActionKind::CreateRemoteDirectory => StepView::MakeDirectory(remote),
        SyncActionKind::UploadFile => StepView::Upload {
            local: crate::paths::path_join(local_root, action.path),
            remote,
        },
    }
}

/// The steps of the actions before index `n` that send files, or of the others.
pub open spec fn steps_before(
    local_root: Seq<char>,
    remote_root: Seq<char>,
    actions: Seq<ActionView>,
    sends: bool,
    n: int,
) -> Seq<StepView>
    decreases n,
{
    if n <= 0 {
        Seq::empty()
    } else {
        let before = steps_before(local_root, remote_root, actions, sends, n - 1);
        if (actions[n - 1].kind is UploadFile) == sends {
            before.push(step_of(local_root, remote_root, actions[n - 1]))
        } else {
            before
        }
    }
}

/// All the steps: first what changes the tree, in the order of the plan, then
/// the files to send.
pub open spec fn all_steps(
    local_root: Seq<char>,
    remote_root: Seq<char>,
    actions: Seq<ActionView>,
) -> Seq<StepView> {
    steps_before(local_root, remote_root, actions, false, actions.len() as int) + steps_before(
        local_root,
        remote_root,
        actions,
        true,
        actions.len() as int,
    )
}

fn one_step(
    local_root: &str,
    remote_root: &str,
    kind: SyncActionKind,
    path: &str,
    platform: LocalPaths,
) -> (r: Result<SyncStep, SyncError>)
    ensures
        match crate::remote_path::local_path_problem(path@, platform) {
            Some(p) => r matches Err(e) && e@ == crate::sync::sync_fault(
                SyncProblem::UnsafePath(p),
                path@,
            ),
            None => r matches Ok(step) && forall|bytes: u64|
                step@ == #[trigger] step_of(
                    local_root@,
                    remote_root@,
                    ActionView { kind, path: path@, bytes },
                ),
        },
{
    let relative = match local_path_from_remote_relative(path, platform) {
        Ok(relative) => relative,
        Err(e) => {
            return Err(sync_error(SyncProblem::UnsafePath(e), path));
        },
    };
    let remote = match join_remote_under_root(remote_root, path) {
        Ok(remote) => remote,
        Err(e) => {
            return Err(sync_error(SyncProblem::UnsafePath(e), path));
        },
    };
    match kind {
        SyncActionKind::DeleteRemoteFile => Ok(SyncStep::RemoveFile(remote)),
        SyncActionKind::DeleteRemoteDirectory => Ok(SyncStep::RemoveDirectory(remote)),
        SyncActionKind::CreateRemoteDirectory => Ok(SyncStep::MakeDirectory(remote)),
        SyncActionKind::UploadFile => Ok(
            SyncStep::Upload { local: join_path(local_root, relative.as_str()), remote },
        ),
    }
}

/// The steps of a plan. A plan with a path that does not stay below its root
/// has none.
pub fn sync_steps(
    local_root: &str,
    remote_root: &str,
    plan: &SyncPlan,
    platform: LocalPaths,
) -> (r: Result<Vec<SyncStep>, SyncError>)
    ensures
        ({
            let actions = crate::sync::action_views(plan.actions@);
            match r {
                Ok(steps) => crate::sync::plan_problem_from(actions, platform, 0) is None
                    && step_views(steps@) == all_steps(local_root@, remote_root@, actions),
                Err(e) => crate::sync::plan_problem_from(actions, platform, 0) == Some(e@),
            }
        }),
{
    let ghost all = crate::sync::action_views(plan.actions@);
    let mut first: Vec<SyncStep> = Vec::new();
    let mut last: Vec<SyncStep> = Vec::new();
    assert(step_views(first@) =~= Seq::<StepView>::empty());
    assert(step_views(last@) =~= Seq::<StepView>::empty());
    let mut i: usize = 0;
    while i < plan.actions.len()
        invariant
            all == crate::sync::action_views(plan.actions@),
            i <= plan.actions@.len(),
            crate::sync::plan_problem_from(all, platform, 0) == crate::sync::plan_problem_from(
                all,
                platform,
                i as int,
            ),
            step_views(first@) == steps_before(local_root@, remote_root@, all, false, i as int),
            step_views(last@) == steps_before(local_root@, remote_root@, all, true, i as int),
        decreases plan.actions@.len() - i,
    {
        assert(all[i as int] == plan.actions@[i as int]@);
        let action = &plan.actions[i];
        let step = match one_step(
            local_root,
            remote_root,
            action.kind,
            action.path.as_str(),
            platform,
        ) {
            Ok(step) => step,
            Err(e) => {
                return Err(e);
            },
        };
        let ghost view = step@;
        assert(view == step_of(local_root@, remote_root@, all[i as int])) by {
            assert(all[i as int] == (ActionView {
                kind: action.kind,
                path: action.path@,
                bytes: action.bytes,
            }));
        }
        if action.kind == SyncActionKind::UploadFile {
            let ghost had = step_views(last@);
            last.push(step);
            assert(step_views(last@) =~= had.push(view));
        } else {
            let ghost had = step_views(first@);
            first.push(step);
            assert(step_views(first@) =~= had.push(view));
        }
        i += 1;
    }
    let ghost (a, b) = (step_views(first@), step_views(last@));
    first.append(&mut last);
    assert(step_views(first@) =~= a + b);
    Ok(first)
}

/// A plan is carried out unless it is only to be shown or has nothing to do.
pub fn is_applied(plan: &SyncPlan, dry_run: bool) -> (r: bool)
    ensures
        r == (!dry_run && plan.actions@.len() > 0),
{
    !dry_run && !plan.is_empty()
}

proof fn lemma_kinds(
    local_root: Seq<char>,
    remote_root: Seq<char>,
    actions: Seq<ActionView>,
    sends: bool,
    n: int,
)
    requires
        0 <= n <= actions.len(),
    ensures
        forall|k: int|
            0 <= k < steps_before(local_root, remote_root, actions, sends, n).len() ==> (
            #[trigger] steps_before(local_root, remote_root, actions, sends, n)[k] is Upload)
                == sends,
    decreases n,
{
    if n > 0 {
        lemma_kinds(local_root, remote_root, actions, sends, n - 1);
    }
}

/// No file is sent before all that changes the tree is done.
pub proof fn files_are_sent_last(
    local_root: Seq<char>,
    remote_root: Seq<char>,
    actions: Seq<ActionView>,
    i: int,
    j: int,
)
    requires
        0 <= i < j < all_steps(local_root, remote_root, actions).len(),
        all_steps(local_root, remote_root, actions)[i] is Upload,
    ensures
        all_steps(local_root, remote_root, actions)[j] is Upload,
{
    let n = actions.len() as int;
    lemma_kinds(local_root, remote_root, actions, false, n);
    lemma_kinds(local_root, remote_root, actions, true, n);
    let first = steps_before(local_root, remote_root, actions, false, n);
    let last = steps_before(local_root, remote_root, actions, true, n);
    let all = all_steps(local_root, remote_root, actions);
    if i < first.len() {
        assert(all[i] == first[i]);
    }
    if j >= first.len() {
        assert(all[j] == last[j - first.len()]);
    }
}

} // verus!
