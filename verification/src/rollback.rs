//! Rollback-protected updates of the Copilot CLI's user environment: the
//! managed variables are written one by one; a failed write sets every one
//! of them back to the values found before, and a failed save of the store
//! restores both the stored configuration and those values. The library
//! decides each next write; the caller performs it and reports the outcome.

use vstd::prelude::*;
use crate::cli::{
    managed_vars, env_view, writes_for, write_plan, join_with, clone_opt, snapshot_spec, apply_writes, write_spec,
    set_var, env_get, stored_value, lemma_writes_perform, lemma_snapshot_get, rollback_failure_error,
    restore_failure_error, persist_rollback_error, CopilotCliConfig,
};
use crate::error::{AppError, ErrView, unit_result_view};
use crate::model::strs;

verus! {

/// What a run of environment writes is doing.
pub enum EnvPhase {
    /// Writing the new values.
    Forward,
    /// A write failed with this error; the values found before are being
    /// written back.
    RollingBack(AppError),
    /// Writing back earlier values after a failed save.
    Restoring,
}

/// Model of [`EnvPhase`].
pub enum PhaseView {
    Forward,
    RollingBack(ErrView),
    Restoring,
}

impl View for EnvPhase {
    type V = PhaseView;

    open spec fn view(&self) -> PhaseView {
        match self {
            EnvPhase::Forward => PhaseView::Forward,
            EnvPhase::RollingBack(e) => PhaseView::RollingBack(e@),
            EnvPhase::Restoring => PhaseView::Restoring,
        }
    }
}

/// Model of [`EnvWrite`]: the writes of the current phase, the values found
/// before the first write, the phase, the write in flight and the variables
/// whose write-back failed.
pub struct EnvWriteView {
    pub writes: Seq<(Seq<char>, Option<Seq<char>>)>,
    pub before: Seq<(Seq<char>, Option<Seq<char>>)>,
    pub phase: PhaseView,
    pub next: nat,
    pub failures: Seq<Seq<char>>,
}

/// A run of environment writes in progress; one write is in flight.
pub struct EnvWrite {
    writes: Vec<(String, Option<String>)>,
    before: Vec<(String, Option<String>)>,
    phase: EnvPhase,
    next: usize,
    failures: Vec<String>,
}

impl View for EnvWrite {
    type V = EnvWriteView;

    closed spec fn view(&self) -> EnvWriteView {
        EnvWriteView {
            writes: env_view(self.writes@),
            before: env_view(self.before@),
            phase: self.phase@,
            next: self.next as nat,
            failures: strs(self.failures@),
        }
    }
}

impl EnvWrite {
    /// One write per managed variable, the one in flight among them; while
    /// rolling back or restoring, the writes set the values found before.
    #[verifier::type_invariant]
    spec fn well_formed(self) -> bool {
        &&& self.writes@.len() == managed_vars().len()
        &&& self.next < self.writes@.len()
        &&& (self.phase !is Forward ==> env_view(self.writes@) == writes_for(env_view(self.before@)))
    }
}

/// The next thing to do: perform a write (and report its outcome to
/// [`env_write_step`]), or stop with the run's result.
pub enum EnvStep {
    Write(EnvWrite, String, Option<String>),
    Finish(Result<Vec<(String, Option<String>)>, AppError>),
}

/// Model of [`EnvStep`].
pub enum StepView {
    Write(EnvWriteView, (Seq<char>, Option<Seq<char>>)),
    Finish(Result<Seq<(Seq<char>, Option<Seq<char>>)>, ErrView>),
}

impl View for EnvStep {
    type V = StepView;

    open spec fn view(&self) -> StepView {
        match self {
            EnvStep::Write(run, n, v) => StepView::Write(run@, (n@, v.deep_view())),
            EnvStep::Finish(r) => StepView::Finish(
                match r {
                    Ok(b) => Ok(env_view(b@)),
                    Err(e) => Err(e@),
                },
            ),
        }
    }
}

/// The error of a failed write, with the variables whose write-back failed.
pub open spec fn rollback_error_view(e: ErrView, failures: Seq<Seq<char>>) -> ErrView {
    if failures.len() == 0 {
        e
    } else {
        ErrView::Config(e.message() + "; failed to roll back environment variables: "@ + join_with(failures, ", "@))
    }
}

/// The error of a write-back that left some variables unwritten.
pub open spec fn restore_error_view(failures: Seq<Seq<char>>) -> ErrView {
    ErrView::Config("Failed to restore environment variables: "@ + join_with(failures, ", "@))
}

/// A run that writes `writes` from the first, in `phase`.
pub open spec fn run_start(
    writes: Seq<(Seq<char>, Option<Seq<char>>)>,
    before: Seq<(Seq<char>, Option<Seq<char>>)>,
    phase: PhaseView,
) -> StepView {
    StepView::Write(start_view(writes, before, phase), writes[0])
}

/// A run about to perform the first of `writes`.
pub open spec fn start_view(
    writes: Seq<(Seq<char>, Option<Seq<char>>)>,
    before: Seq<(Seq<char>, Option<Seq<char>>)>,
    phase: PhaseView,
) -> EnvWriteView {
    EnvWriteView { writes, before, phase, next: 0, failures: Seq::empty() }
}

/// The step after the write in flight succeeded (`Ok`) or failed (`Err`).
/// Writing forward, the next value is written, and after the last one the
/// run ends with the values found before; a failed write switches to writing
/// those values back, from the first managed variable. Writing back, every
/// variable is written whatever happened to the others, the failed ones are
/// collected, and after the last one the run ends: after a rollback with the
/// write's error (naming the variables that could not be written back), after
/// a restore with the values restored or the variables that failed.
pub open spec fn env_step_spec(v: EnvWriteView, written: Result<(), ErrView>) -> StepView {
    let i = v.next;
    let w = v.writes;
    match v.phase {
        PhaseView::Forward => match written {
            Ok(()) => if i + 1 < w.len() {
                StepView::Write(EnvWriteView { next: i + 1, ..v }, w[i + 1 as int])
            } else {
                StepView::Finish(Ok(v.before))
            },
            Err(e) => run_start(writes_for(v.before), v.before, PhaseView::RollingBack(e)),
        },
        _ => {
            let f = if written is Err { v.failures.push(w[i as int].0) } else { v.failures };
            if i + 1 < w.len() {
                StepView::Write(EnvWriteView { next: i + 1, failures: f, ..v }, w[i + 1 as int])
            } else {
                match v.phase {
                    PhaseView::RollingBack(e) => StepView::Finish(Err(rollback_error_view(e, f))),
                    _ => StepView::Finish(
                        if f.len() == 0 {
                            Ok(v.before)
                        } else {
                            Err(restore_error_view(f))
                        },
                    ),
                }
            }
        },
    }
}

fn start(writes: Vec<(String, Option<String>)>, before: Vec<(String, Option<String>)>, phase: EnvPhase) -> (r: EnvStep)
    requires
        writes@.len() == managed_vars().len(),
        phase !is Forward ==> env_view(writes@) == writes_for(env_view(before@)),
    ensures
        r@ == run_start(env_view(writes@), env_view(before@), phase@),
{
    let name = writes[0].0.clone();
    let value = clone_opt(&writes[0].1);
    let run = EnvWrite { writes, before, phase, next: 0, failures: Vec::new() };
    assert(strs(run.failures@) =~= Seq::<Seq<char>>::empty());
    EnvStep::Write(run, name, value)
}

/// Starts writing `values` to the managed variables; `before` holds the
/// values they have now, to be written back if a write fails.
pub fn begin_write(values: &Vec<(String, Option<String>)>, before: Vec<(String, Option<String>)>) -> (r: EnvStep)
    ensures
        r@ == run_start(writes_for(env_view(values@)), env_view(before@), PhaseView::Forward),
{
    let writes = write_plan(values);
    assert(env_view(writes@).len() == writes@.len());
    start(writes, before, EnvPhase::Forward)
}

/// Starts writing `before` back to the managed variables.
pub fn begin_restore(before: Vec<(String, Option<String>)>) -> (r: EnvStep)
    ensures
        r@ == run_start(writes_for(env_view(before@)), env_view(before@), PhaseView::Restoring),
{
    let writes = write_plan(&before);
    assert(env_view(writes@).len() == writes@.len());
    start(writes, before, EnvPhase::Restoring)
}

/// Decides what follows the write in flight, given its outcome (see
/// [`env_step_spec`]).
pub fn env_write_step(run: EnvWrite, written: Result<(), AppError>) -> (r: EnvStep)
    ensures
        r@ == env_step_spec(run@, unit_result_view(written)),
{
    proof {
        use_type_invariant(&run);
    }
    let ghost v = run@;
    let EnvWrite { writes, before, phase, next, mut failures } = run;
    let i = next;
    match phase {
        EnvPhase::Forward => match written {
            Ok(()) => {
                if i + 1 < writes.len() {
                    let name = writes[i + 1].0.clone();
                    let value = clone_opt(&writes[i + 1].1);
                    let run2 = EnvWrite { writes, before, phase: EnvPhase::Forward, next: i + 1, failures };
                    assert(run2@ == EnvWriteView { next: (i + 1) as nat, ..v });
                    EnvStep::Write(run2, name, value)
                } else {
                    EnvStep::Finish(Ok(before))
                }
            },
            Err(e) => {
                let back = write_plan(&before);
                assert(env_view(back@).len() == back@.len());
                start(back, before, EnvPhase::RollingBack(e))
            },
        },
        other => {
            let ghost f0 = strs(failures@);
            if written.is_err() {
                failures.push(writes[i].0.clone());
                assert(strs(failures@) =~= f0.push(v.writes[i as int].0));
            }
            if i + 1 < writes.len() {
                let name = writes[i + 1].0.clone();
                let value = clone_opt(&writes[i + 1].1);
                let run2 = EnvWrite { writes, before, phase: other, next: i + 1, failures };
                EnvStep::Write(run2, name, value)
            } else {
                match other {
                    EnvPhase::RollingBack(e) => EnvStep::Finish(Err(rollback_failure_error(&e, &failures))),
                    _ => {
                        if failures.len() == 0 {
                            EnvStep::Finish(Ok(before))
                        } else {
                            EnvStep::Finish(Err(restore_failure_error(&failures)))
                        }
                    },
                }
            }
        },
    }
}

/// After the store was saved (or not): a successful save keeps the applied
/// configuration; a failed one puts the previous configuration back and
/// starts writing back the environment values found before the update,
/// handing back the save's error to report once that is done.
pub fn after_persist(
    previous: CopilotCliConfig,
    applied: CopilotCliConfig,
    before: Vec<(String, Option<String>)>,
    persisted: Result<(), AppError>,
) -> (r: (CopilotCliConfig, Option<(AppError, EnvStep)>))
    ensures
        persisted is Ok ==> r.0@ == applied@ && r.1 is None,
        persisted matches Err(e) ==> r.0@ == previous@ && (r.1 matches Some((e2, step)) && e2@ == e@
            && step@ == run_start(writes_for(env_view(before@)), env_view(before@), PhaseView::Restoring)),
{
    match persisted {
        Ok(()) => (applied, None),
        Err(e) => (previous, Some((e, begin_restore(before)))),
    }
}

/// The error reported for a failed save, once the environment was written
/// back: the save's error, or, when the write-back failed too, both;
/// `restoring` tells a failed restore of the original values (whose applied
/// values were being reapplied) from a failed apply.
pub fn after_restore(error: AppError, restored: Result<Vec<(String, Option<String>)>, AppError>, restoring: bool) -> (r: AppError)
    ensures
        restored is Ok ==> r@ == error@,
        restored matches Err(x) ==> r@ == ErrView::Config(
            error@.message() + (if restoring {
                "; failed to reapply Copilot CLI environment: "@
            } else {
                "; failed to roll back Copilot CLI environment: "@
            }) + x@.message(),
        ),
{
    match restored {
        Ok(_) => error,
        Err(x) => persist_rollback_error(&error, &x, restoring),
    }
}

/// `n` successful writes.
pub open spec fn all_ok(n: nat) -> Seq<bool> {
    Seq::new(n, |j: int| true)
}

/// Running a run on an environment: `ok[j]` tells whether the `j`-th write
/// performed succeeds (a failed write leaves the environment as it was and
/// fails with `e`). The environment at the end and the run's result, when
/// the run ends within the given outcomes.
pub open spec fn drive(
    v: EnvWriteView,
    env: Map<Seq<char>, Seq<char>>,
    ok: Seq<bool>,
    e: ErrView,
) -> Option<(Map<Seq<char>, Seq<char>>, Result<Seq<(Seq<char>, Option<Seq<char>>)>, ErrView>)>
    decreases ok.len(),
{
    if ok.len() == 0 {
        None
    } else {
        let w = v.writes[v.next as int];
        let env2 = if ok[0] {
            set_var(env, w.0, w.1)
        } else {
            env
        };
        match env_step_spec(v, if ok[0] { Ok(()) } else { Err(e) }) {
            StepView::Write(v2, _) => drive(v2, env2, ok.skip(1), e),
            StepView::Finish(r) => Some((env2, r)),
        }
    }
}

/// How a write-back run ends, given the variables that failed.
pub open spec fn back_result(
    phase: PhaseView,
    failures: Seq<Seq<char>>,
    before: Seq<(Seq<char>, Option<Seq<char>>)>,
) -> Result<Seq<(Seq<char>, Option<Seq<char>>)>, ErrView> {
    match phase {
        PhaseView::RollingBack(e) => Err(rollback_error_view(e, failures)),
        _ => if failures.len() == 0 {
            Ok(before)
        } else {
            Err(restore_error_view(failures))
        },
    }
}

proof fn lemma_apply_writes_front(
    env: Map<Seq<char>, Seq<char>>,
    a: (Seq<char>, Option<Seq<char>>),
    rest: Seq<(Seq<char>, Option<Seq<char>>)>,
)
    ensures
        apply_writes(env, seq![a] + rest) == apply_writes(set_var(env, a.0, a.1), rest),
    decreases rest.len(),
{
    let s = seq![a] + rest;
    if rest.len() == 0 {
        assert(s.drop_last() =~= Seq::<(Seq<char>, Option<Seq<char>>)>::empty());
        assert(apply_writes(env, s.drop_last()) == env);
        assert(s.last() == a);
        assert(apply_writes(env, s) == set_var(env, a.0, a.1));
        assert(apply_writes(set_var(env, a.0, a.1), rest) == set_var(env, a.0, a.1));
    } else {
        assert(s.drop_last() =~= seq![a] + rest.drop_last());
        assert(s.last() == rest.last());
        lemma_apply_writes_front(env, a, rest.drop_last());
        assert(apply_writes(env, s) == set_var(apply_writes(env, s.drop_last()), rest.last().0, rest.last().1));
    }
}

proof fn lemma_drive_tail(v: EnvWriteView, env: Map<Seq<char>, Seq<char>>, e: ErrView)
    requires
        v.next < v.writes.len(),
    ensures
        drive(v, env, all_ok((v.writes.len() - v.next) as nat), e) == Some((
            apply_writes(env, v.writes.subrange(v.next as int, v.writes.len() as int)),
            if v.phase is Forward {
                Ok(v.before)
            } else {
                back_result(v.phase, v.failures, v.before)
            },
        )),
    decreases v.writes.len() - v.next,
{
    let n = v.writes.len() as int;
    let i = v.next as int;
    let ok = all_ok((n - i) as nat);
    let w = v.writes[i];
    let env2 = set_var(env, w.0, w.1);
    assert(ok[0]);
    assert(v.writes.subrange(i, n) =~= seq![w] + v.writes.subrange(i + 1, n));
    lemma_apply_writes_front(env, w, v.writes.subrange(i + 1, n));
    if i + 1 < n {
        let v2 = if v.phase is Forward { EnvWriteView { next: (i + 1) as nat, ..v } } else { EnvWriteView { next: (i + 1) as nat, failures: v.failures, ..v } };
        assert(ok.skip(1) =~= all_ok((n - (i + 1)) as nat));
        lemma_drive_tail(v2, env2, e);
    } else {
        assert(v.writes.subrange(i + 1, n) =~= Seq::<(Seq<char>, Option<Seq<char>>)>::empty());
    }
}

proof fn lemma_drive_forward_failure(v: EnvWriteView, env: Map<Seq<char>, Seq<char>>, k: int, e: ErrView)
    requires
        v.phase is Forward,
        v.next <= k < v.writes.len(),
        v.writes.len() == managed_vars().len(),
    ensures
        drive(v, env, all_ok((k - v.next) as nat) + seq![false] + all_ok(managed_vars().len()), e) == Some((
            apply_writes(apply_writes(env, v.writes.subrange(v.next as int, k)), writes_for(v.before)),
            Err::<Seq<(Seq<char>, Option<Seq<char>>)>, ErrView>(e),
        )),
    decreases k - v.next,
{
    let i = v.next as int;
    let ok = all_ok((k - i) as nat) + seq![false] + all_ok(managed_vars().len());
    let m = managed_vars().len();
    if i == k {
        assert(!ok[0]);
        assert(ok.skip(1) =~= all_ok(m));
        let v2 = start_view(writes_for(v.before), v.before, PhaseView::RollingBack(e));
        lemma_drive_tail(v2, env, e);
        assert(writes_for(v.before).subrange(0, m as int) =~= writes_for(v.before));
        assert(v.writes.subrange(i, k) =~= Seq::<(Seq<char>, Option<Seq<char>>)>::empty());
        assert(apply_writes(env, v.writes.subrange(i, k)) == env);
    } else {
        let w = v.writes[i];
        let env2 = set_var(env, w.0, w.1);
        assert(ok[0]);
        assert(ok.skip(1) =~= all_ok((k - (i + 1)) as nat) + seq![false] + all_ok(m));
        let v2 = EnvWriteView { next: (i + 1) as nat, ..v };
        lemma_drive_forward_failure(v2, env2, k, e);
        assert(v.writes.subrange(i, k) =~= seq![w] + v.writes.subrange(i + 1, k));
        lemma_apply_writes_front(env, w, v.writes.subrange(i + 1, k));
    }
}

/// Writes of managed variables leave every other variable as it was.
proof fn lemma_prefix_keeps_others(env: Map<Seq<char>, Seq<char>>, values: Seq<(Seq<char>, Option<Seq<char>>)>, k: int)
    requires
        0 <= k <= managed_vars().len(),
    ensures
        forall|n: Seq<char>| !managed_vars().contains(n) ==> #[trigger] env_get(apply_writes(env, writes_for(values).take(k)), n) == env_get(env, n),
    decreases k,
{
    let w = writes_for(values);
    if k == 0 {
        assert(w.take(0) =~= Seq::<(Seq<char>, Option<Seq<char>>)>::empty());
    } else {
        lemma_prefix_keeps_others(env, values, k - 1);
        assert(w.take(k).drop_last() =~= w.take(k - 1));
        assert(w.take(k).last() == w[k - 1]);
        assert(w[k - 1].0 == managed_vars()[k - 1]);
        assert(managed_vars().contains(managed_vars()[k - 1]));
        let prev = apply_writes(env, w.take(k - 1));
        let cur = apply_writes(env, w.take(k));
        assert(cur == set_var(prev, w[k - 1].0, w[k - 1].1));
        assert forall|n: Seq<char>| !managed_vars().contains(n) implies #[trigger] env_get(cur, n) == env_get(env, n) by {
            assert(n != w[k - 1].0);
            assert(env_get(prev, n) == env_get(env, n));
        }
    }
}

/// Writing back a snapshot of an environment restores it, whatever became
/// of the managed variables in between, as long as nothing else changed.
pub proof fn lemma_snapshot_write_back(env0: Map<Seq<char>, Seq<char>>, env1: Map<Seq<char>, Seq<char>>)
    requires
        forall|n: Seq<char>| !managed_vars().contains(n) ==> #[trigger] env_get(env1, n) == env_get(env0, n),
    ensures
        apply_writes(env1, writes_for(snapshot_spec(env0))) == env0,
{
    lemma_writes_perform(env1, snapshot_spec(env0));
    let r = write_spec(env1, snapshot_spec(env0));
    assert forall|n: Seq<char>| #[trigger] r.contains_key(n) == env0.contains_key(n) && (r.contains_key(n) ==> r[n] == env0[n]) by {
        if managed_vars().contains(n) {
            lemma_snapshot_get(env0, n);
            assert(stored_value(snapshot_spec(env0), n) == env_get(env0, n));
        } else {
            assert(env_get(env1, n) == env_get(env0, n));
        }
    }
    assert(r =~= env0);
}

/// A run whose writes all succeed sets the managed variables to the values
/// (and nothing else) and reports the values found before.
pub proof fn lemma_write_run_succeeds(
    env: Map<Seq<char>, Seq<char>>,
    values: Seq<(Seq<char>, Option<Seq<char>>)>,
    before: Seq<(Seq<char>, Option<Seq<char>>)>,
    e: ErrView,
)
    ensures
        drive(start_view(writes_for(values), before, PhaseView::Forward), env, all_ok(managed_vars().len()), e)
            == Some((write_spec(env, values), Ok::<Seq<(Seq<char>, Option<Seq<char>>)>, ErrView>(before))),
{
    let v = start_view(writes_for(values), before, PhaseView::Forward);
    lemma_drive_tail(v, env, e);
    assert(writes_for(values).subrange(0, managed_vars().len() as int) =~= writes_for(values));
    lemma_writes_perform(env, values);
}

/// Rollback of a failed write: when a write fails after the ones before it
/// succeeded, and the values found before (a snapshot of the environment)
/// are written back without a failure, the environment is exactly as it was
/// before the run, and the run reports the write's error.
pub proof fn lemma_failed_write_rolls_back(
    env: Map<Seq<char>, Seq<char>>,
    values: Seq<(Seq<char>, Option<Seq<char>>)>,
    k: int,
    e: ErrView,
)
    requires
        0 <= k < managed_vars().len(),
    ensures
        drive(
            start_view(writes_for(values), snapshot_spec(env), PhaseView::Forward),
            env,
            all_ok(k as nat) + seq![false] + all_ok(managed_vars().len()),
            e,
        ) == Some((env, Err::<Seq<(Seq<char>, Option<Seq<char>>)>, ErrView>(e))),
{
    let v = start_view(writes_for(values), snapshot_spec(env), PhaseView::Forward);
    lemma_drive_forward_failure(v, env, k, e);
    assert(all_ok((k - 0) as nat) == all_ok(k as nat));
    assert(writes_for(values).subrange(0, k) =~= writes_for(values).take(k));
    lemma_prefix_keeps_others(env, values, k);
    lemma_snapshot_write_back(env, apply_writes(env, writes_for(values).take(k)));
}

/// Rollback of a failed save: after the values were written, writing back
/// the snapshot taken before (without a failure) gives back the environment
/// as it was before the update, and the restore reports those values.
pub proof fn lemma_restore_after_failed_save(
    env: Map<Seq<char>, Seq<char>>,
    values: Seq<(Seq<char>, Option<Seq<char>>)>,
    e: ErrView,
)
    ensures
        drive(
            start_view(writes_for(snapshot_spec(env)), snapshot_spec(env), PhaseView::Restoring),
            write_spec(env, values),
            all_ok(managed_vars().len()),
            e,
        ) == Some((env, Ok::<Seq<(Seq<char>, Option<Seq<char>>)>, ErrView>(snapshot_spec(env)))),
{
    let v = start_view(writes_for(snapshot_spec(env)), snapshot_spec(env), PhaseView::Restoring);
    lemma_drive_tail(v, write_spec(env, values), e);
    assert(writes_for(snapshot_spec(env)).subrange(0, managed_vars().len() as int) =~= writes_for(snapshot_spec(env)));
    assert forall|n: Seq<char>| !managed_vars().contains(n) implies #[trigger] env_get(write_spec(env, values), n) == env_get(env, n) by {}
    lemma_snapshot_write_back(env, write_spec(env, values));
}

} // verus!
