//! The decisions of applying, undoing and redoing a batch of renames: which moves a batch
//! makes, how the two-phase move (source to a temporary name, then to the target) is
//! accounted for, what an undo or redo moves, and what a dry run reports. The moves
//! themselves and the SQLite history belong to the application.

use vstd::prelude::*;

use crate::paths::{dir_of, dir_of_path, join_path, path_join};
use crate::text::{copy_str, dec_digits, push_all, push_str, str_eq, str_to_chars, string_from_chars, u64_to_dec};

verus! {

/// One file to rename: its current path and its new filename.
pub struct RenameItem {
    pub old_path: String,
    pub new_name: String,
}

/// A file that could not be moved, and why.
pub struct Failure {
    pub path: String,
    pub error: String,
}

/// What applying a batch did.
pub struct ApplyReport {
    pub operation_id: Option<String>,
    pub renamed: usize,
    pub failures: Vec<Failure>,
    /// Set when the files were renamed but the history record could not be saved, so the
    /// batch cannot be undone from the history.
    pub history_error: Option<String>,
}

/// What an undo or a redo did.
pub struct UndoReport {
    pub reverted: usize,
    pub failures: Vec<Failure>,
}

/// A past batch as listed in the history.
pub struct Operation {
    pub id: String,
    pub created_at: String,
    pub summary: String,
    pub item_count: i64,
    /// "applied", "undone" or "partial".
    pub status: String,
}

/// One file of a past batch.
pub struct RenameEntry {
    pub old_path: String,
    pub new_path: String,
    /// "applied" or "undone".
    pub status: String,
}

/// What a dry run finds for one move.
#[derive(Clone, Copy, Debug, PartialEq, Eq, Structural)]
pub enum CheckStatus {
    /// The move would go through.
    Clear,
    Missing,
    WouldOverwrite,
}

/// A dry-run finding for one move.
pub struct FileCheck {
    pub old_path: String,
    pub new_path: String,
    pub status: CheckStatus,
}

/// A move as values: (from, to).
pub open spec fn pair_view(p: (String, String)) -> (Seq<char>, Seq<char>) {
    (p.0@, p.1@)
}

pub open spec fn pairs_view(s: Seq<(String, String)>) -> Seq<(Seq<char>, Seq<char>)> {
    s.map_values(|p: (String, String)| pair_view(p))
}

pub open spec fn failures_view(s: Seq<Failure>) -> Seq<(Seq<char>, Seq<char>)> {
    s.map_values(|f: Failure| (f.path@, f.error@))
}

fn copy_pair(p: &(String, String)) -> (r: (String, String))
    ensures
        pair_view(r) == pair_view(*p),
{
    (copy_str(p.0.as_str()), copy_str(p.1.as_str()))
}

// ---------------------------------------------------------------------------------------
// The moves of a batch
// ---------------------------------------------------------------------------------------

/// The move that renames `item`: from its path to the new name in the same directory.
pub open spec fn rename_move_spec(old_path: Seq<char>, new_name: Seq<char>) -> (
    Seq<char>,
    Seq<char>,
) {
    (old_path, path_join(dir_of(old_path), new_name))
}

/// The moves a batch of renames makes, in order.
pub fn rename_moves(items: &Vec<RenameItem>) -> (r: Vec<(String, String)>)
    ensures
        r.len() == items.len(),
        forall|i: int|
            0 <= i < items.len() ==> pair_view(#[trigger] r@[i]) == rename_move_spec(
                items@[i].old_path@,
                items@[i].new_name@,
            ),
{
    let mut out: Vec<(String, String)> = Vec::new();
    let mut i: usize = 0;
    while i < items.len()
        invariant
            i <= items.len(),
            out.len() == i,
            forall|k: int|
                0 <= k < i ==> pair_view(#[trigger] out@[k]) == rename_move_spec(
                    items@[k].old_path@,
                    items@[k].new_name@,
                ),
        decreases items.len() - i,
    {
        let it = &items[i];
        let dir = dir_of_path(it.old_path.as_str());
        let to = join_path(dir.as_str(), it.new_name.as_str());
        out.push((copy_str(it.old_path.as_str()), to));
        i = i + 1;
    }
    out
}

/// The moves that undo a batch: each move reversed, the last one first.
pub open spec fn undo_spec(s: Seq<(Seq<char>, Seq<char>)>) -> Seq<(Seq<char>, Seq<char>)> {
    Seq::new(s.len(), |i: int| (s[s.len() - 1 - i].1, s[s.len() - 1 - i].0))
}

/// The moves that undo a batch whose moves were `pairs` (old, new): each file goes from
/// its new path back to its old one, later renames first.
pub fn undo_moves(pairs: &Vec<(String, String)>) -> (r: Vec<(String, String)>)
    ensures
        pairs_view(r@) == undo_spec(pairs_view(pairs@)),
{
    let ghost pv = pairs_view(pairs@);
    let mut out: Vec<(String, String)> = Vec::new();
    let mut i: usize = pairs.len();
    while i > 0
        invariant
            i <= pairs.len(),
            pv == pairs_view(pairs@),
            pairs_view(out@) == undo_spec(pv).take(pairs.len() - i),
        decreases i,
    {
        i = i - 1;
        let p = &pairs[i];
        let ghost o0 = pairs_view(out@);
        out.push((copy_str(p.1.as_str()), copy_str(p.0.as_str())));
        assert(pairs_view(out@) =~= o0.push((pv[i as int].1, pv[i as int].0)));
        assert(pairs_view(out@) =~= undo_spec(pv).take(pairs.len() - i));
    }
    assert(undo_spec(pv).take(pairs.len() as int) =~= undo_spec(pv));
    out
}

/// Undoing the undo of a batch gives the batch back.
pub proof fn lemma_undo_involution(s: Seq<(Seq<char>, Seq<char>)>)
    ensures
        undo_spec(undo_spec(s)) == s,
{
    assert(undo_spec(undo_spec(s)) =~= s);
}

/// The history rows a finished undo marks undone: each move that happened, (new, old),
/// names the row (old, new).
pub fn undone_rows(done: &Vec<(String, String)>) -> (r: Vec<(String, String)>)
    ensures
        r.len() == done.len(),
        forall|i: int|
            0 <= i < done.len() ==> pair_view(#[trigger] r@[i]) == (done@[i].1@, done@[i].0@),
{
    let mut out: Vec<(String, String)> = Vec::new();
    let mut i: usize = 0;
    while i < done.len()
        invariant
            i <= done.len(),
            out.len() == i,
            forall|k: int|
                0 <= k < i ==> pair_view(#[trigger] out@[k]) == (done@[k].1@, done@[k].0@),
        decreases done.len() - i,
    {
        let p = &done[i];
        out.push((copy_str(p.1.as_str()), copy_str(p.0.as_str())));
        i = i + 1;
    }
    out
}

/// The summary line of a recorded batch.
pub open spec fn summary_spec(n: nat) -> Seq<char> {
    "Renamed "@ + dec_digits(n) + " file(s)"@
}

/// The summary line of a batch of `n` moves.
pub fn operation_summary(n: usize) -> (r: String)
    ensures
        r@ == summary_spec(n as nat),
{
    let mut m = str_to_chars("Renamed ");
    let d = u64_to_dec(n as u64);
    push_all(&mut m, &d);
    push_str(&mut m, " file(s)");
    string_from_chars(m.as_slice())
}

// ---------------------------------------------------------------------------------------
// Two-phase moves
// ---------------------------------------------------------------------------------------

/// The moves that have to happen: those whose source is not already their target.
pub open spec fn stage_plan_spec(m: Seq<(Seq<char>, Seq<char>)>) -> Seq<(Seq<char>, Seq<char>)>
    decreases m.len(),
{
    if m.len() == 0 {
        seq![]
    } else {
        let rest = stage_plan_spec(m.drop_last());
        if m.last().0 == m.last().1 {
            rest
        } else {
            rest.push(m.last())
        }
    }
}

/// The moves of a batch that have to happen, in order.
pub fn stage_plan(moves: &Vec<(String, String)>) -> (r: Vec<(String, String)>)
    ensures
        pairs_view(r@) == stage_plan_spec(pairs_view(moves@)),
{
    let ghost mv = pairs_view(moves@);
    let mut out: Vec<(String, String)> = Vec::new();
    let mut i: usize = 0;
    while i < moves.len()
        invariant
            i <= moves.len(),
            mv == pairs_view(moves@),
            pairs_view(out@) == stage_plan_spec(mv.take(i as int)),
        decreases moves.len() - i,
    {
        assert(mv.take(i + 1).drop_last() =~= mv.take(i as int));
        assert(mv.take(i + 1).last() == mv[i as int]);
        let p = &moves[i];
        if !str_eq(p.0.as_str(), p.1.as_str()) {
            let ghost o0 = pairs_view(out@);
            out.push(copy_pair(p));
            assert(pairs_view(out@) =~= o0.push(mv[i as int]));
        }
        i = i + 1;
    }
    assert(mv.take(moves.len() as int) =~= mv);
    out
}

/// The temporary name a file is staged under in directory `dir`; `token` makes it unique.
pub open spec fn temp_name_spec(dir: Seq<char>, token: Seq<char>) -> Seq<char> {
    path_join(dir, "."@ + token + ".lotf.tmp"@)
}

/// The temporary name a move to `to` stages its file under: hidden, in the target's
/// directory.
pub fn temp_name(to: &str, token: &str) -> (r: String)
    ensures
        r@ == temp_name_spec(dir_of(to@), token@),
{
    let dir = dir_of_path(to);
    let mut n = str_to_chars(".");
    push_str(&mut n, token);
    push_str(&mut n, ".lotf.tmp");
    let name = string_from_chars(n.as_slice());
    join_path(dir.as_str(), name.as_str())
}

/// A file moved to its temporary name, waiting for its final move.
pub struct Staged {
    pub temp: String,
    pub to: String,
    pub from: String,
}

pub open spec fn staged_view(s: Seq<Staged>) -> Seq<(Seq<char>, Seq<char>, Seq<char>)> {
    s.map_values(|x: Staged| (x.temp@, x.to@, x.from@))
}

/// The files staged after the first phase: each planned move whose staging gave a
/// temporary path, as (temp, to, from).
pub open spec fn staged_spec(plan: Seq<(Seq<char>, Seq<char>)>, res: Seq<Result<String, String>>) -> Seq<
    (Seq<char>, Seq<char>, Seq<char>),
>
    decreases plan.len(),
{
    if plan.len() == 0 || res.len() == 0 {
        seq![]
    } else {
        let rest = staged_spec(plan.drop_last(), res.drop_last());
        match res.last() {
            Ok(t) => rest.push((t@, plan.last().1, plan.last().0)),
            Err(_) => rest,
        }
    }
}

/// The failures of the first phase: each planned move whose staging failed, as
/// (from, error).
pub open spec fn stage_failures_spec(plan: Seq<(Seq<char>, Seq<char>)>, res: Seq<Result<String, String>>) -> Seq<
    (Seq<char>, Seq<char>),
>
    decreases plan.len(),
{
    if plan.len() == 0 || res.len() == 0 {
        seq![]
    } else {
        let rest = stage_failures_spec(plan.drop_last(), res.drop_last());
        match res.last() {
            Ok(_) => rest,
            Err(e) => rest.push((plan.last().0, e@)),
        }
    }
}

/// Sorts the first phase's results (`results[k]` is the temporary path of `plan[k]`, or
/// why it could not be staged) into staged files and failures.
pub fn after_staging(plan: Vec<(String, String)>, results: Vec<Result<String, String>>) -> (r: (
    Vec<Staged>,
    Vec<Failure>,
))
    requires
        plan.len() == results.len(),
    ensures
        staged_view(r.0@) == staged_spec(pairs_view(plan@), results@),
        failures_view(r.1@) == stage_failures_spec(pairs_view(plan@), results@),
{
    let ghost pall = plan@;
    let ghost pv = pairs_view(plan@);
    let ghost rv = results@;
    assert(pv.len() == plan.len());
    let mut staged: Vec<Staged> = Vec::new();
    let mut failures: Vec<Failure> = Vec::new();
    let mut plan = plan;
    let mut results = results;
    let mut i: usize = 0;
    while plan.len() > 0
        invariant
            plan.len() == results.len(),
            i + plan.len() == pv.len(),
            pv.len() == rv.len(),
            pv.len() <= usize::MAX,
            plan@ == pall.skip(i as int),
            pv == pairs_view(pall),
            results@ == rv.skip(i as int),
            staged_view(staged@) == staged_spec(pv.take(i as int), rv.take(i as int)),
            failures_view(failures@) == stage_failures_spec(pv.take(i as int), rv.take(i as int)),
        decreases plan.len(),
    {
        let ghost p0 = plan@;
        let ghost r0 = results@;
        let p = plan.remove(0);
        let res = results.remove(0);
        proof {
            assert(p == pall[i as int]);
            assert(pair_view(p) == pv[i as int]);
            assert(res == rv[i as int]);
            assert(plan@ =~= pall.skip(i + 1));
            assert(results@ =~= rv.skip(i + 1));
            assert(pv.take(i + 1).drop_last() =~= pv.take(i as int));
            assert(rv.take(i + 1).drop_last() =~= rv.take(i as int));
            assert(pv.take(i + 1).last() == pv[i as int]);
            assert(rv.take(i + 1).last() == rv[i as int]);
        }
        let (from, to) = p;
        match res {
            Ok(temp) => {
                let ghost s0 = staged_view(staged@);
                staged.push(Staged { temp, to, from });
                assert(staged_view(staged@) =~= s0.push(
                    (rv[i as int]->Ok_0@, pv[i as int].1, pv[i as int].0),
                ));
            },
            Err(e) => {
                let ghost f0 = failures_view(failures@);
                failures.push(Failure { path: from, error: e });
                assert(failures_view(failures@) =~= f0.push((pv[i as int].0, rv[i as int]->Err_0@)));
            },
        }
        i = i + 1;
    }
    proof {
        assert(pv.take(i as int) =~= pv);
        assert(rv.take(i as int) =~= rv);
    }
    (staged, failures)
}

/// How the final move of a staged file went.
pub enum CommitOutcome {
    /// The target already existed (outside the batch), so the file went back.
    DestExisted,
    Committed,
    /// The move failed with this error, and the file went back.
    Failed(String),
}

/// The moves that completed in the second phase, as (from, to).
pub open spec fn done_spec(staged: Seq<(Seq<char>, Seq<char>, Seq<char>)>, outs: Seq<CommitOutcome>) -> Seq<
    (Seq<char>, Seq<char>),
>
    decreases staged.len(),
{
    if staged.len() == 0 || outs.len() == 0 {
        seq![]
    } else {
        let rest = done_spec(staged.drop_last(), outs.drop_last());
        match outs.last() {
            CommitOutcome::Committed => rest.push((staged.last().2, staged.last().1)),
            _ => rest,
        }
    }
}

/// The message for a target that already exists.
pub open spec fn dest_exists_message(to: Seq<char>) -> Seq<char> {
    "Destination already exists: "@ + to
}

/// The failures of the second phase, as (from, error).
pub open spec fn commit_failures_spec(
    staged: Seq<(Seq<char>, Seq<char>, Seq<char>)>,
    outs: Seq<CommitOutcome>,
) -> Seq<(Seq<char>, Seq<char>)>
    decreases staged.len(),
{
    if staged.len() == 0 || outs.len() == 0 {
        seq![]
    } else {
        let rest = commit_failures_spec(staged.drop_last(), outs.drop_last());
        let x = staged.last();
        match outs.last() {
            CommitOutcome::Committed => rest,
            CommitOutcome::DestExisted => rest.push((x.2, dest_exists_message(x.1))),
            CommitOutcome::Failed(e) => rest.push((x.2, e@)),
        }
    }
}

/// Sorts the second phase's outcomes (`outcomes[k]` is how the final move of `staged[k]`
/// went) into completed moves and failures, the latter added after `failures`.
pub fn after_commits(staged: Vec<Staged>, outcomes: Vec<CommitOutcome>, failures: Vec<Failure>) -> (r: (
    Vec<(String, String)>,
    Vec<Failure>,
))
    requires
        staged.len() == outcomes.len(),
    ensures
        pairs_view(r.0@) == done_spec(staged_view(staged@), outcomes@),
        failures_view(r.1@) == failures_view(failures@) + commit_failures_spec(
            staged_view(staged@),
            outcomes@,
        ),
{
    let ghost sall = staged@;
    let ghost sv = staged_view(staged@);
    let ghost ov = outcomes@;
    assert(sv.len() == staged.len());
    let ghost f0 = failures_view(failures@);
    let mut done: Vec<(String, String)> = Vec::new();
    let mut failures = failures;
    let mut staged = staged;
    let mut outcomes = outcomes;
    let mut i: usize = 0;
    while staged.len() > 0
        invariant
            staged.len() == outcomes.len(),
            i + staged.len() == sv.len(),
            sv.len() == ov.len(),
            sv.len() <= usize::MAX,
            staged@ == sall.skip(i as int),
            sv == staged_view(sall),
            outcomes@ == ov.skip(i as int),
            pairs_view(done@) == done_spec(sv.take(i as int), ov.take(i as int)),
            failures_view(failures@) == f0 + commit_failures_spec(sv.take(i as int), ov.take(i as int)),
        decreases staged.len(),
    {
        let ghost st0 = staged@;
        let ghost oc0 = outcomes@;
        let x = staged.remove(0);
        let o = outcomes.remove(0);
        proof {
            assert(x == sall[i as int]);
            assert((x.temp@, x.to@, x.from@) == sv[i as int]);
            assert(o == ov[i as int]);
            assert(staged@ =~= sall.skip(i + 1));
            assert(outcomes@ =~= ov.skip(i + 1));
            assert(sv.take(i + 1).drop_last() =~= sv.take(i as int));
            assert(ov.take(i + 1).drop_last() =~= ov.take(i as int));
            assert(sv.take(i + 1).last() == sv[i as int]);
            assert(ov.take(i + 1).last() == ov[i as int]);
        }
        match o {
            CommitOutcome::Committed => {
                let ghost d0 = pairs_view(done@);
                done.push((x.from, x.to));
                assert(pairs_view(done@) =~= d0.push((sv[i as int].2, sv[i as int].1)));
            },
            CommitOutcome::DestExisted => {
                let mut m = str_to_chars("Destination already exists: ");
                push_str(&mut m, x.to.as_str());
                let ghost g0 = failures_view(failures@);
                failures.push(Failure { path: x.from, error: string_from_chars(m.as_slice()) });
                assert(failures_view(failures@) =~= g0.push(
                    (sv[i as int].2, dest_exists_message(sv[i as int].1)),
                ));
            },
            CommitOutcome::Failed(e) => {
                let ghost g0 = failures_view(failures@);
                failures.push(Failure { path: x.from, error: e });
                assert(failures_view(failures@) =~= g0.push((sv[i as int].2, ov[i as int]->Failed_0@)));
            },
        }
        i = i + 1;
    }
    proof {
        assert(sv.take(i as int) =~= sv);
        assert(ov.take(i as int) =~= ov);
    }
    (done, failures)
}

proof fn lemma_stage_accounting(plan: Seq<(Seq<char>, Seq<char>)>, res: Seq<Result<String, String>>)
    requires
        plan.len() == res.len(),
    ensures
        staged_spec(plan, res).len() + stage_failures_spec(plan, res).len() == plan.len(),
        forall|k: int|
            0 <= k < staged_spec(plan, res).len() ==> plan.contains(
                (#[trigger] staged_spec(plan, res)[k].2, staged_spec(plan, res)[k].1),
            ),
    decreases plan.len(),
{
    if plan.len() > 0 {
        let init = plan.drop_last();
        lemma_stage_accounting(init, res.drop_last());
        let st = staged_spec(plan, res);
        let st0 = staged_spec(init, res.drop_last());
        assert forall|k: int| 0 <= k < st.len() implies plan.contains(
            (#[trigger] st[k].2, st[k].1),
        ) by {
            if k < st0.len() {
                assert(st[k] == st0[k]);
                let j = choose|j: int| 0 <= j < init.len() && init[j] == (st0[k].2, st0[k].1);
                assert(plan[j] == init[j]);
            } else {
                assert(plan[plan.len() - 1] == plan.last());
            }
        }
    }
}

proof fn lemma_commit_accounting(staged: Seq<(Seq<char>, Seq<char>, Seq<char>)>, outs: Seq<CommitOutcome>)
    requires
        staged.len() == outs.len(),
    ensures
        done_spec(staged, outs).len() + commit_failures_spec(staged, outs).len() == staged.len(),
        forall|k: int|
            0 <= k < done_spec(staged, outs).len() ==> exists|j: int|
                0 <= j < staged.len() && #[trigger] done_spec(staged, outs)[k] == (
                    staged[j].2,
                    staged[j].1,
                ),
    decreases staged.len(),
{
    if staged.len() > 0 {
        let init = staged.drop_last();
        lemma_commit_accounting(init, outs.drop_last());
        let d = done_spec(staged, outs);
        let d0 = done_spec(init, outs.drop_last());
        assert forall|k: int| 0 <= k < d.len() implies exists|j: int|
            0 <= j < staged.len() && #[trigger] d[k] == (staged[j].2, staged[j].1) by {
            if k < d0.len() {
                assert(d[k] == d0[k]);
                let j = choose|j: int| 0 <= j < init.len() && d0[k] == (init[j].2, init[j].1);
                assert(staged[j] == init[j]);
            } else {
                assert(staged[staged.len() - 1] == staged.last());
            }
        }
    }
}

/// Every move a batch has to make ends up exactly once among the completed moves or the
/// failures, and every completed move is one of the batch's moves.
pub proof fn lemma_every_move_accounted(
    moves: Seq<(Seq<char>, Seq<char>)>,
    res: Seq<Result<String, String>>,
    outs: Seq<CommitOutcome>,
)
    requires
        res.len() == stage_plan_spec(moves).len(),
        outs.len() == staged_spec(stage_plan_spec(moves), res).len(),
    ensures
        ({
            let plan = stage_plan_spec(moves);
            let st = staged_spec(plan, res);
            let done = done_spec(st, outs);
            &&& done.len() + stage_failures_spec(plan, res).len() + commit_failures_spec(st, outs).len()
                == plan.len()
            &&& forall|k: int| 0 <= k < done.len() ==> plan.contains(#[trigger] done[k])
        }),
{
    let plan = stage_plan_spec(moves);
    let st = staged_spec(plan, res);
    lemma_stage_accounting(plan, res);
    lemma_commit_accounting(st, outs);
    let done = done_spec(st, outs);
    assert forall|k: int| 0 <= k < done.len() implies plan.contains(#[trigger] done[k]) by {
        let j = choose|j: int| 0 <= j < st.len() && done[k] == (st[j].2, st[j].1);
        assert(plan.contains((st[j].2, st[j].1)));
    }
}

// ---------------------------------------------------------------------------------------
// Reports and dry runs
// ---------------------------------------------------------------------------------------

/// The report of applying a batch: `done` are the moves that completed, `record` how
/// saving them to the history went (an operation id, or the error) when it was tried.
/// Only a batch that moved something is recorded.
pub fn apply_report(done: &Vec<(String, String)>, record: Option<Result<String, String>>, failures: Vec<Failure>) -> (r:
    ApplyReport)
    ensures
        r.renamed == done.len(),
        failures_view(r.failures@) == failures_view(failures@),
        match (done.len() > 0, record) {
            (true, Some(Ok(id))) => r.operation_id matches Some(x) && x@ == id@ && r.history_error is None,
            (true, Some(Err(e))) => r.history_error matches Some(x) && x@ == e@ && r.operation_id is None,
            _ => r.operation_id is None && r.history_error is None,
        },
{
    let (operation_id, history_error) = if done.len() == 0 {
        (None, None)
    } else {
        match record {
            Some(Ok(id)) => (Some(id), None),
            Some(Err(e)) => (None, Some(e)),
            None => (None, None),
        }
    };
    ApplyReport { operation_id, renamed: done.len(), failures, history_error }
}

/// The report of an undo or redo: how many moves completed, and the failures.
pub fn move_report(done: &Vec<(String, String)>, failures: Vec<Failure>) -> (r: UndoReport)
    ensures
        r.reverted == done.len(),
        failures_view(r.failures@) == failures_view(failures@),
{
    UndoReport { reverted: done.len(), failures }
}

/// What a dry run finds for the move `from` to `to`, given whether each exists on disk
/// and the sources of the whole batch: a target that is itself a source in the batch is
/// freed by the two-phase move, so it is no overwrite.
pub open spec fn check_spec(
    from: Seq<char>,
    to: Seq<char>,
    from_exists: bool,
    to_exists: bool,
    sources: Seq<Seq<char>>,
) -> CheckStatus {
    if from == to {
        CheckStatus::Clear
    } else if !from_exists {
        CheckStatus::Missing
    } else if to_exists && !sources.contains(to) {
        CheckStatus::WouldOverwrite
    } else {
        CheckStatus::Clear
    }
}

pub open spec fn sources_of(m: Seq<(Seq<char>, Seq<char>)>) -> Seq<Seq<char>> {
    m.map_values(|p: (Seq<char>, Seq<char>)| p.0)
}

fn is_source(moves: &Vec<(String, String)>, p: &str) -> (r: bool)
    ensures
        r == sources_of(pairs_view(moves@)).contains(p@),
{
    let ghost sv = sources_of(pairs_view(moves@));
    let mut i: usize = 0;
    while i < moves.len()
        invariant
            i <= moves.len(),
            sv == sources_of(pairs_view(moves@)),
            sv.len() == moves.len(),
            forall|k: int| 0 <= k < i ==> sv[k] != p@,
        decreases moves.len() - i,
    {
        if str_eq(moves[i].0.as_str(), p) {
            assert(sv[i as int] == p@);
            return true;
        }
        i = i + 1;
    }
    false
}

/// Checks each move (`from_exists[k]` and `to_exists[k]` say whether the source and the
/// target of `moves[k]` exist) without touching anything.
pub fn dry_run(moves: &Vec<(String, String)>, from_exists: &Vec<bool>, to_exists: &Vec<bool>) -> (r: Vec<
    FileCheck,
>)
    requires
        from_exists.len() == moves.len(),
        to_exists.len() == moves.len(),
    ensures
        r.len() == moves.len(),
        forall|k: int|
            0 <= k < moves.len() ==> {
                &&& (#[trigger] r@[k]).old_path@ == moves@[k].0@
                &&& r@[k].new_path@ == moves@[k].1@
                &&& r@[k].status == check_spec(
                    moves@[k].0@,
                    moves@[k].1@,
                    from_exists@[k],
                    to_exists@[k],
                    sources_of(pairs_view(moves@)),
                )
            },
{
    let mut out: Vec<FileCheck> = Vec::new();
    let mut i: usize = 0;
    while i < moves.len()
        invariant
            i <= moves.len(),
            from_exists.len() == moves.len(),
            to_exists.len() == moves.len(),
            out.len() == i,
            forall|k: int|
                0 <= k < i ==> {
                    &&& (#[trigger] out@[k]).old_path@ == moves@[k].0@
                    &&& out@[k].new_path@ == moves@[k].1@
                    &&& out@[k].status == check_spec(
                        moves@[k].0@,
                        moves@[k].1@,
                        from_exists@[k],
                        to_exists@[k],
                        sources_of(pairs_view(moves@)),
                    )
                },
        decreases moves.len() - i,
    {
        let p = &moves[i];
        let status = if str_eq(p.0.as_str(), p.1.as_str()) {
            CheckStatus::Clear
        } else if !from_exists[i] {
            CheckStatus::Missing
        } else if to_exists[i] && !is_source(moves, p.1.as_str()) {
            CheckStatus::WouldOverwrite
        } else {
            CheckStatus::Clear
        };
        out.push(FileCheck { old_path: copy_str(p.0.as_str()), new_path: copy_str(p.1.as_str()), status });
        i = i + 1;
    }
    out
}

// ---------------------------------------------------------------------------------------
// What a batch does to the files, and what undo and redo do
// ---------------------------------------------------------------------------------------

/// Some move of the batch starts at `k`.
pub open spec fn moves_from(m: Seq<(Seq<char>, Seq<char>)>, k: Seq<char>) -> bool {
    exists|j: int| 0 <= j < m.len() && (#[trigger] m[j]).0 == k
}

/// Some move of the batch ends at `k`.
pub open spec fn moves_to(m: Seq<(Seq<char>, Seq<char>)>, k: Seq<char>) -> bool {
    exists|j: int| 0 <= j < m.len() && (#[trigger] m[j]).1 == k
}

/// The source of the move that ends at `k`.
pub open spec fn source_of(m: Seq<(Seq<char>, Seq<char>)>, k: Seq<char>) -> Seq<char> {
    m[choose|j: int| 0 <= j < m.len() && (#[trigger] m[j]).1 == k].0
}

/// No two moves share a source, and no two share a target.
pub open spec fn moves_distinct(m: Seq<(Seq<char>, Seq<char>)>) -> bool {
    forall|i: int, j: int|
        0 <= i < m.len() && 0 <= j < m.len() && i != j ==> (#[trigger] m[i]).0 != (#[trigger] m[j]).0
            && m[i].1 != m[j].1
}

/// Every move of the batch can go through on the files `fs` (a map from path to content):
/// the moves are distinct, every source exists, and every target that exists is itself a
/// source of the batch (so nothing outside the batch is overwritten).
pub open spec fn batch_fits<V>(fs: Map<Seq<char>, V>, m: Seq<(Seq<char>, Seq<char>)>) -> bool {
    &&& moves_distinct(m)
    &&& forall|j: int| 0 <= j < m.len() ==> fs.dom().contains((#[trigger] m[j]).0)
    &&& forall|j: int|
        0 <= j < m.len() && fs.dom().contains((#[trigger] m[j]).1) ==> moves_from(m, m[j].1)
}

/// The files after every move of the batch has gone through: each target holds what its
/// source held, the sources that are not also targets are gone, the rest is untouched.
pub open spec fn batch_effect<V>(fs: Map<Seq<char>, V>, m: Seq<(Seq<char>, Seq<char>)>) -> Map<
    Seq<char>,
    V,
> {
    Map::new(
        |k: Seq<char>| moves_to(m, k) || (fs.dom().contains(k) && !moves_from(m, k)),
        |k: Seq<char>|
            if moves_to(m, k) {
                fs[source_of(m, k)]
            } else {
                fs[k]
            },
    )
}

proof fn lemma_source_of(m: Seq<(Seq<char>, Seq<char>)>, j: int)
    requires
        moves_distinct(m),
        0 <= j < m.len(),
    ensures
        source_of(m, m[j].1) == m[j].0,
{
    let k = choose|i: int| 0 <= i < m.len() && (#[trigger] m[i]).1 == m[j].1;
    assert(0 <= j < m.len() && m[j].1 == m[j].1);
    if k != j {
        assert(m[k].1 != m[j].1);
    }
}

proof fn lemma_undo_sides(m: Seq<(Seq<char>, Seq<char>)>)
    requires
        moves_distinct(m),
    ensures
        moves_distinct(undo_spec(m)),
        forall|k: Seq<char>| moves_from(undo_spec(m), k) <==> #[trigger] moves_to(m, k),
        forall|k: Seq<char>| moves_to(undo_spec(m), k) <==> #[trigger] moves_from(m, k),
        forall|j: int| 0 <= j < m.len() ==> source_of(undo_spec(m), (#[trigger] m[j]).0) == m[j].1,
{
    let u = undo_spec(m);
    let n = m.len();
    assert forall|i: int, j: int| 0 <= i < u.len() && 0 <= j < u.len() && i != j implies (
    #[trigger] u[i]).0 != (#[trigger] u[j]).0 && u[i].1 != u[j].1 by {
        assert(u[i] == (m[n - 1 - i].1, m[n - 1 - i].0));
        assert(u[j] == (m[n - 1 - j].1, m[n - 1 - j].0));
    }
    assert forall|k: Seq<char>| moves_from(u, k) <==> #[trigger] moves_to(m, k) by {
        if moves_from(u, k) {
            let i = choose|i: int| 0 <= i < u.len() && (#[trigger] u[i]).0 == k;
            assert(m[n - 1 - i].1 == k);
        }
        if moves_to(m, k) {
            let j = choose|j: int| 0 <= j < m.len() && (#[trigger] m[j]).1 == k;
            assert(u[n - 1 - j].0 == k);
        }
    }
    assert forall|k: Seq<char>| moves_to(u, k) <==> #[trigger] moves_from(m, k) by {
        if moves_to(u, k) {
            let i = choose|i: int| 0 <= i < u.len() && (#[trigger] u[i]).1 == k;
            assert(m[n - 1 - i].0 == k);
        }
        if moves_from(m, k) {
            let j = choose|j: int| 0 <= j < m.len() && (#[trigger] m[j]).0 == k;
            assert(u[n - 1 - j].1 == k);
        }
    }
    assert forall|j: int| 0 <= j < m.len() implies source_of(u, (#[trigger] m[j]).0) == m[j].1 by {
        assert(u[n - 1 - j] == (m[j].1, m[j].0));
        lemma_source_of(u, n - 1 - j);
    }
}

/// Undoing a batch whose moves all went through, with nothing changed since, puts every
/// file back where it was; redoing it afterwards gives the files the batch left.
pub proof fn lemma_undo_redo_round_trip<V>(fs: Map<Seq<char>, V>, m: Seq<(Seq<char>, Seq<char>)>)
    requires
        batch_fits(fs, m),
    ensures
        batch_effect(batch_effect(fs, m), undo_spec(m)) == fs,
        batch_effect(batch_effect(batch_effect(fs, m), undo_spec(m)), m) == batch_effect(fs, m),
{
    let u = undo_spec(m);
    let fs1 = batch_effect(fs, m);
    let fs2 = batch_effect(fs1, u);
    lemma_undo_sides(m);
    assert forall|k: Seq<char>| #[trigger] fs2.dom().contains(k) <==> fs.dom().contains(k) by {
        if moves_from(m, k) {
            let j = choose|j: int| 0 <= j < m.len() && (#[trigger] m[j]).0 == k;
            assert(fs.dom().contains(m[j].0));
        }
        if fs.dom().contains(k) && moves_to(m, k) {
            let j = choose|j: int| 0 <= j < m.len() && (#[trigger] m[j]).1 == k;
            assert(moves_from(m, m[j].1));
        }
    }
    assert forall|k: Seq<char>| fs2.dom().contains(k) implies #[trigger] fs2[k] == fs[k] by {
        if moves_from(m, k) {
            let j = choose|j: int| 0 <= j < m.len() && (#[trigger] m[j]).0 == k;
            assert(source_of(u, k) == m[j].1);
            assert(moves_to(m, m[j].1));
            lemma_source_of(m, j);
        }
    }
    assert(fs2 =~= fs);
}

} // verus!
