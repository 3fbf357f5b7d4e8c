//! The decisions of the walk of `find`: which metadata to read, and the
//! evaluation of the expression, which hands each action it reaches to the
//! caller and goes on with what the action gave.
use vstd::prelude::*;
use crate::find::expression::{Action, Expression, SAction, SExpr};
use crate::find::parser::FollowSymlinks;
use crate::find::evaluate::{EvalContext, context_ok, test_holds};

verus! {

/// What an action gave: go on (true), false (a failed `-exec`), prune the
/// directory, or quit.
#[derive(Debug, Clone, Copy, PartialEq, Eq, Structural)]
pub enum ActionResult {
    Continue,
    False,
    Prune,
    Quit,
}

/// The value of an expression: whether it held, whether to prune, whether
/// to quit.
#[derive(Debug, Clone, Copy, PartialEq, Eq, Structural)]
pub struct Verdict {
    pub result: bool,
    pub prune: bool,
    pub quit: bool,
}

/// A step of the evaluation: done, or an action to run first.
pub enum EvalStep<'a> {
    Done(Verdict),
    Run(&'a Action),
}

/// A step of the evaluation, as contracts speak of it.
pub enum SEvalStep {
    Done(Verdict),
    Run(SAction),
}

pub open spec fn step_view(s: EvalStep) -> SEvalStep {
    match s {
        EvalStep::Done(v) => SEvalStep::Done(v),
        EvalStep::Run(a) => SEvalStep::Run(a@),
    }
}

/// The verdict of an action's result.
pub open spec fn action_verdict(r: ActionResult) -> Verdict {
    match r {
        ActionResult::Continue => Verdict { result: true, prune: false, quit: false },
        ActionResult::False => Verdict { result: false, prune: false, quit: false },
        ActionResult::Prune => Verdict { result: true, prune: true, quit: false },
        ActionResult::Quit => Verdict { result: true, prune: false, quit: true },
    }
}

/// The evaluation of `e`, the actions it reaches having given `outs` in
/// order: the step, and how many results it used. Each action that has no
/// result yet is where the evaluation stops. `-a` skips its right side when
/// the left is false, `-o` when it is true, and every operator stops at a
/// quit; prune requests add up.
pub open spec fn eval_spec(e: SExpr, c: &EvalContext, outs: Seq<ActionResult>) -> (SEvalStep, nat)
    decreases e,
{
    match e {
        SExpr::Test(t) => (SEvalStep::Done(Verdict { result: test_holds(t, c), prune: false, quit: false }), 0),
        SExpr::Action(a) => if outs.len() > 0 {
            (SEvalStep::Done(action_verdict(outs[0])), 1)
        } else {
            (SEvalStep::Run(a), 0)
        },
        SExpr::Not(x) => match eval_spec(*x, c, outs) {
            (SEvalStep::Done(v), n) => (SEvalStep::Done(Verdict { result: !v.result, ..v }), n),
            other => other,
        },
        SExpr::And(l, r) => match eval_spec(*l, c, outs) {
            (SEvalStep::Done(v), n) => if v.quit {
                (SEvalStep::Done(v), n)
            } else if !v.result {
                (SEvalStep::Done(Verdict { result: false, prune: v.prune, quit: false }), n)
            } else {
                second(v, eval_spec(*r, c, outs.skip(n as int)), n)
            },
            other => other,
        },
        SExpr::Or(l, r) => match eval_spec(*l, c, outs) {
            (SEvalStep::Done(v), n) => if v.quit {
                (SEvalStep::Done(v), n)
            } else if v.result {
                (SEvalStep::Done(Verdict { result: true, prune: v.prune, quit: false }), n)
            } else {
                second(v, eval_spec(*r, c, outs.skip(n as int)), n)
            },
            other => other,
        },
        SExpr::List(l, r) => match eval_spec(*l, c, outs) {
            (SEvalStep::Done(v), n) => if v.quit {
                (SEvalStep::Done(Verdict { result: false, prune: v.prune, quit: true }), n)
            } else {
                second(v, eval_spec(*r, c, outs.skip(n as int)), n)
            },
            other => other,
        },
    }
}

/// The right side's step after a left side that gave `v` using `n` results.
pub open spec fn second(v: Verdict, right: (SEvalStep, nat), n: nat) -> (SEvalStep, nat) {
    match right {
        (SEvalStep::Done(w), m) => (SEvalStep::Done(Verdict { result: w.result, prune: v.prune || w.prune, quit: w.quit }), n + m),
        (SEvalStep::Run(a), m) => (SEvalStep::Run(a), n + m),
    }
}

/// The verdict of an action's result.
fn verdict_of(r: ActionResult) -> (v: Verdict)
    ensures
        v == action_verdict(r),
{
    match r {
        ActionResult::Continue => Verdict { result: true, prune: false, quit: false },
        ActionResult::False => Verdict { result: false, prune: false, quit: false },
        ActionResult::Prune => Verdict { result: true, prune: true, quit: false },
        ActionResult::Quit => Verdict { result: true, prune: false, quit: true },
    }
}

/// Evaluates the expression for a file, with `outs[from..]` the results of
/// the actions already run, in order: the step (done, or the next action to
/// run) and how many results it used.
pub fn evaluate_expression<'a>(expr: &'a Expression, ctx: &EvalContext, outs: &[ActionResult], from: usize) -> (r: (EvalStep<'a>, usize))
    requires
        context_ok(ctx),
        from <= outs.len(),
    ensures
        (step_view(r.0), r.1 as nat) == eval_spec(expr@, ctx, outs@.skip(from as int)),
        from + r.1 <= outs.len(),
    decreases expr,
{
    match expr {
        Expression::Test(t) => (EvalStep::Done(Verdict { result: t.evaluate(ctx), prune: false, quit: false }), 0),
        Expression::Action(a) => {
            if from < outs.len() {
                (EvalStep::Done(verdict_of(outs[from])), 1)
            } else {
                (EvalStep::Run(a), 0)
            }
        },
        Expression::Not(x) => {
            let (s, n) = evaluate_expression(x, ctx, outs, from);
            match s {
                EvalStep::Done(v) => (EvalStep::Done(Verdict { result: !v.result, prune: v.prune, quit: v.quit }), n),
                EvalStep::Run(a) => (EvalStep::Run(a), n),
            }
        },
        Expression::And(l, r) => {
            let (s, n) = evaluate_expression(l, ctx, outs, from);
            match s {
                EvalStep::Done(v) => {
                    if v.quit {
                        (EvalStep::Done(v), n)
                    } else if !v.result {
                        (EvalStep::Done(Verdict { result: false, prune: v.prune, quit: false }), n)
                    } else {
                        proof {
                            assert(outs@.skip(from as int).skip(n as int) =~= outs@.skip(from + n));
                        }
                        let (s2, m) = evaluate_expression(r, ctx, outs, from + n);
                        join_second(v, s2, m, n)
                    }
                },
                EvalStep::Run(a) => (EvalStep::Run(a), n),
            }
        },
        Expression::Or(l, r) => {
            let (s, n) = evaluate_expression(l, ctx, outs, from);
            match s {
                EvalStep::Done(v) => {
                    if v.quit {
                        (EvalStep::Done(v), n)
                    } else if v.result {
                        (EvalStep::Done(Verdict { result: true, prune: v.prune, quit: false }), n)
                    } else {
                        proof {
                            assert(outs@.skip(from as int).skip(n as int) =~= outs@.skip(from + n));
                        }
                        let (s2, m) = evaluate_expression(r, ctx, outs, from + n);
                        join_second(v, s2, m, n)
                    }
                },
                EvalStep::Run(a) => (EvalStep::Run(a), n),
            }
        },
        Expression::List(l, r) => {
            let (s, n) = evaluate_expression(l, ctx, outs, from);
            match s {
                EvalStep::Done(v) => {
                    if v.quit {
                        (EvalStep::Done(Verdict { result: false, prune: v.prune, quit: true }), n)
                    } else {
                        proof {
                            assert(outs@.skip(from as int).skip(n as int) =~= outs@.skip(from + n));
                        }
                        let (s2, m) = evaluate_expression(r, ctx, outs, from + n);
                        join_second(v, s2, m, n)
                    }
                },
                EvalStep::Run(a) => (EvalStep::Run(a), n),
            }
        },
    }
}

/// Combines a left verdict with the right side's step.
fn join_second<'a>(v: Verdict, s2: EvalStep<'a>, m: usize, n: usize) -> (r: (EvalStep<'a>, usize))
    requires
        n + m <= usize::MAX,
    ensures
        (step_view(r.0), r.1 as nat) == second(v, (step_view(s2), m as nat), n as nat),
{
    match s2 {
        EvalStep::Done(w) => (EvalStep::Done(Verdict { result: w.result, prune: v.prune || w.prune, quit: w.quit }), n + m),
        EvalStep::Run(a) => (EvalStep::Run(a), n + m),
    }
}

/// Whether the metadata of a file is read through a symbolic link: always
/// with `-L`, for the starting points with `-H`, never with `-P`.
pub fn should_follow_metadata(mode: FollowSymlinks, is_commandline_arg: bool) -> (r: bool)
    ensures
        r == match mode {
            FollowSymlinks::Always => true,
            FollowSymlinks::Commandline => is_commandline_arg,
            FollowSymlinks::Never => false,
        },
{
    match mode {
        FollowSymlinks::Always => true,
        FollowSymlinks::Commandline => is_commandline_arg,
        FollowSymlinks::Never => false,
    }
}

/// Whether the expression holds an action other than `-prune`, which turns
/// off the default `-print`.
pub open spec fn has_non_default_action(e: SExpr) -> bool
    decreases e,
{
    match e {
        SExpr::Action(a) => !(a is Prune),
        SExpr::Test(_) => false,
        SExpr::Not(x) => has_non_default_action(*x),
        SExpr::And(a, b) => has_non_default_action(*a) || has_non_default_action(*b),
        SExpr::Or(a, b) => has_non_default_action(*a) || has_non_default_action(*b),
        SExpr::List(a, b) => has_non_default_action(*a) || has_non_default_action(*b),
    }
}

/// Whether the expression holds an action other than `-prune`.
pub fn contains_non_default_action(expr: &Expression) -> (r: bool)
    ensures
        r == has_non_default_action(expr@),
    decreases expr,
{
    match expr {
        Expression::Action(action) => !matches!(action, Action::Prune),
        Expression::Test(_) => false,
        Expression::Not(e) => contains_non_default_action(e),
        Expression::And(a, b) => contains_non_default_action(a) || contains_non_default_action(b),
        Expression::Or(a, b) => contains_non_default_action(a) || contains_non_default_action(b),
        Expression::List(a, b) => contains_non_default_action(a) || contains_non_default_action(b),
    }
}

} // verus!
