use vstd::prelude::*;

verus! {

/// The statement shapes the reachability analysis distinguishes.  Everything
/// else (expression statements, declarations, blocks, loops) falls through to
/// the next statement and is modelled as `Other`.
#[derive(Debug)]
pub enum Stmt {
    Return,
    Throw,
    Continue,
    Break,
    If { cons: Box<Stmt>, alt: Option<Box<Stmt>> },
    Other,
}

/// May executing this one statement fall through to the statement after it?
/// `return`, `throw` and `continue` never do; `break` transfers out of the
/// enclosing construct instead; an `if` falls through when its test can be
/// false with no `else`, or when either arm falls through.
pub open spec fn stmt_may_complete(s: Stmt) -> bool
    decreases s,
{
    match s {
        Stmt::Return => false,
        Stmt::Throw => false,
        Stmt::Continue => false,
        Stmt::Break => false,
        Stmt::If { cons, alt } => match alt {
            Some(a) => stmt_may_complete(*cons) || stmt_may_complete(*a),
            None => true,
        },
        Stmt::Other => true,
    }
}

/// May executing this one statement reach a `break`?
pub open spec fn stmt_may_break(s: Stmt) -> bool
    decreases s,
{
    match s {
        Stmt::Break => true,
        Stmt::If { cons, alt } => stmt_may_break(*cons) || (alt matches Some(a) && stmt_may_break(
            *a,
        )),
        _ => false,
    }
}

/// The reference judgment: may some execution of the list fall out its
/// bottom?  Reaching the end does, and so does a `break`, which transfers to
/// just after the enclosing construct.
pub open spec fn list_may_fall_out(ss: Seq<Stmt>) -> bool
    decreases ss,
{
    if ss.len() == 0 {
        true
    } else {
        stmt_may_break(ss[0]) || (stmt_may_complete(ss[0]) && list_may_fall_out(ss.drop_first()))
    }
}

/// A statement list is an unconditional terminator when no execution of it
/// can fall out the bottom.
pub open spec fn unconditional_termination_v(ss: Seq<Stmt>) -> bool {
    !list_may_fall_out(ss)
}

/// Decide whether one statement may fall through, and whether it may break.
fn stmt_flags(s: &Stmt) -> (r: (bool, bool))
    ensures
        r.0 == stmt_may_complete(*s),
        r.1 == stmt_may_break(*s),
    decreases *s,
{
    match s {
        Stmt::Return => (false, false),
        Stmt::Throw => (false, false),
        Stmt::Continue => (false, false),
        Stmt::Break => (false, true),
        Stmt::If { cons, alt } => {
            let (cc, cb) = stmt_flags(cons);
            match alt {
                Some(a) => {
                    let (ac, ab) = stmt_flags(a);
                    (cc || ac, cb || ab)
                }
                None => (true, cb),
            }
        }
        Stmt::Other => (true, false),
    }
}

/// Returns true exactly when no execution of `body` can fall out its bottom:
/// its statements, in order, always reach a `return`, `throw` or `continue`
/// before the end, counting `break` as falling out (it transfers past the
/// enclosing switch) and an `if`/`else` as terminating only when both of its
/// arms do.
pub fn is_switch_case_body_unconditional_termination(body: &Vec<Stmt>) -> (r: bool)
    ensures
        r == unconditional_termination_v(body@),
{
    let n = body.len();
    proof {
        assert(body@.skip(0) =~= body@);
    }
    for i in 0..n
        invariant
            n == body@.len(),
            list_may_fall_out(body@) == list_may_fall_out(body@.skip(i as int)),
    {
        proof {
            assert(body@.skip(i as int).drop_first() =~= body@.skip(i + 1));
            assert(body@.skip(i as int)[0] == body@[i as int]);
        }
        let (may_complete, may_break) = stmt_flags(&body[i]);
        if may_break {
            return false;
        }
        if !may_complete {
            return true;
        }
    }
    proof {
        assert(body@.skip(n as int) =~= Seq::<Stmt>::empty());
    }
    false
}

/// The syntactic tail judgment that drives after-branch fact hoisting: the
/// list's final statement is `return`, `throw` or `continue`, or an
/// `if`/`else` both of whose arms end that way.  `break` does not count.
pub open spec fn tail_terminates(s: Stmt) -> bool
    decreases s,
{
    match s {
        Stmt::Return => true,
        Stmt::Throw => true,
        Stmt::Continue => true,
        Stmt::If { cons, alt } => alt matches Some(a) && tail_terminates(*cons) && tail_terminates(
            *a,
        ),
        _ => false,
    }
}

pub open spec fn ends_with_ret_v(ss: Seq<Stmt>) -> bool {
    ss.len() > 0 && tail_terminates(ss.last())
}

fn stmt_tail_terminates(s: &Stmt) -> (r: bool)
    ensures
        r == tail_terminates(*s),
    decreases *s,
{
    match s {
        Stmt::Return => true,
        Stmt::Throw => true,
        Stmt::Continue => true,
        Stmt::If { cons, alt } => match alt {
            Some(a) => stmt_tail_terminates(cons) && stmt_tail_terminates(a),
            None => false,
        },
        _ => false,
    }
}

/// Does the statement list end with a `return`, `throw` or `continue`, or an
/// `if`/`else` both of whose arms do?
pub fn ends_with_ret(ss: &Vec<Stmt>) -> (r: bool)
    ensures
        r == ends_with_ret_v(ss@),
{
    if ss.len() == 0 {
        return false;
    }
    stmt_tail_terminates(&ss[ss.len() - 1])
}

} // verus!
