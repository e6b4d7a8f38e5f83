//! Evaluation of expressions and rendering of templates against a store of
//! variables and the registered functions.
//!
//! Evaluation is a function of the expression, the interner's table, the
//! variables and the registered names, up to the first call of a host
//! function. From there on the host decides, and the outcome is `Host`.

use vstd::prelude::*;
use crate::ast::{Args, Expr, Template, Value};
use crate::ast::intern::Interner;
use crate::host::{Context, find_fn, FnSig, Functions, lookup};
use crate::value::{
    apply_binary, apply_unary, binary_value, push_text, push_value, RuntimeError, text_of,
    unary_value, value_text,
};

verus! {

/// How a computation ends.
pub enum Outcome<T> {
    /// With a result.
    Done(T),
    /// With an error.
    Fail(RuntimeError),
    /// In a call of a host function, which decides what follows.
    Host,
}

/// The outcome of a computation and the interner's table after it.
pub struct Evaluated<T> {
    pub table: Seq<Seq<char>>,
    pub out: Outcome<T>,
}

pub open spec fn done<T>(table: Seq<Seq<char>>, v: T) -> Evaluated<T> {
    Evaluated { table, out: Outcome::Done(v) }
}

pub open spec fn fail<T>(table: Seq<Seq<char>>, e: RuntimeError) -> Evaluated<T> {
    Evaluated { table, out: Outcome::Fail(e) }
}

pub open spec fn host<T>(table: Seq<Seq<char>>) -> Evaluated<T> {
    Evaluated { table, out: Outcome::Host }
}

/// The number of arguments in a list, as far as a `usize` counts.
pub open spec fn count_args(args: Args) -> usize
    decreases args,
{
    match args {
        Args::Nil => 0,
        Args::Cons(_, rest) => if count_args(*rest) < usize::MAX {
            (count_args(*rest) + 1) as usize
        } else {
            usize::MAX
        },
    }
}

/// The value of an expression.
///
/// A variable that was never set is the number zero. Both operands of a
/// binary operator are evaluated, the left one first. A call needs a
/// registered function of that name and as many arguments as it takes; its
/// arguments are evaluated first to last, and then the host has the word.
pub open spec fn eval(
    e: Expr,
    table: Seq<Seq<char>>,
    vars: Map<u32, Value>,
    fns: Seq<FnSig>,
) -> Evaluated<Value>
    decreases e,
{
    match e {
        Expr::Number(n) => done(table, Value::Number(n)),
        Expr::Text(k) => done(table, Value::String(k)),
        Expr::Var(k) => match lookup(vars, k) {
            Some(v) => done(table, v),
            None => done(table, Value::Number(0)),
        },
        Expr::Unary(op, a) => {
            let ra = eval(*a, table, vars, fns);
            match ra.out {
                Outcome::Done(x) => match unary_value(op, x) {
                    Ok(v) => done(ra.table, v),
                    Err(err) => fail(ra.table, err),
                },
                _ => ra,
            }
        },
        Expr::Binary(op, a, b) => {
            let ra = eval(*a, table, vars, fns);
            match ra.out {
                Outcome::Done(x) => {
                    let rb = eval(*b, ra.table, vars, fns);
                    match rb.out {
                        Outcome::Done(y) => match binary_value(op, x, y, rb.table) {
                            (t, Ok(v)) => done(t, v),
                            (t, Err(err)) => fail(t, err),
                        },
                        _ => rb,
                    }
                },
                _ => ra,
            }
        },
        Expr::Call(name, args) => match find_fn(fns, name) {
            None => fail(table, RuntimeError::UnknownFunction(name)),
            Some(i) => if !(0 <= i < fns.len()) || fns[i].arity != count_args(args) {
                fail(
                    table,
                    RuntimeError::ArityMismatch(
                        name,
                        if 0 <= i < fns.len() {
                            fns[i].arity
                        } else {
                            0
                        },
                        count_args(args),
                    ),
                )
            } else {
                let ra = eval_args(args, table, vars, fns);
                match ra.out {
                    Outcome::Fail(err) => fail(ra.table, err),
                    _ => host(ra.table),
                }
            },
        },
    }
}

/// The values of the arguments of a call, first to last.
pub open spec fn eval_args(
    args: Args,
    table: Seq<Seq<char>>,
    vars: Map<u32, Value>,
    fns: Seq<FnSig>,
) -> Evaluated<Seq<Value>>
    decreases args,
{
    match args {
        Args::Nil => done(table, Seq::empty()),
        Args::Cons(first, rest) => {
            let ra = eval(*first, table, vars, fns);
            match ra.out {
                Outcome::Done(x) => {
                    let rb = eval_args(*rest, ra.table, vars, fns);
                    match rb.out {
                        Outcome::Done(more) => done(rb.table, seq![x] + more),
                        _ => rb,
                    }
                },
                Outcome::Fail(err) => fail(ra.table, err),
                Outcome::Host => host(ra.table),
            }
        },
    }
}

/// The arguments of a call as the host gets them: the text of each value,
/// first to last, each read with the table as it stands when that argument
/// has been evaluated.
pub open spec fn args_texts(
    args: Args,
    table: Seq<Seq<char>>,
    vars: Map<u32, Value>,
    fns: Seq<FnSig>,
) -> Seq<Seq<char>>
    decreases args,
{
    match args {
        Args::Nil => Seq::empty(),
        Args::Cons(first, rest) => {
            let ra = eval(*first, table, vars, fns);
            match ra.out {
                Outcome::Done(x) => seq![value_text(ra.table, x)] + args_texts(
                    *rest,
                    ra.table,
                    vars,
                    fns,
                ),
                _ => Seq::empty(),
            }
        },
    }
}

/// The text of a template: its literal pieces as they are, and the value
/// of each expression in its place.
pub open spec fn render(
    tpl: Template,
    table: Seq<Seq<char>>,
    vars: Map<u32, Value>,
    fns: Seq<FnSig>,
) -> Evaluated<Seq<char>>
    decreases tpl,
{
    match tpl {
        Template::End => done(table, Seq::empty()),
        Template::Lit(k, rest) => {
            let r = render(*rest, table, vars, fns);
            match r.out {
                Outcome::Done(t) => done(r.table, text_of(table, k) + t),
                _ => r,
            }
        },
        Template::Hole(e, rest) => {
            let v = eval(*e, table, vars, fns);
            match v.out {
                Outcome::Done(x) => {
                    let r = render(*rest, v.table, vars, fns);
                    match r.out {
                        Outcome::Done(t) => done(r.table, value_text(v.table, x) + t),
                        _ => r,
                    }
                },
                Outcome::Fail(err) => fail(v.table, err),
                Outcome::Host => host(v.table),
            }
        },
    }
}

/// An executable result `r`, with the table and the variables after it,
/// is what `o` says; where `o` ends in the host, anything is.
pub open spec fn settled<T>(
    o: Evaluated<T>,
    r: Result<T, RuntimeError>,
    table: Seq<Seq<char>>,
    vars: Map<u32, Value>,
    vars_before: Map<u32, Value>,
) -> bool {
    match o.out {
        Outcome::Done(v) => r == Ok::<T, RuntimeError>(v) && table == o.table && vars
            == vars_before,
        Outcome::Fail(e) => r == Err::<T, RuntimeError>(e) && table == o.table && vars
            == vars_before,
        Outcome::Host => true,
    }
}

fn args_count(args: &Args) -> (n: usize)
    ensures
        n == count_args(*args),
    decreases *args,
{
    match args {
        Args::Nil => 0,
        Args::Cons(_, rest) => {
            let m = args_count(rest);
            if m < usize::MAX {
                m + 1
            } else {
                m
            }
        },
    }
}

/// Evaluates an expression.
pub fn evaluate<C: Context>(
    e: &Expr,
    interner: &mut Interner,
    ctx: &mut C,
    host: &mut Functions<C>,
) -> (r: Result<Value, RuntimeError>)
    requires
        old(interner).wf(),
        old(host).wf(),
    ensures
        final(interner).wf(),
        crate::ast::intern::extends(final(interner)@, old(interner)@),
        final(host).wf(),
        final(host).sigs() == old(host).sigs(),
        final(host).callables().len() == old(host).callables().len(),
        settled(
            eval(*e, old(interner)@, old(ctx).vars(), old(host).sigs()),
            r,
            final(interner)@,
            final(ctx).vars(),
            old(ctx).vars(),
        ),
    decreases *e,
{
    match e {
        Expr::Number(n) => Ok(Value::Number(*n)),
        Expr::Text(k) => Ok(Value::String(*k)),
        Expr::Var(k) => match ctx.get_var(*k) {
            Some(v) => Ok(v),
            None => Ok(Value::Number(0)),
        },
        Expr::Unary(op, a) => {
            let x = evaluate(a, interner, ctx, host)?;
            apply_unary(*op, x)
        },
        Expr::Binary(op, a, b) => {
            let x = evaluate(a, interner, ctx, host)?;
            let y = evaluate(b, interner, ctx, host)?;
            apply_binary(*op, x, y, interner)
        },
        Expr::Call(name, args) => match host.find(*name) {
            None => Err(RuntimeError::UnknownFunction(*name)),
            Some(i) => {
                let takes = host.arity(i);
                let given = args_count(args);
                if takes != given {
                    return Err(RuntimeError::ArityMismatch(*name, takes, given));
                }
                let mut texts: Vec<String> = Vec::new();
                evaluate_args(args, interner, ctx, host, &mut texts)?;
                Ok(host.invoke(i, ctx, &texts))
            },
        },
    }
}

/// Evaluates the arguments of a call and appends the text of each to
/// `texts`, in their order: what the host function is handed.
fn evaluate_args<C: Context>(
    args: &Args,
    interner: &mut Interner,
    ctx: &mut C,
    host: &mut Functions<C>,
    texts: &mut Vec<String>,
) -> (r: Result<(), RuntimeError>)
    requires
        old(interner).wf(),
        old(host).wf(),
    ensures
        final(interner).wf(),
        crate::ast::intern::extends(final(interner)@, old(interner)@),
        final(host).wf(),
        final(host).sigs() == old(host).sigs(),
        final(host).callables().len() == old(host).callables().len(),
        match eval_args(*args, old(interner)@, old(ctx).vars(), old(host).sigs()).out {
            Outcome::Done(_) => r is Ok && final(interner)@ == eval_args(
                *args,
                old(interner)@,
                old(ctx).vars(),
                old(host).sigs(),
            ).table && final(ctx).vars() == old(ctx).vars() && crate::event::texts(final(texts)@) == crate::event::texts(
                old(texts)@,
            ) + args_texts(*args, old(interner)@, old(ctx).vars(), old(host).sigs()),
            Outcome::Fail(e) => r == Err::<(), RuntimeError>(e) && final(interner)@ == eval_args(
                *args,
                old(interner)@,
                old(ctx).vars(),
                old(host).sigs(),
            ).table && final(ctx).vars() == old(ctx).vars(),
            Outcome::Host => true,
        },
    decreases *args,
{
    match args {
        Args::Nil => {
            assert(crate::event::texts(texts@) + Seq::<Seq<char>>::empty() =~= crate::event::texts(texts@));
            Ok(())
        },
        Args::Cons(first, rest) => {
            let x = evaluate(first, interner, ctx, host)?;
            let ghost table = interner@;
            let mut text = String::new();
            push_value(&mut text, interner, x);
            assert(text@ =~= value_text(table, x));
            let ghost before = crate::event::texts(texts@);
            texts.push(text);
            assert(crate::event::texts(texts@) =~= before + seq![value_text(table, x)]);
            let r = evaluate_args(rest, interner, ctx, host, texts);
            proof {
                let tail = args_texts(**rest, table, old(ctx).vars(), old(host).sigs());
                assert((before + seq![value_text(table, x)]) + tail =~= before + (
                seq![value_text(table, x)] + tail));
            }
            r
        },
    }
}

/// Renders a template and appends its text to `out`.
pub fn render_into<C: Context>(
    tpl: &Template,
    interner: &mut Interner,
    ctx: &mut C,
    host: &mut Functions<C>,
    out: &mut String,
) -> (r: Result<(), RuntimeError>)
    requires
        old(interner).wf(),
        old(host).wf(),
    ensures
        final(interner).wf(),
        crate::ast::intern::extends(final(interner)@, old(interner)@),
        final(host).wf(),
        final(host).sigs() == old(host).sigs(),
        final(host).callables().len() == old(host).callables().len(),
        match render(*tpl, old(interner)@, old(ctx).vars(), old(host).sigs()).out {
            Outcome::Done(t) => r is Ok && final(out)@ == old(out)@ + t && final(interner)@
                == render(*tpl, old(interner)@, old(ctx).vars(), old(host).sigs()).table
                && final(ctx).vars() == old(ctx).vars(),
            Outcome::Fail(e) => r == Err::<(), RuntimeError>(e) && final(interner)@ == render(
                *tpl,
                old(interner)@,
                old(ctx).vars(),
                old(host).sigs(),
            ).table && final(ctx).vars() == old(ctx).vars(),
            Outcome::Host => true,
        },
    decreases *tpl,
{
    match tpl {
        Template::End => {
            assert(out@ =~= old(out)@ + Seq::<char>::empty());
            Ok(())
        },
        Template::Lit(k, rest) => {
            push_text(out, interner, *k);
            let r = render_into(rest, interner, ctx, host, out);
            proof {
                let spec = render(**rest, old(interner)@, old(ctx).vars(), old(host).sigs());
                if let Outcome::Done(t) = spec.out {
                    assert(out@ =~= old(out)@ + (text_of(old(interner)@, *k) + t));
                }
            }
            r
        },
        Template::Hole(e, rest) => {
            let x = evaluate(e, interner, ctx, host)?;
            let ghost table = interner@;
            push_value(out, interner, x);
            let r = render_into(rest, interner, ctx, host, out);
            proof {
                let first = eval(**e, old(interner)@, old(ctx).vars(), old(host).sigs());
                if let Outcome::Done(_) = first.out {
                    let spec = render(**rest, table, old(ctx).vars(), old(host).sigs());
                    if let Outcome::Done(t) = spec.out {
                        assert(out@ =~= old(out)@ + (value_text(table, x) + t));
                    }
                }
            }
            r
        },
    }
}

} // verus!
