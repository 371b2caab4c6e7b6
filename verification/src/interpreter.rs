//! Tree-walking evaluator.
//!
//! The interpreter walks statements and expressions over a chain of
//! lexically scoped environments held in an arena: each scope names its
//! enclosing scope by index, a function value captures the scope of its
//! declaration, and `return` unwinds as an error-like signal caught at the
//! nearest call. `print` appends one rendered line to the output buffer;
//! the caller drains it. Every recursive step spends one unit of fuel, so
//! evaluation always terminates: a program that runs too long reports a
//! runtime error instead of hanging.

use vstd::prelude::*;
use crate::num::{Num, fits, norm_p, rat_add, rat_sub, rat_mul, rat_div, rat_eq, rat_le, rat_lt,
    MAX_DEN, MAX_MAG};
use crate::parser::{BinaryOperator, Expr, ExprS, LitVS, Statement, StmtS, UnaryOperator,
    binop_str, expr_view, exprs_view, num_render, stmt_view, stmts_view, unop_str, copy_bytes};
use crate::environment::{EnvV, Environment, Environments, envs_view, env_get, env_assign,
    envs_wf, lookup_local};
use crate::scanner::TokenS;

verus! {

/// A host-provided callable, dispatched by name.
#[derive(Debug, PartialEq)]
pub struct NativeFunction {
    pub name: Vec<u8>,
}

/// A runtime value.
#[derive(Debug, PartialEq)]
pub enum Value {
    Number(Num),
    String(Vec<u8>),
    Bool(bool),
    Nil,
    NativeFunction(NativeFunction),
    Function { name: Vec<u8>, params: Vec<Vec<u8>>, body: Vec<Statement>, closure: usize },
}

/// What evaluation can signal: a runtime error, or the `return` signal that
/// only a call site intercepts.
#[derive(Debug, PartialEq)]
pub enum RuntimeError {
    Runtime { message: Vec<u8> },
    InvalidFunction,
    UndefinedVariable(Vec<u8>),
    Return(Value),
}

/// Mathematical image of a value.
#[verifier::ext_equal]
pub enum ValueV {
    Number((int, int)),
    Str(Seq<u8>),
    Bool(bool),
    Nil,
    Native(Seq<u8>),
    Function { name: Seq<u8>, params: Seq<Seq<u8>>, body: Seq<StmtS>, closure: int },
}

/// Mathematical image of a runtime error.
#[verifier::ext_equal]
pub enum ErrV {
    Runtime(Seq<u8>),
    InvalidFunction,
    UndefinedVariable(Seq<u8>),
    Return(Box<ValueV>),
}

/// The image of a parameter-name vector.
pub open spec fn names_view(s: Seq<Vec<u8>>) -> Seq<Seq<u8>> {
    Seq::new(s.len(), |i: int| s[i]@)
}

/// The image of a value.
pub open spec fn value_view(v: Value) -> ValueV {
    match v {
        Value::Number(x) => ValueV::Number(x.frac()),
        Value::String(s) => ValueV::Str(s@),
        Value::Bool(b) => ValueV::Bool(b),
        Value::Nil => ValueV::Nil,
        Value::NativeFunction(nf) => ValueV::Native(nf.name@),
        Value::Function { name, params, body, closure } => ValueV::Function {
            name: name@,
            params: names_view(params@),
            body: stmts_view(body@),
            closure: closure as int,
        },
    }
}

/// The image of a runtime error.
pub open spec fn err_view(e: RuntimeError) -> ErrV {
    match e {
        RuntimeError::Runtime { message } => ErrV::Runtime(message@),
        RuntimeError::InvalidFunction => ErrV::InvalidFunction,
        RuntimeError::UndefinedVariable(n) => ErrV::UndefinedVariable(n@),
        RuntimeError::Return(v) => ErrV::Return(Box::new(value_view(v))),
    }
}

/// The whole interpreter state: the scope arena, the current scope, the
/// output lines so far, and the clock sample `clock()` reports.
#[verifier::ext_equal]
pub struct StateV {
    pub envs: Seq<EnvV>,
    pub cur: int,
    pub output: Seq<Seq<u8>>,
    pub clock: int,
}

/// Evaluating an expression: a value or a signal, and the state after.
#[verifier::ext_equal]
pub struct EvalOut {
    pub st: StateV,
    pub res: Result<ValueV, ErrV>,
}

/// Evaluating an argument list.
#[verifier::ext_equal]
pub struct ArgsOut {
    pub st: StateV,
    pub res: Result<Seq<ValueV>, ErrV>,
}

/// Executing statements: unit or a signal, and the state after.
#[verifier::ext_equal]
pub struct ExecOut {
    pub st: StateV,
    pub res: Result<(), ErrV>,
}

/// The message reported when evaluation runs out of fuel.
pub open spec fn oof_msg() -> Seq<u8> {
    seq![111u8, 117u8, 116u8, 32u8, 111u8, 102u8, 32u8, 102u8, 117u8, 101u8, 108u8]
}

/// The message reported when a number leaves the representable range.
pub open spec fn overflow_msg() -> Seq<u8> {
    seq![110u8, 117u8, 109u8, 101u8, 114u8, 105u8, 99u8, 32u8, 111u8, 118u8, 101u8, 114u8, 102u8,
        108u8, 111u8, 119u8]
}

/// The message reported on division by zero.
pub open spec fn zero_msg() -> Seq<u8> {
    seq![100u8, 105u8, 118u8, 105u8, 115u8, 105u8, 111u8, 110u8, 32u8, 98u8, 121u8, 32u8, 122u8,
        101u8, 114u8, 111u8]
}

/// The message reported when a call's argument count differs from the
/// function's parameter count.
pub open spec fn arity_msg() -> Seq<u8> {
    seq![97u8, 114u8, 105u8, 116u8, 121u8, 32u8, 109u8, 105u8, 115u8, 109u8, 97u8, 116u8, 99u8,
        104u8]
}

/// The prefix of the message reported for an operand-type mismatch.
pub open spec fn invalid_op_prefix() -> Seq<u8> {
    seq![73u8, 110u8, 118u8, 97u8, 108u8, 105u8, 100u8, 32u8, 111u8, 112u8, 101u8, 114u8, 97u8,
        116u8, 105u8, 111u8, 110u8, 58u8, 32u8]
}

/// The name of the one native function the interpreter installs.
pub open spec fn clock_name() -> Seq<u8> {
    seq![99u8, 108u8, 111u8, 99u8, 107u8]
}

/// A fraction within the bounds of a well-formed `Num`.
pub open spec fn frac_ok(f: (int, int)) -> bool {
    &&& 1 <= f.1 <= MAX_DEN as int
    &&& -(MAX_MAG as int) <= f.0 <= MAX_MAG as int
}

/// How a value is rendered, by `print` and inside error messages.
pub open spec fn fmt_value(v: ValueV) -> Seq<u8> {
    match v {
        ValueV::Number(f) => num_render(f),
        ValueV::Str(s) => s,
        ValueV::Bool(b) => if b {
            seq![116u8, 114u8, 117u8, 101u8]
        } else {
            seq![102u8, 97u8, 108u8, 115u8, 101u8]
        },
        ValueV::Nil => seq![110u8, 105u8, 108u8],
        ValueV::Native(n) => seq![102u8, 117u8, 110u8, 99u8, 116u8, 105u8, 111u8, 110u8, 32u8] + n
            + seq![40u8, 41u8],
        ValueV::Function { name, .. } => seq![102u8, 117u8, 110u8, 99u8, 116u8, 105u8, 111u8,
            110u8, 32u8] + name + seq![40u8, 41u8],
    }
}

/// The message reported for an operand-type mismatch of a binary operator.
pub open spec fn invalid_binop_msg(a: ValueV, op: BinaryOperator, b: ValueV) -> Seq<u8> {
    invalid_op_prefix() + fmt_value(a) + seq![32u8] + binop_str(op) + seq![32u8] + fmt_value(b)
}

/// The message reported for an operand-type mismatch of a unary operator.
pub open spec fn invalid_unop_msg(op: UnaryOperator, v: ValueV) -> Seq<u8> {
    invalid_op_prefix() + unop_str(op) + seq![32u8] + fmt_value(v)
}

/// A numeric binary result, reduced and checked against the bounds.
pub open spec fn num_result(f: (int, int)) -> Result<ValueV, ErrV> {
    if fits(norm_p(f)) {
        Ok(ValueV::Number(norm_p(f)))
    } else {
        Err(ErrV::Runtime(overflow_msg()))
    }
}

/// What a binary operator yields on two evaluated operands: the dispatch
/// table of the evaluator. `!=` parses but has no runtime case, and `and` /
/// `or` take booleans only, without short-circuiting.
pub open spec fn s_binop_val(op: BinaryOperator, a: ValueV, b: ValueV) -> Result<ValueV, ErrV> {
    match (a, op, b) {
        (ValueV::Number(x), BinaryOperator::Plus, ValueV::Number(y)) => if frac_ok(x) && frac_ok(
            y,
        ) {
            num_result(rat_add(x, y))
        } else {
            Err(ErrV::Runtime(overflow_msg()))
        },
        (ValueV::Number(x), BinaryOperator::Minus, ValueV::Number(y)) => if frac_ok(x) && frac_ok(
            y,
        ) {
            num_result(rat_sub(x, y))
        } else {
            Err(ErrV::Runtime(overflow_msg()))
        },
        (ValueV::Number(x), BinaryOperator::Star, ValueV::Number(y)) => if frac_ok(x) && frac_ok(
            y,
        ) {
            num_result(rat_mul(x, y))
        } else {
            Err(ErrV::Runtime(overflow_msg()))
        },
        (ValueV::Number(x), BinaryOperator::Slash, ValueV::Number(y)) => if !(frac_ok(x)
            && frac_ok(y)) {
            Err(ErrV::Runtime(overflow_msg()))
        } else if y.0 == 0 {
            Err(ErrV::Runtime(zero_msg()))
        } else {
            num_result(rat_div(x, y))
        },
        (ValueV::Bool(x), BinaryOperator::And, ValueV::Bool(y)) => Ok(ValueV::Bool(x && y)),
        (ValueV::Bool(x), BinaryOperator::Or, ValueV::Bool(y)) => Ok(ValueV::Bool(x || y)),
        (ValueV::Number(x), BinaryOperator::Greater, ValueV::Number(y)) => if frac_ok(x)
            && frac_ok(y) {
            Ok(ValueV::Bool(rat_lt(y, x)))
        } else {
            Err(ErrV::Runtime(overflow_msg()))
        },
        (ValueV::Number(x), BinaryOperator::GreaterEqual, ValueV::Number(y)) => if frac_ok(x)
            && frac_ok(y) {
            Ok(ValueV::Bool(rat_le(y, x)))
        } else {
            Err(ErrV::Runtime(overflow_msg()))
        },
        (ValueV::Number(x), BinaryOperator::Less, ValueV::Number(y)) => if frac_ok(x) && frac_ok(
            y,
        ) {
            Ok(ValueV::Bool(rat_lt(x, y)))
        } else {
            Err(ErrV::Runtime(overflow_msg()))
        },
        (ValueV::Number(x), BinaryOperator::LessEqual, ValueV::Number(y)) => if frac_ok(x)
            && frac_ok(y) {
            Ok(ValueV::Bool(rat_le(x, y)))
        } else {
            Err(ErrV::Runtime(overflow_msg()))
        },
        (ValueV::Number(x), BinaryOperator::EqualEqual, ValueV::Number(y)) => if frac_ok(x)
            && frac_ok(y) {
            Ok(ValueV::Bool(rat_eq(x, y)))
        } else {
            Err(ErrV::Runtime(overflow_msg()))
        },
        (a2, op2, b2) => Err(ErrV::Runtime(invalid_binop_msg(a2, op2, b2))),
    }
}

/// What a unary operator yields: `-` on a number, `!` on a boolean.
pub open spec fn s_unop_val(op: UnaryOperator, v: ValueV) -> Result<ValueV, ErrV> {
    match (op, v) {
        (UnaryOperator::Minus, ValueV::Number(x)) => if frac_ok(x) {
            Ok(ValueV::Number((-x.0, x.1)))
        } else {
            Err(ErrV::Runtime(overflow_msg()))
        },
        (UnaryOperator::Bang, ValueV::Bool(b)) => Ok(ValueV::Bool(!b)),
        (op2, v2) => Err(ErrV::Runtime(invalid_unop_msg(op2, v2))),
    }
}

/// What `clock()` returns: the state's clock sample, clamped to the number
/// range.
pub open spec fn clock_value(st: StateV) -> ValueV {
    if st.clock <= MAX_MAG as int {
        ValueV::Number((st.clock, 1))
    } else {
        ValueV::Number((MAX_MAG as int, 1))
    }
}

/// Bind parameters to arguments, in order, in the scope `id`.
pub open spec fn s_bind_params(
    envs: Seq<EnvV>,
    id: int,
    params: Seq<Seq<u8>>,
    args: Seq<ValueV>,
) -> Seq<EnvV>
    recommends
        0 <= id < envs.len(),
        params.len() == args.len(),
    decreases params.len(),
{
    if params.len() == 0 || args.len() == 0 || !(0 <= id < envs.len()) {
        envs
    } else {
        let e = envs[id];
        let envs2 = envs.update(
            id,
            EnvV { bindings: e.bindings.push((params[0], args[0])), enclosing: e.enclosing },
        );
        s_bind_params(
            envs2,
            id,
            params.subrange(1, params.len() as int),
            args.subrange(1, args.len() as int),
        )
    }
}

/// Evaluate an expression. Every recursive step spends one unit of fuel.
pub open spec fn s_eval_expr(st: StateV, e: ExprS, fuel: nat) -> EvalOut
    decreases fuel,
{
    if fuel == 0 {
        EvalOut { st, res: Err(ErrV::Runtime(oof_msg())) }
    } else {
        match e {
            ExprS::Binary(l, r, op) => {
                let lo = s_eval_expr(st, *l, (fuel - 1) as nat);
                match lo.res {
                    Err(er) => EvalOut { st: lo.st, res: Err(er) },
                    Ok(lv) => {
                        let ro = s_eval_expr(lo.st, *r, (fuel - 1) as nat);
                        match ro.res {
                            Err(er) => EvalOut { st: ro.st, res: Err(er) },
                            Ok(rv) => EvalOut { st: ro.st, res: s_binop_val(op, lv, rv) },
                        }
                    },
                }
            },
            ExprS::Unary(x, op) => {
                let xo = s_eval_expr(st, *x, (fuel - 1) as nat);
                match xo.res {
                    Err(er) => EvalOut { st: xo.st, res: Err(er) },
                    Ok(v) => EvalOut { st: xo.st, res: s_unop_val(op, v) },
                }
            },
            ExprS::Literal(lit) => EvalOut {
                st,
                res: Ok(
                    match lit {
                        LitVS::Number(f) => ValueV::Number(f),
                        LitVS::Str(s) => ValueV::Str(s),
                        LitVS::Boolean(b) => ValueV::Bool(b),
                        LitVS::Nil => ValueV::Nil,
                    },
                ),
            },
            ExprS::Variable(t) => match env_get(st.envs, st.cur, t.lexeme) {
                Option::Some(v) => EvalOut { st, res: Ok(v) },
                Option::None => EvalOut { st, res: Ok(ValueV::Nil) },
            },
            ExprS::Assignment(name, v) => {
                let vo = s_eval_expr(st, *v, (fuel - 1) as nat);
                match vo.res {
                    Err(er) => EvalOut { st: vo.st, res: Err(er) },
                    Ok(val) => match env_assign(vo.st.envs, vo.st.cur, name, val) {
                        Option::Some(envs2) => EvalOut {
                            st: StateV { envs: envs2, ..vo.st },
                            res: Ok(ValueV::Nil),
                        },
                        Option::None => EvalOut {
                            st: vo.st,
                            res: Err(ErrV::UndefinedVariable(name)),
                        },
                    },
                }
            },
            ExprS::Call(f, args) => {
                let fo = s_eval_expr(st, *f, (fuel - 1) as nat);
                match fo.res {
                    Err(er) => EvalOut { st: fo.st, res: Err(er) },
                    Ok(callee) => {
                        let ao = s_eval_args(fo.st, args, (fuel - 1) as nat);
                        match ao.res {
                            Err(er) => EvalOut { st: ao.st, res: Err(er) },
                            Ok(vals) => s_call_fn(ao.st, callee, vals, (fuel - 1) as nat),
                        }
                    },
                }
            },
        }
    }
}

/// Evaluate an argument list, left to right.
pub open spec fn s_eval_args(st: StateV, es: Seq<ExprS>, fuel: nat) -> ArgsOut
    decreases fuel,
{
    if fuel == 0 {
        ArgsOut { st, res: Err(ErrV::Runtime(oof_msg())) }
    } else if es.len() == 0 {
        ArgsOut { st, res: Ok(Seq::empty()) }
    } else {
        let r = s_eval_expr(st, es[0], (fuel - 1) as nat);
        match r.res {
            Err(er) => ArgsOut { st: r.st, res: Err(er) },
            Ok(v) => {
                let rest = s_eval_args(r.st, es.subrange(1, es.len() as int), (fuel - 1) as nat);
                match rest.res {
                    Err(er) => ArgsOut { st: rest.st, res: Err(er) },
                    Ok(vs) => ArgsOut { st: rest.st, res: Ok(seq![v] + vs) },
                }
            },
        }
    }
}

/// Apply an evaluated callee to evaluated arguments. A user function runs
/// its body in a fresh scope enclosed by its captured closure scope; the
/// `return` signal becomes the call's value; falling off the end yields
/// `nil`. The current scope is restored whatever happens.
pub open spec fn s_call_fn(st: StateV, callee: ValueV, args: Seq<ValueV>, fuel: nat) -> EvalOut
    decreases fuel,
{
    if fuel == 0 {
        EvalOut { st, res: Err(ErrV::Runtime(oof_msg())) }
    } else {
        match callee {
            ValueV::Native(name) => if name == clock_name() {
                EvalOut { st, res: Ok(clock_value(st)) }
            } else {
                EvalOut { st, res: Err(ErrV::InvalidFunction) }
            },
            ValueV::Function { name, params, body, closure } => {
                if args.len() != params.len() {
                    EvalOut { st, res: Err(ErrV::Runtime(arity_msg())) }
                } else if !(0 <= closure < st.envs.len()) {
                    EvalOut { st, res: Err(ErrV::InvalidFunction) }
                } else {
                    let fresh = st.envs.len() as int;
                    let envs1 = st.envs.push(
                        EnvV { bindings: Seq::empty(), enclosing: Option::Some(closure) },
                    );
                    let envs2 = s_bind_params(envs1, fresh, params, args);
                    let st1 = StateV { envs: envs2, cur: fresh, ..st };
                    let bo = s_exec_stmts(st1, body, (fuel - 1) as nat);
                    let st2 = StateV { cur: st.cur, ..bo.st };
                    match bo.res {
                        Ok(_) => EvalOut { st: st2, res: Ok(ValueV::Nil) },
                        Err(ErrV::Return(v)) => EvalOut { st: st2, res: Ok(*v) },
                        Err(er) => EvalOut { st: st2, res: Err(er) },
                    }
                }
            },
            _ => EvalOut { st, res: Err(ErrV::InvalidFunction) },
        }
    }
}

/// Execute one statement.
pub open spec fn s_exec_stmt(st: StateV, s: StmtS, fuel: nat) -> ExecOut
    decreases fuel,
{
    if fuel == 0 {
        ExecOut { st, res: Err(ErrV::Runtime(oof_msg())) }
    } else {
        match s {
            StmtS::Expression(e) => {
                let r = s_eval_expr(st, e, (fuel - 1) as nat);
                match r.res {
                    Err(er) => ExecOut { st: r.st, res: Err(er) },
                    Ok(_) => ExecOut { st: r.st, res: Ok(()) },
                }
            },
            StmtS::Print(e) => {
                let r = s_eval_expr(st, e, (fuel - 1) as nat);
                match r.res {
                    Err(er) => ExecOut { st: r.st, res: Err(er) },
                    Ok(v) => ExecOut {
                        st: StateV { output: r.st.output.push(fmt_value(v)), ..r.st },
                        res: Ok(()),
                    },
                }
            },
            StmtS::Declaration(t, oe) => {
                match oe {
                    Option::None => ExecOut {
                        st: s_define(st, t.lexeme, ValueV::Nil),
                        res: Ok(()),
                    },
                    Option::Some(e) => {
                        let r = s_eval_expr(st, e, (fuel - 1) as nat);
                        match r.res {
                            Err(er) => ExecOut { st: r.st, res: Err(er) },
                            Ok(v) => ExecOut { st: s_define(r.st, t.lexeme, v), res: Ok(()) },
                        }
                    },
                }
            },
            StmtS::Block(ss) => {
                let fresh = st.envs.len() as int;
                let envs1 = st.envs.push(
                    EnvV { bindings: Seq::empty(), enclosing: Option::Some(st.cur) },
                );
                let st1 = StateV { envs: envs1, cur: fresh, ..st };
                let r = s_exec_stmts(st1, ss, (fuel - 1) as nat);
                ExecOut { st: StateV { cur: st.cur, ..r.st }, res: r.res }
            },
            StmtS::If { condition, then_branch, else_branch } => {
                let r = s_eval_expr(st, condition, (fuel - 1) as nat);
                match r.res {
                    Err(er) => ExecOut { st: r.st, res: Err(er) },
                    Ok(v) => if v == ValueV::Bool(true) {
                        s_exec_stmt(r.st, *then_branch, (fuel - 1) as nat)
                    } else {
                        match else_branch {
                            Option::Some(eb) => s_exec_stmt(r.st, *eb, (fuel - 1) as nat),
                            Option::None => ExecOut { st: r.st, res: Ok(()) },
                        }
                    },
                }
            },
            StmtS::Function { name, params, block } => {
                let v = ValueV::Function {
                    name: name.lexeme,
                    params: Seq::new(params.len(), |i: int| params[i].lexeme),
                    body: block,
                    closure: st.cur,
                };
                ExecOut { st: s_define(st, name.lexeme, v), res: Ok(()) }
            },
            StmtS::Return(_, oe) => {
                match oe {
                    Option::None => ExecOut {
                        st,
                        res: Err(ErrV::Return(Box::new(ValueV::Nil))),
                    },
                    Option::Some(e) => {
                        let r = s_eval_expr(st, e, (fuel - 1) as nat);
                        match r.res {
                            Err(er) => ExecOut { st: r.st, res: Err(er) },
                            Ok(v) => ExecOut { st: r.st, res: Err(ErrV::Return(Box::new(v))) },
                        }
                    },
                }
            },
        }
    }
}

/// Bind a name in the current scope.
pub open spec fn s_define(st: StateV, name: Seq<u8>, v: ValueV) -> StateV
    recommends
        0 <= st.cur < st.envs.len(),
{
    if 0 <= st.cur < st.envs.len() {
        let e = st.envs[st.cur];
        StateV {
            envs: st.envs.update(
                st.cur,
                EnvV { bindings: e.bindings.push((name, v)), enclosing: e.enclosing },
            ),
            ..st
        }
    } else {
        st
    }
}

/// Execute a statement list, stopping at the first signal.
pub open spec fn s_exec_stmts(st: StateV, ss: Seq<StmtS>, fuel: nat) -> ExecOut
    decreases fuel,
{
    if fuel == 0 {
        ExecOut { st, res: Err(ErrV::Runtime(oof_msg())) }
    } else if ss.len() == 0 {
        ExecOut { st, res: Ok(()) }
    } else {
        let r = s_exec_stmt(st, ss[0], (fuel - 1) as nat);
        match r.res {
            Err(er) => ExecOut { st: r.st, res: Err(er) },
            Ok(_) => s_exec_stmts(r.st, ss.subrange(1, ss.len() as int), (fuel - 1) as nat),
        }
    }
}

/// The fuel each top-level statement receives.
pub const FUEL: u64 = 0xFFFF_FFFF;

/// Binding parameters preserves the arena's length.
pub proof fn lemma_bind_params_len(envs: Seq<EnvV>, id: int, params: Seq<Seq<u8>>, args: Seq<ValueV>)
    ensures
        s_bind_params(envs, id, params, args).len() == envs.len(),
    decreases params.len(),
{
    if params.len() == 0 || args.len() == 0 || !(0 <= id < envs.len()) {
    } else {
        let e = envs[id];
        let envs2 = envs.update(
            id,
            EnvV { bindings: e.bindings.push((params[0], args[0])), enclosing: e.enclosing },
        );
        lemma_bind_params_len(
            envs2,
            id,
            params.subrange(1, params.len() as int),
            args.subrange(1, args.len() as int),
        );
    }
}

/// Evaluating an expression never moves the current scope or the clock.
#[verifier::rlimit(100)]
pub proof fn lemma_eval_expr_frame(st: StateV, e: ExprS, fuel: nat)
    ensures
        s_eval_expr(st, e, fuel).st.cur == st.cur,
        s_eval_expr(st, e, fuel).st.clock == st.clock,
        s_eval_expr(st, e, fuel).st.envs.len() >= st.envs.len(),
    decreases fuel, 2int,
{
    if fuel > 0 {
        match e {
            ExprS::Binary(l, r, op) => {
                lemma_eval_expr_frame(st, *l, (fuel - 1) as nat);
                let lo = s_eval_expr(st, *l, (fuel - 1) as nat);
                if lo.res is Ok {
                    lemma_eval_expr_frame(lo.st, *r, (fuel - 1) as nat);
                }
            },
            ExprS::Unary(x, op) => {
                lemma_eval_expr_frame(st, *x, (fuel - 1) as nat);
            },
            ExprS::Literal(_) => {},
            ExprS::Variable(_) => {},
            ExprS::Assignment(name, v) => {
                lemma_eval_expr_frame(st, *v, (fuel - 1) as nat);
                let vo = s_eval_expr(st, *v, (fuel - 1) as nat);
                match vo.res {
                    Ok(val) => {
                        crate::environment::lemma_env_assign_len(vo.st.envs, vo.st.cur, name, val);
                    },
                    Err(_) => {},
                }
            },
            ExprS::Call(f, args) => {
                lemma_eval_expr_frame(st, *f, (fuel - 1) as nat);
                let fo = s_eval_expr(st, *f, (fuel - 1) as nat);
                match fo.res {
                    Ok(callee) => {
                        lemma_eval_args_frame(fo.st, args, (fuel - 1) as nat);
                        let ao = s_eval_args(fo.st, args, (fuel - 1) as nat);
                        match ao.res {
                            Ok(vals) => {
                                lemma_call_fn_frame(ao.st, callee, vals, (fuel - 1) as nat);
                            },
                            Err(_) => {},
                        }
                    },
                    Err(_) => {},
                }
            },
        }
    }
}

/// Evaluating arguments never moves the current scope or the clock.
pub proof fn lemma_eval_args_frame(st: StateV, es: Seq<ExprS>, fuel: nat)
    ensures
        s_eval_args(st, es, fuel).st.cur == st.cur,
        s_eval_args(st, es, fuel).st.clock == st.clock,
        s_eval_args(st, es, fuel).st.envs.len() >= st.envs.len(),
    decreases fuel, 3int,
{
    if fuel > 0 && es.len() > 0 {
        lemma_eval_expr_frame(st, es[0], (fuel - 1) as nat);
        let r = s_eval_expr(st, es[0], (fuel - 1) as nat);
        if r.res is Ok {
            lemma_eval_args_frame(r.st, es.subrange(1, es.len() as int), (fuel - 1) as nat);
        }
    }
}

/// Calling a function restores the current scope and keeps the clock.
pub proof fn lemma_call_fn_frame(st: StateV, callee: ValueV, args: Seq<ValueV>, fuel: nat)
    ensures
        s_call_fn(st, callee, args, fuel).st.cur == st.cur,
        s_call_fn(st, callee, args, fuel).st.clock == st.clock,
        s_call_fn(st, callee, args, fuel).st.envs.len() >= st.envs.len(),
    decreases fuel, 4int,
{
    if fuel > 0 {
        match callee {
            ValueV::Function { name, params, body, closure } => {
                if args.len() == params.len() && 0 <= closure < st.envs.len() {
                    let fresh = st.envs.len() as int;
                    let envs1 = st.envs.push(
                        EnvV { bindings: Seq::empty(), enclosing: Option::Some(closure) },
                    );
                    let envs2 = s_bind_params(envs1, fresh, params, args);
                    lemma_bind_params_len(envs1, fresh, params, args);
                    let st1 = StateV { envs: envs2, cur: fresh, ..st };
                    lemma_exec_stmts_frame(st1, body, (fuel - 1) as nat);
                }
            },
            _ => {},
        }
    }
}

/// Executing one statement never moves the current scope or the clock.
pub proof fn lemma_exec_stmt_frame(st: StateV, s: StmtS, fuel: nat)
    ensures
        s_exec_stmt(st, s, fuel).st.cur == st.cur,
        s_exec_stmt(st, s, fuel).st.clock == st.clock,
        s_exec_stmt(st, s, fuel).st.envs.len() >= st.envs.len(),
    decreases fuel, 5int,
{
    if fuel > 0 {
        match s {
            StmtS::Expression(e) => {
                lemma_eval_expr_frame(st, e, (fuel - 1) as nat);
            },
            StmtS::Print(e) => {
                lemma_eval_expr_frame(st, e, (fuel - 1) as nat);
            },
            StmtS::Declaration(t, oe) => {
                match oe {
                    Option::Some(e) => {
                        lemma_eval_expr_frame(st, e, (fuel - 1) as nat);
                    },
                    Option::None => {},
                }
            },
            StmtS::Block(ss) => {
                let fresh = st.envs.len() as int;
                let envs1 = st.envs.push(
                    EnvV { bindings: Seq::empty(), enclosing: Option::Some(st.cur) },
                );
                let st1 = StateV { envs: envs1, cur: fresh, ..st };
                lemma_exec_stmts_frame(st1, ss, (fuel - 1) as nat);
            },
            StmtS::If { condition, then_branch, else_branch } => {
                lemma_eval_expr_frame(st, condition, (fuel - 1) as nat);
                let r = s_eval_expr(st, condition, (fuel - 1) as nat);
                match r.res {
                    Ok(v) => {
                        if v == ValueV::Bool(true) {
                            lemma_exec_stmt_frame(r.st, *then_branch, (fuel - 1) as nat);
                        } else {
                            match else_branch {
                                Option::Some(eb) => {
                                    lemma_exec_stmt_frame(r.st, *eb, (fuel - 1) as nat);
                                },
                                Option::None => {},
                            }
                        }
                    },
                    Err(_) => {},
                }
            },
            StmtS::Function { .. } => {},
            StmtS::Return(_, oe) => {
                match oe {
                    Option::Some(e) => {
                        lemma_eval_expr_frame(st, e, (fuel - 1) as nat);
                    },
                    Option::None => {},
                }
            },
        }
    }
}

/// Executing a statement list never moves the current scope or the clock.
pub proof fn lemma_exec_stmts_frame(st: StateV, ss: Seq<StmtS>, fuel: nat)
    ensures
        s_exec_stmts(st, ss, fuel).st.cur == st.cur,
        s_exec_stmts(st, ss, fuel).st.clock == st.clock,
        s_exec_stmts(st, ss, fuel).st.envs.len() >= st.envs.len(),
    decreases fuel, 6int,
{
    if fuel > 0 && ss.len() > 0 {
        lemma_exec_stmt_frame(st, ss[0], (fuel - 1) as nat);
        let r = s_exec_stmt(st, ss[0], (fuel - 1) as nat);
        if r.res is Ok {
            lemma_exec_stmts_frame(r.st, ss.subrange(1, ss.len() as int), (fuel - 1) as nat);
        }
    }
}

/// Law: lexical scope. For any program `var a = X; { var a = Y; print a; }
/// print a;`, from any reachable state, the two prints emit `Y` then `X`:
/// the inner declaration shadows the outer inside the block and the outer
/// binding is intact after it.
pub proof fn lemma_lexical_scope(st: StateV, ta: TokenS, x: (int, int), y: (int, int))
    requires
        0 <= st.cur < st.envs.len(),
    ensures
        ({
            let prog = seq![
                StmtS::Declaration(ta, Option::Some(ExprS::Literal(LitVS::Number(x)))),
                StmtS::Block(
                    seq![
                        StmtS::Declaration(ta, Option::Some(ExprS::Literal(LitVS::Number(y)))),
                        StmtS::Print(ExprS::Variable(ta)),
                    ],
                ),
                StmtS::Print(ExprS::Variable(ta)),
            ];
            let r = s_run(st, prog);
            &&& r.res is Ok
            &&& r.st.output == st.output.push(num_render(y)).push(num_render(x))
        }),
{
    let name = ta.lexeme;
    let body = seq![
        StmtS::Declaration(ta, Option::Some(ExprS::Literal(LitVS::Number(y)))),
        StmtS::Print(ExprS::Variable(ta)),
    ];
    let prog = seq![
        StmtS::Declaration(ta, Option::Some(ExprS::Literal(LitVS::Number(x)))),
        StmtS::Block(body),
        StmtS::Print(ExprS::Variable(ta)),
    ];
    let f = FUEL as nat;
    assert(f >= 16);
    assert(prog[0] == StmtS::Declaration(ta, Option::Some(ExprS::Literal(LitVS::Number(x)))));
    assert(prog[1] == StmtS::Block(body));
    assert(prog[2] == StmtS::Print(ExprS::Variable(ta)));
    // `var a = X;` binds the name in the current scope.
    let r0 = s_eval_expr(st, ExprS::Literal(LitVS::Number(x)), (f - 1) as nat);
    assert(r0.st == st && r0.res == Ok::<ValueV, ErrV>(ValueV::Number(x)));
    let d1 = s_exec_stmt(st, prog[0], f);
    let st1 = s_define(st, name, ValueV::Number(x));
    assert(d1.res is Ok && d1.st == st1);
    // The block opens a fresh scope enclosed by the current one.
    let fresh = st1.envs.len() as int;
    let envs_b = st1.envs.push(EnvV { bindings: Seq::empty(), enclosing: Option::Some(st1.cur) });
    let st_b = StateV { envs: envs_b, cur: fresh, ..st1 };
    // `var a = Y;` shadows inside the block.
    let rl = s_eval_expr(st_b, ExprS::Literal(LitVS::Number(y)), (f - 3) as nat);
    assert(rl.st == st_b && rl.res == Ok::<ValueV, ErrV>(ValueV::Number(y)));
    let st_b1 = s_define(st_b, name, ValueV::Number(y));
    let ds = s_exec_stmt(st_b, body[0], (f - 2) as nat);
    assert(ds.res is Ok && ds.st == st_b1);
    // `print a;` inside the block reads the inner binding.
    assert(st_b1.envs[fresh].bindings.last() == (name, ValueV::Number(y)));
    assert(lookup_local(st_b1.envs[fresh].bindings, name) == Option::Some(ValueV::Number(y)));
    assert(env_get(st_b1.envs, fresh, name) == Option::Some(ValueV::Number(y)));
    let pv = s_eval_expr(st_b1, ExprS::Variable(ta), (f - 4) as nat);
    assert(pv.st == st_b1 && pv.res == Ok::<ValueV, ErrV>(ValueV::Number(y)));
    let st_b2 = StateV { output: st_b1.output.push(num_render(y)), ..st_b1 };
    let ps = s_exec_stmt(st_b1, body[1], (f - 3) as nat);
    assert(ps.res is Ok && ps.st.output =~= st_b2.output && ps.st == st_b2);
    // The inner statement list runs both statements.
    assert(body.subrange(1, 2) =~= seq![StmtS::Print(ExprS::Variable(ta))]);
    assert(body.subrange(1, 2)[0] == body[1]);
    assert(body.subrange(1, 2).subrange(1, 1) =~= Seq::<StmtS>::empty());
    let bo2 = s_exec_stmts(st_b2, Seq::<StmtS>::empty(), (f - 3) as nat);
    assert(bo2.res is Ok && bo2.st == st_b2);
    let bo1 = s_exec_stmts(st_b1, body.subrange(1, 2), (f - 2) as nat);
    assert(bo1.res is Ok && bo1.st == st_b2);
    let bo = s_exec_stmts(st_b, body, (f - 1) as nat);
    assert(bo.res is Ok && bo.st == st_b2);
    // Leaving the block restores the outer scope.
    let d2 = s_exec_stmt(st1, prog[1], f);
    let st2 = StateV { cur: st1.cur, ..st_b2 };
    assert(d2.res is Ok && d2.st == st2);
    // `print a;` after the block reads the outer binding, untouched.
    assert(st2.cur == st.cur);
    assert(st2.envs[st2.cur].bindings.last() == (name, ValueV::Number(x)));
    assert(lookup_local(st2.envs[st2.cur].bindings, name) == Option::Some(ValueV::Number(x)));
    assert(env_get(st2.envs, st2.cur, name) == Option::Some(ValueV::Number(x)));
    let pv2 = s_eval_expr(st2, ExprS::Variable(ta), (f - 1) as nat);
    assert(pv2.st == st2 && pv2.res == Ok::<ValueV, ErrV>(ValueV::Number(x)));
    let st3 = StateV { output: st2.output.push(num_render(x)), ..st2 };
    let d3 = s_exec_stmt(st2, prog[2], f);
    assert(d3.res is Ok && d3.st == st3);
    // Chain the three top-level steps.
    assert(prog.subrange(1, 3) =~= seq![prog[1], prog[2]]);
    assert(prog.subrange(1, 3)[0] == prog[1]);
    assert(prog.subrange(1, 3).subrange(1, 2) =~= seq![prog[2]]);
    assert(seq![prog[2]][0] == prog[2]);
    assert(seq![prog[2]].subrange(1, 1) =~= Seq::<StmtS>::empty());
    let rr3 = s_run(st3, Seq::<StmtS>::empty());
    assert(rr3.res is Ok && rr3.st == st3);
    let rr2 = s_run(st2, seq![prog[2]]);
    assert(rr2.res is Ok && rr2.st == st3);
    let rr1 = s_run(st1, prog.subrange(1, 3));
    assert(rr1.res is Ok && rr1.st == st3);
    let r = s_run(st, prog);
    assert(r.res is Ok && r.st == st3);
}

/// Law: assignment reaches the outer scope. For any program
/// `var a = X; { a = Y; } print a;`, the assignment inside the block
/// overwrites the outer binding, so the print emits `Y`.
pub proof fn lemma_assignment_outer(st: StateV, ta: TokenS, x: (int, int), y: (int, int))
    requires
        0 <= st.cur < st.envs.len(),
    ensures
        ({
            let prog = seq![
                StmtS::Declaration(ta, Option::Some(ExprS::Literal(LitVS::Number(x)))),
                StmtS::Block(
                    seq![
                        StmtS::Expression(
                            ExprS::Assignment(
                                ta.lexeme,
                                Box::new(ExprS::Literal(LitVS::Number(y))),
                            ),
                        ),
                    ],
                ),
                StmtS::Print(ExprS::Variable(ta)),
            ];
            let r = s_run(st, prog);
            &&& r.res is Ok
            &&& r.st.output == st.output.push(num_render(y))
        }),
{
    let name = ta.lexeme;
    let assign_stmt = StmtS::Expression(
        ExprS::Assignment(name, Box::new(ExprS::Literal(LitVS::Number(y)))),
    );
    let prog = seq![
        StmtS::Declaration(ta, Option::Some(ExprS::Literal(LitVS::Number(x)))),
        StmtS::Block(seq![assign_stmt]),
        StmtS::Print(ExprS::Variable(ta)),
    ];
    let f = FUEL as nat;
    assert(f >= 16);
    assert(prog[0] == StmtS::Declaration(ta, Option::Some(ExprS::Literal(LitVS::Number(x)))));
    assert(prog[1] == StmtS::Block(seq![assign_stmt]));
    assert(prog[2] == StmtS::Print(ExprS::Variable(ta)));
    // `var a = X;`.
    let r0 = s_eval_expr(st, ExprS::Literal(LitVS::Number(x)), (f - 1) as nat);
    assert(r0.st == st && r0.res == Ok::<ValueV, ErrV>(ValueV::Number(x)));
    let d1 = s_exec_stmt(st, prog[0], f);
    let st1 = s_define(st, name, ValueV::Number(x));
    assert(d1.res is Ok && d1.st == st1);
    // The block's fresh scope.
    let fresh = st1.envs.len() as int;
    let envs_b = st1.envs.push(EnvV { bindings: Seq::empty(), enclosing: Option::Some(st1.cur) });
    let st_b = StateV { envs: envs_b, cur: fresh, ..st1 };
    // `a = Y;`: the fresh scope has no binding, so the write walks out to
    // the declaring scope.
    let rl = s_eval_expr(st_b, ExprS::Literal(LitVS::Number(y)), (f - 4) as nat);
    assert(rl.st == st_b && rl.res == Ok::<ValueV, ErrV>(ValueV::Number(y)));
    assert(envs_b[fresh].bindings =~= Seq::<(Seq<u8>, ValueV)>::empty());
    assert(lookup_local(envs_b[fresh].bindings, name) is None);
    assert(envs_b[st1.cur].bindings.last() == (name, ValueV::Number(x)));
    assert(lookup_local(envs_b[st1.cur].bindings, name) is Some);
    let envs_w = envs_b.update(
        st1.cur,
        EnvV {
            bindings: envs_b[st1.cur].bindings.push((name, ValueV::Number(y))),
            enclosing: envs_b[st1.cur].enclosing,
        },
    );
    assert(env_assign(envs_b, st1.cur, name, ValueV::Number(y)) == Option::Some(envs_w));
    assert(env_assign(envs_b, fresh, name, ValueV::Number(y)) == Option::Some(envs_w));
    let av = s_eval_expr(st_b, ExprS::Assignment(name, Box::new(ExprS::Literal(LitVS::Number(y)))), (f - 3) as nat);
    let st_b1 = StateV { envs: envs_w, ..st_b };
    assert(av.res == Ok::<ValueV, ErrV>(ValueV::Nil) && av.st == st_b1);
    let es = s_exec_stmt(st_b, assign_stmt, (f - 2) as nat);
    assert(es.res is Ok && es.st == st_b1);
    assert(seq![assign_stmt][0] == assign_stmt);
    assert(seq![assign_stmt].subrange(1, 1) =~= Seq::<StmtS>::empty());
    let bo2 = s_exec_stmts(st_b1, Seq::<StmtS>::empty(), (f - 2) as nat);
    assert(bo2.res is Ok && bo2.st == st_b1);
    let bo = s_exec_stmts(st_b, seq![assign_stmt], (f - 1) as nat);
    assert(bo.res is Ok && bo.st == st_b1);
    // Leaving the block restores the outer scope.
    let d2 = s_exec_stmt(st1, prog[1], f);
    let st2 = StateV { cur: st1.cur, ..st_b1 };
    assert(d2.res is Ok && d2.st == st2);
    // `print a;` sees the assigned value through the outer scope.
    assert(st2.envs[st2.cur].bindings.last() == (name, ValueV::Number(y)));
    assert(lookup_local(st2.envs[st2.cur].bindings, name) == Option::Some(ValueV::Number(y)));
    assert(env_get(st2.envs, st2.cur, name) == Option::Some(ValueV::Number(y)));
    let pv = s_eval_expr(st2, ExprS::Variable(ta), (f - 1) as nat);
    assert(pv.st == st2 && pv.res == Ok::<ValueV, ErrV>(ValueV::Number(y)));
    let st3 = StateV { output: st2.output.push(num_render(y)), ..st2 };
    let d3 = s_exec_stmt(st2, prog[2], f);
    assert(d3.res is Ok && d3.st == st3);
    assert(prog.subrange(1, 3) =~= seq![prog[1], prog[2]]);
    assert(prog.subrange(1, 3)[0] == prog[1]);
    assert(prog.subrange(1, 3).subrange(1, 2) =~= seq![prog[2]]);
    assert(seq![prog[2]][0] == prog[2]);
    assert(seq![prog[2]].subrange(1, 1) =~= Seq::<StmtS>::empty());
    let rr3 = s_run(st3, Seq::<StmtS>::empty());
    assert(rr3.res is Ok && rr3.st == st3);
    let rr2 = s_run(st2, seq![prog[2]]);
    assert(rr2.res is Ok && rr2.st == st3);
    let rr1 = s_run(st1, prog.subrange(1, 3));
    assert(rr1.res is Ok && rr1.st == st3);
    let r = s_run(st, prog);
    assert(r.res is Ok && r.st == st3);
}

/// Law: a function value captures the scope of its declaration. Executing
/// `fun f(...) { ... }` binds the name, in the current scope, to a function
/// value whose closure is exactly that scope, so later mutations of its
/// bindings are visible to the body (see `lemma_assign_then_get` for the
/// visibility half).
pub proof fn lemma_closure_captures_scope(st: StateV, name: TokenS, params: Seq<TokenS>, block: Seq<StmtS>, fuel: nat)
    requires
        0 <= st.cur < st.envs.len(),
        fuel >= 1,
    ensures
        ({
            let out = s_exec_stmt(st, StmtS::Function { name, params, block }, fuel);
            &&& out.res is Ok
            &&& out.st.envs[st.cur].bindings.last() == (
                name.lexeme,
                ValueV::Function {
                    name: name.lexeme,
                    params: Seq::new(params.len(), |i: int| params[i].lexeme),
                    body: block,
                    closure: st.cur,
                },
            )
            &&& env_get(out.st.envs, st.cur, name.lexeme) == Option::Some(
                ValueV::Function {
                    name: name.lexeme,
                    params: Seq::new(params.len(), |i: int| params[i].lexeme),
                    body: block,
                    closure: st.cur,
                },
            )
        }),
{
    let out = s_exec_stmt(st, StmtS::Function { name, params, block }, fuel);
    let v = ValueV::Function {
        name: name.lexeme,
        params: Seq::new(params.len(), |i: int| params[i].lexeme),
        body: block,
        closure: st.cur,
    };
    assert(out.st == s_define(st, name.lexeme, v));
    assert(out.st.envs[st.cur].bindings.last() == (name.lexeme, v));
    assert(lookup_local(out.st.envs[st.cur].bindings, name.lexeme) == Option::Some(v));
}

/// Law: return payload. Inside a function whose body begins with
/// `return E;`, the call evaluates to the value of `E`, and no later
/// statement of the body runs: the state after the call is exactly the
/// state after evaluating `E`, with the caller's scope restored.
pub proof fn lemma_return_payload(
    st: StateV,
    fname: Seq<u8>,
    kw: TokenS,
    e: ExprS,
    rest: Seq<StmtS>,
    closure: int,
    fuel: nat,
)
    requires
        0 <= closure < st.envs.len(),
        fuel >= 4,
    ensures
        ({
            let callee = ValueV::Function {
                name: fname,
                params: Seq::empty(),
                body: seq![StmtS::Return(kw, Option::Some(e))] + rest,
                closure,
            };
            let envs1 = st.envs.push(
                EnvV { bindings: Seq::empty(), enclosing: Option::Some(closure) },
            );
            let st1 = StateV { envs: envs1, cur: st.envs.len() as int, ..st };
            let ev = s_eval_expr(st1, e, (fuel - 3) as nat);
            let out = s_call_fn(st, callee, Seq::empty(), fuel);
            ev.res matches Ok(v) ==> out.res == Ok::<ValueV, ErrV>(v) && out.st == (StateV {
                cur: st.cur,
                ..ev.st
            })
        }),
{
    let body = seq![StmtS::Return(kw, Option::Some(e))] + rest;
    let callee = ValueV::Function { name: fname, params: Seq::empty(), body, closure };
    let fresh = st.envs.len() as int;
    let envs1 = st.envs.push(EnvV { bindings: Seq::empty(), enclosing: Option::Some(closure) });
    let st1 = StateV { envs: envs1, cur: fresh, ..st };
    assert(s_bind_params(envs1, fresh, Seq::empty(), Seq::empty()) == envs1);
    assert(body[0] == StmtS::Return(kw, Option::Some(e)));
    let ev = s_eval_expr(st1, e, (fuel - 3) as nat);
    match ev.res {
        Ok(v) => {
            let r1 = s_exec_stmt(st1, body[0], (fuel - 2) as nat);
            assert(r1.st == ev.st && r1.res == Err::<(), ErrV>(ErrV::Return(Box::new(v))));
            let bo = s_exec_stmts(st1, body, (fuel - 1) as nat);
            assert(bo.st == ev.st && bo.res == Err::<(), ErrV>(ErrV::Return(Box::new(v))));
            let out = s_call_fn(st, callee, Seq::empty(), fuel);
            assert(out.res == Ok::<ValueV, ErrV>(v) && out.st == (StateV {
                cur: st.cur,
                ..ev.st
            }));
        },
        Err(_) => {},
    }
}

/// The image of a value vector.
pub open spec fn vals_view(s: Seq<Value>) -> Seq<ValueV> {
    Seq::new(s.len(), |i: int| value_view(s[i]))
}

/// The image of the output buffer.
pub open spec fn output_view(s: Seq<Vec<u8>>) -> Seq<Seq<u8>> {
    Seq::new(s.len(), |i: int| s[i]@)
}

/// Append a copy of `src` to `out`.
fn push_bytes(out: &mut Vec<u8>, src: &Vec<u8>)
    ensures
        final(out)@ == old(out)@ + src@,
{
    let mut i: usize = 0;
    while i < src.len()
        invariant
            i <= src@.len(),
            out@ == old(out)@ + src@.subrange(0, i as int),
        decreases src@.len() - i,
    {
        out.push(src[i]);
        i = i + 1;
        proof {
            assert(src@.subrange(0, i as int) =~= src@.subrange(0, i - 1) + seq![src@[i - 1]]);
            assert(out@ =~= old(out)@ + src@.subrange(0, i as int));
        }
    }
    proof {
        assert(src@.subrange(0, src@.len() as int) =~= src@);
    }
}

/// The name of the clock native, as bytes.
fn clock_name_vec() -> (r: Vec<u8>)
    ensures
        r@ == clock_name(),
{
    let mut out: Vec<u8> = Vec::new();
    out.push(99);
    out.push(108);
    out.push(111);
    out.push(99);
    out.push(107);
    proof {
        assert(out@ =~= clock_name());
    }
    out
}

/// The out-of-fuel error.
fn oof_err() -> (r: RuntimeError)
    ensures
        err_view(r) == ErrV::Runtime(oof_msg()),
{
    let mut out: Vec<u8> = Vec::new();
    out.push(111);
    out.push(117);
    out.push(116);
    out.push(32);
    out.push(111);
    out.push(102);
    out.push(32);
    out.push(102);
    out.push(117);
    out.push(101);
    out.push(108);
    proof {
        assert(out@ =~= oof_msg());
    }
    RuntimeError::Runtime { message: out }
}

/// The numeric-overflow error.
fn overflow_err() -> (r: RuntimeError)
    ensures
        err_view(r) == ErrV::Runtime(overflow_msg()),
{
    let mut out: Vec<u8> = Vec::new();
    out.push(110);
    out.push(117);
    out.push(109);
    out.push(101);
    out.push(114);
    out.push(105);
    out.push(99);
    out.push(32);
    out.push(111);
    out.push(118);
    out.push(101);
    out.push(114);
    out.push(102);
    out.push(108);
    out.push(111);
    out.push(119);
    proof {
        assert(out@ =~= overflow_msg());
    }
    RuntimeError::Runtime { message: out }
}

/// The division-by-zero error.
fn zero_err() -> (r: RuntimeError)
    ensures
        err_view(r) == ErrV::Runtime(zero_msg()),
{
    let mut out: Vec<u8> = Vec::new();
    out.push(100);
    out.push(105);
    out.push(118);
    out.push(105);
    out.push(115);
    out.push(105);
    out.push(111);
    out.push(110);
    out.push(32);
    out.push(98);
    out.push(121);
    out.push(32);
    out.push(122);
    out.push(101);
    out.push(114);
    out.push(111);
    proof {
        assert(out@ =~= zero_msg());
    }
    RuntimeError::Runtime { message: out }
}

/// The arity-mismatch error.
fn arity_err() -> (r: RuntimeError)
    ensures
        err_view(r) == ErrV::Runtime(arity_msg()),
{
    let mut out: Vec<u8> = Vec::new();
    out.push(97);
    out.push(114);
    out.push(105);
    out.push(116);
    out.push(121);
    out.push(32);
    out.push(109);
    out.push(105);
    out.push(115);
    out.push(109);
    out.push(97);
    out.push(116);
    out.push(99);
    out.push(104);
    proof {
        assert(out@ =~= arity_msg());
    }
    RuntimeError::Runtime { message: out }
}

/// The `Invalid operation: ` message prefix.
fn invalid_op_prefix_vec() -> (r: Vec<u8>)
    ensures
        r@ == invalid_op_prefix(),
{
    let mut out: Vec<u8> = Vec::new();
    out.push(73);
    out.push(110);
    out.push(118);
    out.push(97);
    out.push(108);
    out.push(105);
    out.push(100);
    out.push(32);
    out.push(111);
    out.push(112);
    out.push(101);
    out.push(114);
    out.push(97);
    out.push(116);
    out.push(105);
    out.push(111);
    out.push(110);
    out.push(58);
    out.push(32);
    proof {
        assert(out@ =~= invalid_op_prefix());
    }
    out
}

/// Whether a number lies within the well-formed bounds.
fn num_in_bounds(x: &Num) -> (r: bool)
    ensures
        r == frac_ok(x.frac()),
{
    x.d >= 1 && x.d <= MAX_DEN && x.n >= -MAX_MAG
}

/// Render a value, as `print` and error messages show it.
pub fn format_value(v: &Value) -> (r: Vec<u8>)
    ensures
        r@ == fmt_value(value_view(*v)),
{
    let mut out: Vec<u8> = Vec::new();
    match v {
        Value::Number(x) => {
            if num_in_bounds(x) {
                let s = x.to_bytes();
                push_bytes(&mut out, &s);
            }
            proof {
                assert(out@ =~= fmt_value(value_view(*v)));
            }
        },
        Value::String(s) => {
            push_bytes(&mut out, s);
            proof {
                assert(out@ =~= fmt_value(value_view(*v)));
            }
        },
        Value::Bool(b) => {
            if *b {
                out.push(116);
                out.push(114);
                out.push(117);
                out.push(101);
            } else {
                out.push(102);
                out.push(97);
                out.push(108);
                out.push(115);
                out.push(101);
            }
            proof {
                assert(out@ =~= fmt_value(value_view(*v)));
            }
        },
        Value::Nil => {
            out.push(110);
            out.push(105);
            out.push(108);
            proof {
                assert(out@ =~= fmt_value(value_view(*v)));
            }
        },
        Value::NativeFunction(nf) => {
            out.push(102);
            out.push(117);
            out.push(110);
            out.push(99);
            out.push(116);
            out.push(105);
            out.push(111);
            out.push(110);
            out.push(32);
            push_bytes(&mut out, &nf.name);
            out.push(40);
            out.push(41);
            proof {
                assert(out@ =~= fmt_value(value_view(*v)));
            }
        },
        Value::Function { name, .. } => {
            out.push(102);
            out.push(117);
            out.push(110);
            out.push(99);
            out.push(116);
            out.push(105);
            out.push(111);
            out.push(110);
            out.push(32);
            push_bytes(&mut out, name);
            out.push(40);
            out.push(41);
            proof {
                assert(out@ =~= fmt_value(value_view(*v)));
            }
        },
    }
    out
}

/// The operand-type-mismatch error of a binary operator.
fn binop_mismatch_err(a: &Value, op: &BinaryOperator, b: &Value) -> (r: RuntimeError)
    ensures
        err_view(r) == ErrV::Runtime(invalid_binop_msg(value_view(*a), *op, value_view(*b))),
{
    let mut out = invalid_op_prefix_vec();
    let av = format_value(a);
    push_bytes(&mut out, &av);
    out.push(32);
    let ov = crate::parser::print_binary_op(op);
    push_bytes(&mut out, &ov);
    out.push(32);
    let bv = format_value(b);
    push_bytes(&mut out, &bv);
    proof {
        assert(out@ =~= invalid_binop_msg(value_view(*a), *op, value_view(*b)));
    }
    RuntimeError::Runtime { message: out }
}

/// The operand-type-mismatch error of a unary operator.
fn unop_mismatch_err(op: &UnaryOperator, v: &Value) -> (r: RuntimeError)
    ensures
        err_view(r) == ErrV::Runtime(invalid_unop_msg(*op, value_view(*v))),
{
    let mut out = invalid_op_prefix_vec();
    let ov = crate::parser::print_unary_op(op);
    push_bytes(&mut out, &ov);
    out.push(32);
    let vv = format_value(v);
    push_bytes(&mut out, &vv);
    proof {
        assert(out@ =~= invalid_unop_msg(*op, value_view(*v)));
    }
    RuntimeError::Runtime { message: out }
}

/// Apply a binary operator to two evaluated operands.
fn apply_binop(op: &BinaryOperator, a: &Value, b: &Value) -> (r: Result<Value, RuntimeError>)
    ensures
        match r {
            Ok(v) => s_binop_val(*op, value_view(*a), value_view(*b)) == Ok::<ValueV, ErrV>(
                value_view(v),
            ),
            Err(e) => s_binop_val(*op, value_view(*a), value_view(*b)) == Err::<ValueV, ErrV>(
                err_view(e),
            ),
        },
{
    match (a, op, b) {
        (Value::Number(x), BinaryOperator::Plus, Value::Number(y)) => {
            if num_in_bounds(x) && num_in_bounds(y) {
                match x.add(y) {
                    Option::Some(q) => Ok(Value::Number(q)),
                    Option::None => Err(overflow_err()),
                }
            } else {
                Err(overflow_err())
            }
        },
        (Value::Number(x), BinaryOperator::Minus, Value::Number(y)) => {
            if num_in_bounds(x) && num_in_bounds(y) {
                match x.sub(y) {
                    Option::Some(q) => Ok(Value::Number(q)),
                    Option::None => Err(overflow_err()),
                }
            } else {
                Err(overflow_err())
            }
        },
        (Value::Number(x), BinaryOperator::Star, Value::Number(y)) => {
            if num_in_bounds(x) && num_in_bounds(y) {
                match x.mul(y) {
                    Option::Some(q) => Ok(Value::Number(q)),
                    Option::None => Err(overflow_err()),
                }
            } else {
                Err(overflow_err())
            }
        },
        (Value::Number(x), BinaryOperator::Slash, Value::Number(y)) => {
            if !(num_in_bounds(x) && num_in_bounds(y)) {
                Err(overflow_err())
            } else if y.is_zero() {
                Err(zero_err())
            } else {
                match x.div(y) {
                    Option::Some(q) => Ok(Value::Number(q)),
                    Option::None => Err(overflow_err()),
                }
            }
        },
        (Value::Bool(x), BinaryOperator::And, Value::Bool(y)) => Ok(Value::Bool(*x && *y)),
        (Value::Bool(x), BinaryOperator::Or, Value::Bool(y)) => Ok(Value::Bool(*x || *y)),
        (Value::Number(x), BinaryOperator::Greater, Value::Number(y)) => {
            if num_in_bounds(x) && num_in_bounds(y) {
                Ok(Value::Bool(y.lt(x)))
            } else {
                Err(overflow_err())
            }
        },
        (Value::Number(x), BinaryOperator::GreaterEqual, Value::Number(y)) => {
            if num_in_bounds(x) && num_in_bounds(y) {
                Ok(Value::Bool(y.le(x)))
            } else {
                Err(overflow_err())
            }
        },
        (Value::Number(x), BinaryOperator::Less, Value::Number(y)) => {
            if num_in_bounds(x) && num_in_bounds(y) {
                Ok(Value::Bool(x.lt(y)))
            } else {
                Err(overflow_err())
            }
        },
        (Value::Number(x), BinaryOperator::LessEqual, Value::Number(y)) => {
            if num_in_bounds(x) && num_in_bounds(y) {
                Ok(Value::Bool(x.le(y)))
            } else {
                Err(overflow_err())
            }
        },
        (Value::Number(x), BinaryOperator::EqualEqual, Value::Number(y)) => {
            if num_in_bounds(x) && num_in_bounds(y) {
                Ok(Value::Bool(x.eq_val(y)))
            } else {
                Err(overflow_err())
            }
        },
        (a2, op2, b2) => Err(binop_mismatch_err(a2, op2, b2)),
    }
}

/// Apply a unary operator to an evaluated operand.
fn apply_unop(op: &UnaryOperator, v: &Value) -> (r: Result<Value, RuntimeError>)
    ensures
        match r {
            Ok(w) => s_unop_val(*op, value_view(*v)) == Ok::<ValueV, ErrV>(value_view(w)),
            Err(e) => s_unop_val(*op, value_view(*v)) == Err::<ValueV, ErrV>(err_view(e)),
        },
{
    match (op, v) {
        (UnaryOperator::Minus, Value::Number(x)) => {
            if num_in_bounds(x) {
                Ok(Value::Number(x.neg()))
            } else {
                Err(overflow_err())
            }
        },
        (UnaryOperator::Bang, Value::Bool(b)) => Ok(Value::Bool(!*b)),
        (op2, v2) => Err(unop_mismatch_err(op2, v2)),
    }
}

/// Milliseconds since the Unix epoch.
///
/// Relies on `std::time::SystemTime::now` and
/// `SystemTime::duration_since(UNIX_EPOCH)`: the wall clock, saturated to
/// zero before the epoch and to `u64::MAX` far past it. Nothing is assumed
/// of the value.
#[verifier::external_body]
fn now_unix_millis() -> (r: u64) {
    let d = std::time::SystemTime::now()
        .duration_since(std::time::UNIX_EPOCH)
        .unwrap_or(std::time::Duration::ZERO);
    let ms = d.as_millis();
    if ms > u64::MAX as u128 {
        u64::MAX
    } else {
        ms as u64
    }
}

/// The interpreter: the scope arena, the current scope, the output lines
/// `print` has produced, and the clock sample `clock()` reports.
pub struct Interpreter {
    pub envs: Environments,
    pub env: usize,
    pub output: Vec<Vec<u8>>,
    pub clock_millis: u64,
}

impl Interpreter {
    /// The mathematical state.
    pub open spec fn st(self) -> StateV {
        StateV {
            envs: self.envs.view_envs(),
            cur: self.env as int,
            output: output_view(self.output@),
            clock: self.clock_millis as int,
        }
    }

    /// The arena is well formed, the current scope exists, and the clock
    /// sample lies within the number range.
    pub open spec fn wf(self) -> bool {
        &&& self.envs.wf()
        &&& self.env < self.envs.view_envs().len()
        &&& self.clock_millis <= MAX_MAG as u64
    }

    /// A fresh interpreter: one global scope holding the `clock` native.
    pub fn new() -> (r: Interpreter)
        ensures
            r.wf(),
            r.st().cur == 0,
            r.st().output == Seq::<Seq<u8>>::empty(),
            r.st().envs == seq![
                EnvV {
                    bindings: seq![(clock_name(), ValueV::Native(clock_name()))],
                    enclosing: Option::None::<int>,
                },
            ],
    {
        let mut envs = Environments::new();
        let g = envs.new_env();
        envs.define(
            g,
            clock_name_vec(),
            Value::NativeFunction(NativeFunction { name: clock_name_vec() }),
        );
        let c = now_unix_millis();
        let clock_millis = if c > MAX_MAG as u64 {
            MAX_MAG as u64
        } else {
            c
        };
        let r = Interpreter { envs, env: g, output: Vec::new(), clock_millis };
        proof {
            assert(r.st().output =~= Seq::<Seq<u8>>::empty());
            assert(r.st().envs =~~= seq![
                EnvV {
                    bindings: seq![(clock_name(), ValueV::Native(clock_name()))],
                    enclosing: Option::None::<int>,
                },
            ]);
        }
        r
    }

    /// Evaluate an expression.
    #[verifier::rlimit(100)]
    fn evaluate_expression(&mut self, expr: &Expr, fuel: u64) -> (r: Result<Value, RuntimeError>)
        requires
            old(self).wf(),
        ensures
            final(self).wf(),
            ({
                let o = s_eval_expr(old(self).st(), expr_view(*expr), fuel as nat);
                &&& final(self).st() == o.st
                &&& match r {
                    Ok(v) => o.res == Ok::<ValueV, ErrV>(value_view(v)),
                    Err(e) => o.res == Err::<ValueV, ErrV>(err_view(e)),
                }
            }),
        decreases fuel, 2int,
    {
        if fuel == 0 {
            return Err(oof_err());
        }
        match expr {
            Expr::Binary(l, rr, op) => self.evaluate_binary_op(l, rr, op, fuel),
            Expr::Unary(x, op) => {
                match self.evaluate_expression(x, fuel - 1) {
                    Err(er) => Err(er),
                    Ok(v) => apply_unop(op, &v),
                }
            },
            Expr::Literal(lit) => match lit {
                crate::parser::LiteralValue::Number(x) => Ok(Value::Number(*x)),
                crate::parser::LiteralValue::String(s) => Ok(Value::String(copy_bytes(s))),
                crate::parser::LiteralValue::Boolean(b) => Ok(Value::Bool(*b)),
                crate::parser::LiteralValue::Nil => Ok(Value::Nil),
            },
            Expr::Variable(t) => {
                match self.envs.get(self.env, &t.lexeme) {
                    Option::Some(v) => Ok(v),
                    Option::None => Ok(Value::Nil),
                }
            },
            Expr::Assignment(name, v) => {
                match self.evaluate_expression(v, fuel - 1) {
                    Err(er) => Err(er),
                    Ok(val) => match self.envs.assign(self.env, name, val) {
                        Ok(_) => Ok(Value::Nil),
                        Err(er) => Err(er),
                    },
                }
            },
            Expr::Call(f, args) => {
                let callee = match self.evaluate_expression(f, fuel - 1) {
                    Err(er) => {
                        return Err(er);
                    },
                    Ok(c) => c,
                };
                let ghost argsS = exprs_view(args@);
                let ghost st1 = self.st();
                let ghost target = s_eval_args(st1, argsS, (fuel - 1) as nat);
                proof {
                    crate::parser::lemma_exprs_view_index(args@);
                }
                let mut vals: Vec<Value> = Vec::new();
                let mut fu: u64 = fuel - 1;
                let mut i: usize = 0;
                let mut failed: Option<RuntimeError> = Option::None;
                proof {
                    assert(argsS.subrange(0, argsS.len() as int) =~= argsS);
                    assert(vals_view(vals@) =~= Seq::<ValueV>::empty());
                    assert forall|vs: Seq<ValueV>| true implies #[trigger] (vals_view(vals@)
                        + vs) =~= vs by {}
                }
                loop
                    invariant_except_break
                        self.wf(),
                        fu < fuel,
                        (*expr) matches Expr::Call(_, _),
                        *args == (*expr)->Call_1,
                        argsS == exprs_view(args@),
                        argsS.len() == args@.len(),
                        forall|k: int| 0 <= k < args@.len() ==> argsS[k] == expr_view(args@[k]),
                        i <= args@.len(),
                        failed is None,
                        target == s_eval_args(st1, argsS, (fuel - 1) as nat),
                        ({
                            let rest = s_eval_args(
                                self.st(),
                                argsS.subrange(i as int, argsS.len() as int),
                                fu as nat,
                            );
                            &&& target.st == rest.st
                            &&& target.res == (match rest.res {
                                Ok(vs) => Ok::<Seq<ValueV>, ErrV>(vals_view(vals@) + vs),
                                Err(e) => Err::<Seq<ValueV>, ErrV>(e),
                            })
                        }),
                    ensures
                        self.wf(),
                        target == s_eval_args(st1, argsS, (fuel - 1) as nat),
                        match failed {
                            Option::None => target.st == self.st() && target.res == Ok::<
                                Seq<ValueV>,
                                ErrV,
                            >(vals_view(vals@)),
                            Option::Some(e) => target.st == self.st() && target.res == Err::<
                                Seq<ValueV>,
                                ErrV,
                            >(err_view(e)),
                        },
                    decreases fu,
                {
                    if fu == 0 {
                        failed = Option::Some(oof_err());
                        proof {
                            assert(target.res == Err::<Seq<ValueV>, ErrV>(
                                ErrV::Runtime(oof_msg()),
                            ));
                        }
                        break ;
                    }
                    if i >= args.len() {
                        proof {
                            assert(argsS.subrange(i as int, argsS.len() as int)
                                =~= Seq::<ExprS>::empty());
                            assert(vals_view(vals@) + Seq::<ValueV>::empty() =~= vals_view(
                                vals@,
                            ));
                        }
                        break ;
                    }
                    let ghost pre_sub = argsS.subrange(i as int, argsS.len() as int);
                    let a = match self.evaluate_expression(&args[i], fu - 1) {
                        Err(er) => {
                            failed = Option::Some(er);
                            break ;
                        },
                        Ok(a) => a,
                    };
                    let ghost pre_vals = vals@;
                    vals.push(a);
                    i = i + 1;
                    fu = fu - 1;
                    proof {
                        assert(pre_sub[0] == argsS[i - 1]);
                        assert(pre_sub.subrange(1, pre_sub.len() as int) =~= argsS.subrange(
                            i as int,
                            argsS.len() as int,
                        ));
                        assert(vals_view(vals@) =~= vals_view(pre_vals).push(value_view(a)));
                        let rest2 = s_eval_args(
                            self.st(),
                            argsS.subrange(i as int, argsS.len() as int),
                            fu as nat,
                        );
                        match rest2.res {
                            Ok(vs2) => {
                                assert(vals_view(vals@) + vs2 =~= vals_view(pre_vals) + (seq![
                                    value_view(a),
                                ] + vs2));
                            },
                            Err(_) => {},
                        }
                    }
                }
                match failed {
                    Option::Some(er) => Err(er),
                    Option::None => self.call_function(callee, vals, fuel - 1),
                }
            },
        }
    }

    /// Evaluate both operands, left first, then dispatch the operator.
    fn evaluate_binary_op(
        &mut self,
        left: &Expr,
        right: &Expr,
        op: &BinaryOperator,
        fuel: u64,
    ) -> (r: Result<Value, RuntimeError>)
        requires
            old(self).wf(),
            fuel >= 1,
        ensures
            final(self).wf(),
            ({
                let o = s_eval_expr(
                    old(self).st(),
                    ExprS::Binary(
                        Box::new(expr_view(*left)),
                        Box::new(expr_view(*right)),
                        *op,
                    ),
                    fuel as nat,
                );
                &&& final(self).st() == o.st
                &&& match r {
                    Ok(v) => o.res == Ok::<ValueV, ErrV>(value_view(v)),
                    Err(e) => o.res == Err::<ValueV, ErrV>(err_view(e)),
                }
            }),
        decreases fuel, 1int,
    {
        let l = match self.evaluate_expression(left, fuel - 1) {
            Err(er) => {
                return Err(er);
            },
            Ok(v) => v,
        };
        let rr = match self.evaluate_expression(right, fuel - 1) {
            Err(er) => {
                return Err(er);
            },
            Ok(v) => v,
        };
        apply_binop(op, &l, &rr)
    }

    /// Apply an evaluated callee to evaluated arguments.
    #[verifier::rlimit(100)]
    fn call_function(&mut self, callee: Value, args: Vec<Value>, fuel: u64) -> (r: Result<
        Value,
        RuntimeError,
    >)
        requires
            old(self).wf(),
        ensures
            final(self).wf(),
            ({
                let o = s_call_fn(old(self).st(), value_view(callee), vals_view(args@), fuel as nat);
                &&& final(self).st() == o.st
                &&& match r {
                    Ok(v) => o.res == Ok::<ValueV, ErrV>(value_view(v)),
                    Err(e) => o.res == Err::<ValueV, ErrV>(err_view(e)),
                }
            }),
        decreases fuel, 0int,
    {
        if fuel == 0 {
            return Err(oof_err());
        }
        match callee {
            Value::NativeFunction(nf) => {
                let cn = clock_name_vec();
                if crate::environment::bytes_eq(&nf.name, &cn) {
                    Ok(Value::Number(Num::from_int(self.clock_millis as i64)))
                } else {
                    Err(RuntimeError::InvalidFunction)
                }
            },
            Value::Function { name, params, body, closure } => {
                if args.len() != params.len() {
                    proof {
                        assert(vals_view(args@).len() == args@.len());
                        assert(names_view(params@).len() == params@.len());
                    }
                    return Err(arity_err());
                }
                if closure >= self.envs.envs.len() {
                    return Err(RuntimeError::InvalidFunction);
                }
                let ghost st0 = self.st();
                let ghost paramsS = names_view(params@);
                let ghost argsS = vals_view(args@);
                let fresh = self.envs.new_with_enclosing(closure);
                let ghost envs1 = self.envs.view_envs();
                let ghost bound = s_bind_params(envs1, fresh as int, paramsS, argsS);
                let mut i: usize = 0;
                proof {
                    assert(paramsS.subrange(0, paramsS.len() as int) =~= paramsS);
                    assert(argsS.subrange(0, argsS.len() as int) =~= argsS);
                }
                while i < params.len()
                    invariant
                        self.envs.wf(),
                        self.env == old(self).env,
                        self.output == old(self).output,
                        self.clock_millis == old(self).clock_millis,
                        i <= params@.len(),
                        params@.len() == args@.len(),
                        paramsS == names_view(params@),
                        argsS == vals_view(args@),
                        fresh < self.envs.view_envs().len(),
                        bound == s_bind_params(envs1, fresh as int, paramsS, argsS),
                        bound == s_bind_params(
                            self.envs.view_envs(),
                            fresh as int,
                            paramsS.subrange(i as int, paramsS.len() as int),
                            argsS.subrange(i as int, argsS.len() as int),
                        ),
                    decreases params@.len() - i,
                {
                    let ghost pre = self.envs.view_envs();
                    let ghost psub = paramsS.subrange(i as int, paramsS.len() as int);
                    let ghost asub = argsS.subrange(i as int, argsS.len() as int);
                    let nm = copy_bytes(&params[i]);
                    let av = crate::environment::clone_value(&args[i]);
                    self.envs.define(fresh, nm, av);
                    i = i + 1;
                    proof {
                        assert(psub[0] == paramsS[i - 1]);
                        assert(asub[0] == argsS[i - 1]);
                        assert(psub.subrange(1, psub.len() as int) =~= paramsS.subrange(
                            i as int,
                            paramsS.len() as int,
                        ));
                        assert(asub.subrange(1, asub.len() as int) =~= argsS.subrange(
                            i as int,
                            argsS.len() as int,
                        ));
                        assert(self.envs.view_envs() =~~= pre.update(
                            fresh as int,
                            EnvV {
                                bindings: pre[fresh as int].bindings.push(
                                    (paramsS[i - 1], argsS[i - 1]),
                                ),
                                enclosing: pre[fresh as int].enclosing,
                            },
                        ));
                    }
                }
                proof {
                    assert(paramsS.subrange(i as int, paramsS.len() as int) =~= Seq::<
                        Seq<u8>,
                    >::empty());
                    assert(self.envs.view_envs() == bound);
                }
                let saved = self.env;
                self.env = fresh;
                let ghost stb = self.st();
                let ghost bodyS = stmts_view(body@);
                let ghost btarget = s_exec_stmts(stb, bodyS, (fuel - 1) as nat);
                proof {
                    crate::parser::lemma_stmts_view_index(body@);
                }
                let mut res: Result<(), RuntimeError> = Ok(());
                let mut fu: u64 = fuel - 1;
                let mut j: usize = 0;
                proof {
                    assert(bodyS.subrange(0, bodyS.len() as int) =~= bodyS);
                }
                loop
                    invariant_except_break
                        self.wf(),
                        fu < fuel,
                        self.env == fresh < self.envs.view_envs().len(),
                        j <= body@.len(),
                        bodyS == stmts_view(body@),
                        bodyS.len() == body@.len(),
                        forall|k: int| 0 <= k < body@.len() ==> bodyS[k] == stmt_view(body@[k]),
                        res is Ok,
                        btarget == s_exec_stmts(stb, bodyS, (fuel - 1) as nat),
                        ({
                            let rest = s_exec_stmts(
                                self.st(),
                                bodyS.subrange(j as int, bodyS.len() as int),
                                fu as nat,
                            );
                            &&& btarget.st == rest.st
                            &&& btarget.res == rest.res
                        }),
                    ensures
                        self.wf(),
                        btarget == s_exec_stmts(stb, bodyS, (fuel - 1) as nat),
                        btarget.st == self.st(),
                        match res {
                            Ok(_) => btarget.res is Ok,
                            Err(e) => btarget.res == Err::<(), ErrV>(err_view(e)),
                        },
                    decreases fu,
                {
                    if fu == 0 {
                        res = Err(oof_err());
                        break ;
                    }
                    if j >= body.len() {
                        proof {
                            assert(bodyS.subrange(j as int, bodyS.len() as int) =~= Seq::<
                                StmtS,
                            >::empty());
                        }
                        break ;
                    }
                    let ghost bsub = bodyS.subrange(j as int, bodyS.len() as int);
                    proof {
                        lemma_exec_stmt_frame(self.st(), bodyS[j as int], (fu - 1) as nat);
                    }
                    match self.evaluate_statement(&body[j], fu - 1) {
                        Err(er) => {
                            res = Err(er);
                            break ;
                        },
                        Ok(_) => {},
                    }
                    j = j + 1;
                    fu = fu - 1;
                    proof {
                        assert(bsub[0] == bodyS[j - 1]);
                        assert(bsub.subrange(1, bsub.len() as int) =~= bodyS.subrange(
                            j as int,
                            bodyS.len() as int,
                        ));
                    }
                }
                proof {
                    lemma_exec_stmts_frame(stb, bodyS, (fuel - 1) as nat);
                }
                self.env = saved;
                match res {
                    Ok(_) => Ok(Value::Nil),
                    Err(RuntimeError::Return(v)) => Ok(v),
                    Err(er) => Err(er),
                }
            },
            _ => Err(RuntimeError::InvalidFunction),
        }
    }

    /// Execute one statement.
    #[verifier::rlimit(100)]
    fn evaluate_statement(&mut self, statement: &Statement, fuel: u64) -> (r: Result<
        (),
        RuntimeError,
    >)
        requires
            old(self).wf(),
        ensures
            final(self).wf(),
            ({
                let o = s_exec_stmt(old(self).st(), stmt_view(*statement), fuel as nat);
                &&& final(self).st() == o.st
                &&& match r {
                    Ok(_) => o.res is Ok,
                    Err(e) => o.res == Err::<(), ErrV>(err_view(e)),
                }
            }),
        decreases fuel, 3int,
    {
        if fuel == 0 {
            return Err(oof_err());
        }
        match statement {
            Statement::Expression(e) => {
                match self.evaluate_expression(e, fuel - 1) {
                    Err(er) => Err(er),
                    Ok(_) => Ok(()),
                }
            },
            Statement::Print(e) => {
                match self.evaluate_expression(e, fuel - 1) {
                    Err(er) => Err(er),
                    Ok(v) => {
                        let line = format_value(&v);
                        let ghost pre = self.output@;
                        self.output.push(line);
                        proof {
                            assert(output_view(self.output@) =~= output_view(pre).push(line@));
                        }
                        Ok(())
                    },
                }
            },
            Statement::Declaration(t, oe) => {
                let v = match oe {
                    Option::None => Value::Nil,
                    Option::Some(e) => match self.evaluate_expression(e, fuel - 1) {
                        Err(er) => {
                            return Err(er);
                        },
                        Ok(v) => v,
                    },
                };
                let nm = copy_bytes(&t.lexeme);
                self.envs.define(self.env, nm, v);
                Ok(())
            },
            Statement::Block(statements) => {
                let fresh = self.envs.new_with_enclosing(self.env);
                let saved = self.env;
                self.env = fresh;
                let ghost stb = self.st();
                let ghost bodyS = stmts_view(statements@);
                let ghost btarget = s_exec_stmts(stb, bodyS, (fuel - 1) as nat);
                proof {
                    crate::parser::lemma_stmts_view_index(statements@);
                }
                let mut res: Result<(), RuntimeError> = Ok(());
                let mut fu: u64 = fuel - 1;
                let mut j: usize = 0;
                proof {
                    assert(bodyS.subrange(0, bodyS.len() as int) =~= bodyS);
                }
                loop
                    invariant_except_break
                        self.wf(),
                        fu < fuel,
                        self.env == fresh < self.envs.view_envs().len(),
                        (*statement) matches Statement::Block(_),
                        *statements == (*statement)->Block_0,
                        j <= statements@.len(),
                        bodyS == stmts_view(statements@),
                        bodyS.len() == statements@.len(),
                        forall|k: int|
                            0 <= k < statements@.len() ==> bodyS[k] == stmt_view(statements@[k]),
                        res is Ok,
                        btarget == s_exec_stmts(stb, bodyS, (fuel - 1) as nat),
                        ({
                            let rest = s_exec_stmts(
                                self.st(),
                                bodyS.subrange(j as int, bodyS.len() as int),
                                fu as nat,
                            );
                            &&& btarget.st == rest.st
                            &&& btarget.res == rest.res
                        }),
                    ensures
                        self.wf(),
                        btarget == s_exec_stmts(stb, bodyS, (fuel - 1) as nat),
                        btarget.st == self.st(),
                        match res {
                            Ok(_) => btarget.res is Ok,
                            Err(e) => btarget.res == Err::<(), ErrV>(err_view(e)),
                        },
                    decreases fu,
                {
                    if fu == 0 {
                        res = Err(oof_err());
                        break ;
                    }
                    if j >= statements.len() {
                        proof {
                            assert(bodyS.subrange(j as int, bodyS.len() as int) =~= Seq::<
                                StmtS,
                            >::empty());
                        }
                        break ;
                    }
                    let ghost bsub = bodyS.subrange(j as int, bodyS.len() as int);
                    proof {
                        assert(decreases_to!(*statement => (*statement)->Block_0@[j as int]));
                        lemma_exec_stmt_frame(self.st(), bodyS[j as int], (fu - 1) as nat);
                    }
                    match self.evaluate_statement(&statements[j], fu - 1) {
                        Err(er) => {
                            res = Err(er);
                            break ;
                        },
                        Ok(_) => {},
                    }
                    j = j + 1;
                    fu = fu - 1;
                    proof {
                        assert(bsub[0] == bodyS[j - 1]);
                        assert(bsub.subrange(1, bsub.len() as int) =~= bodyS.subrange(
                            j as int,
                            bodyS.len() as int,
                        ));
                    }
                }
                proof {
                    lemma_exec_stmts_frame(stb, bodyS, (fuel - 1) as nat);
                }
                self.env = saved;
                res
            },
            Statement::If { condition, then_branch, else_branch } => {
                let v = match self.evaluate_expression(condition, fuel - 1) {
                    Err(er) => {
                        return Err(er);
                    },
                    Ok(v) => v,
                };
                let is_true = match &v {
                    Value::Bool(b) => *b,
                    _ => false,
                };
                if is_true {
                    self.evaluate_statement(then_branch, fuel - 1)
                } else {
                    match else_branch {
                        Option::Some(eb) => self.evaluate_statement(eb, fuel - 1),
                        Option::None => Ok(()),
                    }
                }
            },
            Statement::Function { name, params, block } => {
                let mut ps: Vec<Vec<u8>> = Vec::new();
                let mut i: usize = 0;
                while i < params.len()
                    invariant
                        i <= params@.len(),
                        names_view(ps@).len() == i,
                        forall|k: int|
                            0 <= k < i ==> names_view(ps@)[k] == params@[k].lexeme@,
                    decreases params@.len() - i,
                {
                    let nm = copy_bytes(&params[i].lexeme);
                    let ghost pre = ps@;
                    ps.push(nm);
                    i = i + 1;
                    proof {
                        assert(names_view(ps@) =~= names_view(pre).push(nm@));
                    }
                }
                let body = crate::parser::clone_statements(block);
                let v = Value::Function {
                    name: copy_bytes(&name.lexeme),
                    params: ps,
                    body,
                    closure: self.env,
                };
                proof {
                    let sv = stmt_view(*statement);
                    assert(names_view(ps@) =~= (match sv {
                        StmtS::Function { params: p2, .. } => Seq::new(
                            p2.len(),
                            |k: int| p2[k].lexeme,
                        ),
                        _ => Seq::empty(),
                    }));
                }
                let nm = copy_bytes(&name.lexeme);
                self.envs.define(self.env, nm, v);
                Ok(())
            },
            Statement::Return(_, oe) => {
                let v = match oe {
                    Option::None => Value::Nil,
                    Option::Some(e) => match self.evaluate_expression(e, fuel - 1) {
                        Err(er) => {
                            return Err(er);
                        },
                        Ok(v) => v,
                    },
                };
                Err(RuntimeError::Return(v))
            },
        }
    }

    /// Run a program's statements in order, sampling the clock once first.
    /// The result and the new state are those of `s_run` from the old state
    /// with the fresh clock sample.
    pub fn evaluate(&mut self, statements: &Vec<Statement>) -> (r: Result<(), RuntimeError>)
        requires
            old(self).wf(),
        ensures
            final(self).wf(),
            ({
                let o = s_run(
                    StateV { clock: final(self).clock_millis as int, ..old(self).st() },
                    stmts_view(statements@),
                );
                &&& final(self).st() == o.st
                &&& match r {
                    Ok(_) => o.res is Ok,
                    Err(e) => o.res == Err::<(), ErrV>(err_view(e)),
                }
            }),
    {
        let c = now_unix_millis();
        self.clock_millis = if c > MAX_MAG as u64 {
            MAX_MAG as u64
        } else {
            c
        };
        let ghost st0 = self.st();
        let ghost ss = stmts_view(statements@);
        let ghost target = s_run(st0, ss);
        proof {
            crate::parser::lemma_stmts_view_index(statements@);
        }
        let mut i: usize = 0;
        proof {
            assert(ss.subrange(0, ss.len() as int) =~= ss);
        }
        while i < statements.len()
            invariant
                self.wf(),
                i <= statements@.len(),
                ss == stmts_view(statements@),
                ss.len() == statements@.len(),
                forall|k: int| 0 <= k < statements@.len() ==> ss[k] == stmt_view(statements@[k]),
                target == s_run(st0, ss),
                st0 == (StateV { clock: final(self).clock_millis as int, ..old(self).st() })
                    || st0 == (StateV { clock: self.clock_millis as int, ..old(self).st() }),
                st0.clock == self.clock_millis as int,
                ({
                    let rest = s_run(self.st(), ss.subrange(i as int, ss.len() as int));
                    &&& target.st == rest.st
                    &&& target.res == rest.res
                }),
            decreases statements@.len() - i,
        {
            let ghost ssub = ss.subrange(i as int, ss.len() as int);
            proof {
                lemma_exec_stmt_frame(self.st(), ss[i as int], FUEL as nat);
            }
            match self.evaluate_statement(&statements[i], FUEL) {
                Err(er) => {
                    proof {
                        assert(ssub[0] == ss[i as int]);
                    }
                    return Err(er);
                },
                Ok(_) => {},
            }
            i = i + 1;
            proof {
                assert(ssub[0] == ss[i - 1]);
                assert(ssub.subrange(1, ssub.len() as int) =~= ss.subrange(
                    i as int,
                    ss.len() as int,
                ));
            }
        }
        proof {
            assert(ss.subrange(i as int, ss.len() as int) =~= Seq::<StmtS>::empty());
        }
        Ok(())
    }

    /// Drain the output buffer: the lines `print` has produced so far.
    pub fn take_output(&mut self) -> (r: Vec<Vec<u8>>)
        ensures
            output_view(r@) == output_view(old(self).output@),
            final(self).output@ == Seq::<Vec<u8>>::empty(),
            final(self).envs == old(self).envs,
            final(self).env == old(self).env,
            final(self).clock_millis == old(self).clock_millis,
    {
        let mut out: Vec<Vec<u8>> = Vec::new();
        std::mem::swap(&mut out, &mut self.output);
        out
    }
}

/// Run a program's statements in order, each with fresh fuel, stopping at
/// the first signal. A top-level `return` surfaces as its signal.
pub open spec fn s_run(st: StateV, ss: Seq<StmtS>) -> ExecOut
    decreases ss.len(),
{
    if ss.len() == 0 {
        ExecOut { st, res: Ok(()) }
    } else {
        let r = s_exec_stmt(st, ss[0], FUEL as nat);
        match r.res {
            Err(er) => ExecOut { st: r.st, res: Err(er) },
            Ok(_) => s_run(r.st, ss.subrange(1, ss.len() as int)),
        }
    }
}

} // verus!
