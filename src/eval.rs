use vstd::prelude::*;

use crate::error::ScriptError;
use crate::lexer::{copy_chars, Lexeme, TokenType};
use crate::environment::{
    declares, law_assignment_reaches_enclosing, law_redeclaration_and_shadowing, resolve, assign, assign_variable, declare, declare_variable, lookup, lookup_variable, Environment, Frame,
    FrameModel,
};
use crate::parser::{lemma_node_view, BinOp, Node, NodeModel, NodeType, UnaryOp};

verus! {

/// A runtime value as a mathematical value. A float is held as the bit
/// pattern of an IEEE-754 double.
pub enum Val {
    Null,
    Int(i64),
    Float(u64),
    Str(Seq<char>),
    Bool(bool),
}

#[derive(Debug)]
pub enum RuntimeValType {
    Null,
    NumericInteger(i64),
    /// The bit pattern of an IEEE-754 double.
    NumericFloat(u64),
    StringLiteral(Vec<char>),
    Boolean(bool),
}

impl View for RuntimeValType {
    type V = Val;

    open spec fn view(&self) -> Val {
        match self {
            RuntimeValType::Null => Val::Null,
            RuntimeValType::NumericInteger(v) => Val::Int(*v),
            RuntimeValType::NumericFloat(b) => Val::Float(*b),
            RuntimeValType::StringLiteral(s) => Val::Str(s@),
            RuntimeValType::Boolean(b) => Val::Bool(*b),
        }
    }
}

impl RuntimeValType {
    pub fn extract_int_value(&self) -> (r: Option<i64>)
        ensures
            r == (match self@ {
                Val::Int(v) => Some(v),
                _ => None,
            }),
    {
        match self {
            RuntimeValType::NumericInteger(v) => Some(*v),
            _ => None,
        }
    }

    /// The bit pattern of a float value.
    pub fn extract_float_value(&self) -> (r: Option<u64>)
        ensures
            r == (match self@ {
                Val::Float(b) => Some(b),
                _ => None,
            }),
    {
        match self {
            RuntimeValType::NumericFloat(b) => Some(*b),
            _ => None,
        }
    }

    pub fn extract_bool_value(&self) -> (r: Option<bool>)
        ensures
            r == (match self@ {
                Val::Bool(b) => Some(b),
                _ => None,
            }),
    {
        match self {
            RuntimeValType::Boolean(b) => Some(*b),
            _ => None,
        }
    }

    pub fn extract_string_value(&self) -> (r: Option<&Vec<char>>)
        ensures
            match self@ {
                Val::Str(s) => r is Some && r->0@ == s,
                _ => r is None,
            },
    {
        match self {
            RuntimeValType::StringLiteral(s) => Some(s),
            _ => None,
        }
    }
}

#[derive(Debug)]
pub struct RuntimeVal {
    pub runtime_val_type: RuntimeValType,
}

impl View for RuntimeVal {
    type V = Val;

    open spec fn view(&self) -> Val {
        self.runtime_val_type@
    }
}

impl RuntimeVal {
    pub fn null() -> (r: RuntimeVal)
        ensures
            r@ == Val::Null,
    {
        RuntimeVal { runtime_val_type: RuntimeValType::Null }
    }

    pub fn integer(v: i64) -> (r: RuntimeVal)
        ensures
            r@ == Val::Int(v),
    {
        RuntimeVal { runtime_val_type: RuntimeValType::NumericInteger(v) }
    }

    pub fn float_bits(b: u64) -> (r: RuntimeVal)
        ensures
            r@ == Val::Float(b),
    {
        RuntimeVal { runtime_val_type: RuntimeValType::NumericFloat(b) }
    }

    pub fn boolean(b: bool) -> (r: RuntimeVal)
        ensures
            r@ == Val::Bool(b),
    {
        RuntimeVal { runtime_val_type: RuntimeValType::Boolean(b) }
    }

    /// A copy of the value.
    pub fn duplicate(&self) -> (r: RuntimeVal)
        ensures
            r@ == self@,
    {
        let t = match &self.runtime_val_type {
            RuntimeValType::Null => RuntimeValType::Null,
            RuntimeValType::NumericInteger(v) => RuntimeValType::NumericInteger(*v),
            RuntimeValType::NumericFloat(b) => RuntimeValType::NumericFloat(*b),
            RuntimeValType::StringLiteral(s) => RuntimeValType::StringLiteral(copy_chars(s)),
            RuntimeValType::Boolean(b) => RuntimeValType::Boolean(*b),
        };
        RuntimeVal { runtime_val_type: t }
    }
}

/// Floating-point work that the evaluator asks of its caller: the value of
/// a float literal's text, or a binary operation on two bit patterns.
#[derive(Debug)]
pub enum FloatRequest {
    Parse(Vec<char>),
    Binary(BinOp, u64, u64),
}

/// A `FloatRequest` as a mathematical value.
pub enum FloatAsk {
    Parse(Seq<char>),
    Binary(BinOp, u64, u64),
}

impl View for FloatRequest {
    type V = FloatAsk;

    open spec fn view(&self) -> FloatAsk {
        match self {
            FloatRequest::Parse(t) => FloatAsk::Parse(t@),
            FloatRequest::Binary(op, a, b) => FloatAsk::Binary(*op, *a, *b),
        }
    }
}

/// The caller's answer to a `FloatRequest`: a bit pattern for a parsed
/// literal or an arithmetic operation, a truth value for a comparison.
#[derive(Clone, Copy, Debug, PartialEq, Eq, Structural)]
pub enum FloatReply {
    Number(u64),
    Truth(bool),
}

/// Why evaluation stopped before producing a value: a fatal error, or a
/// float operation whose answer is not among the replies handed in.
#[derive(Debug)]
pub enum Interrupt {
    Fail(ScriptError),
    Await(FloatRequest),
}

pub enum Halt {
    Fail(ScriptError),
    Await(FloatAsk),
}

impl View for Interrupt {
    type V = Halt;

    open spec fn view(&self) -> Halt {
        match self {
            Interrupt::Fail(e) => Halt::Fail(*e),
            Interrupt::Await(q) => Halt::Await(q@),
        }
    }
}

pub open spec fn res_view(r: Result<RuntimeVal, Interrupt>) -> Result<Val, Halt> {
    match r {
        Ok(v) => Ok(v@),
        Err(i) => Err(i@),
    }
}

pub open spec fn fail(e: ScriptError) -> Result<Val, Halt> {
    Err(Halt::Fail(e))
}

pub open spec fn lift(r: Result<Val, ScriptError>) -> Result<Val, Halt> {
    match r {
        Ok(v) => Ok(v),
        Err(e) => Err(Halt::Fail(e)),
    }
}

pub open spec fn fits(x: int) -> bool {
    i64::MIN <= x <= i64::MAX
}

/// Integer division rounding toward zero.
pub open spec fn trunc_div(x: int, d: int) -> int {
    if x == 0 {
        0
    } else if x > 0 && d > 0 {
        x / d
    } else if x < 0 && d < 0 {
        (-x) / (-d)
    } else if x < 0 {
        -((-x) / d)
    } else {
        -(x / (-d))
    }
}

/// The remainder of `trunc_div`: it has the sign of `x`.
pub open spec fn trunc_rem(x: int, d: int) -> int {
    if x == 0 {
        0
    } else if x > 0 && d > 0 {
        x % d
    } else if x < 0 && d < 0 {
        -((-x) % (-d))
    } else if x < 0 {
        -((-x) % d)
    } else {
        x % (-d)
    }
}

/// A binary operator on two integers: the native 64-bit result, with an
/// Arithmetic error for a zero divisor or a result out of range.
pub open spec fn int_binary(op: BinOp, a: i64, b: i64) -> Result<Val, ScriptError> {
    let x = a as int;
    let y = b as int;
    match op {
        BinOp::Add => if fits(x + y) {
            Ok(Val::Int((x + y) as i64))
        } else {
            Err(ScriptError::Arithmetic)
        },
        BinOp::Sub => if fits(x - y) {
            Ok(Val::Int((x - y) as i64))
        } else {
            Err(ScriptError::Arithmetic)
        },
        BinOp::Mul => if fits(x * y) {
            Ok(Val::Int((x * y) as i64))
        } else {
            Err(ScriptError::Arithmetic)
        },
        BinOp::Div => if y == 0 || !fits(trunc_div(x, y)) {
            Err(ScriptError::Arithmetic)
        } else {
            Ok(Val::Int(trunc_div(x, y) as i64))
        },
        BinOp::Rem => if y == 0 || (x == i64::MIN && y == -1) {
            Err(ScriptError::Arithmetic)
        } else {
            Ok(Val::Int(trunc_rem(x, y) as i64))
        },
        BinOp::Eq => Ok(Val::Bool(x == y)),
        BinOp::Ne => Ok(Val::Bool(x != y)),
        BinOp::Gt => Ok(Val::Bool(x > y)),
        BinOp::Lt => Ok(Val::Bool(x < y)),
        BinOp::Ge => Ok(Val::Bool(x >= y)),
        BinOp::Le => Ok(Val::Bool(x <= y)),
        BinOp::And | BinOp::Or => Err(ScriptError::Type),
    }
}

/// A binary operator on two booleans.
pub open spec fn bool_binary(op: BinOp, a: bool, b: bool) -> Result<Val, ScriptError> {
    match op {
        BinOp::Eq => Ok(Val::Bool(a == b)),
        BinOp::Ne => Ok(Val::Bool(a != b)),
        BinOp::And => Ok(Val::Bool(a && b)),
        BinOp::Or => Ok(Val::Bool(a || b)),
        _ => Err(ScriptError::Type),
    }
}

pub open spec fn is_arith(op: BinOp) -> bool {
    op is Add || op is Sub || op is Mul || op is Div || op is Rem
}

pub open spec fn is_logic(op: BinOp) -> bool {
    op is And || op is Or
}

/// The value that a reply gives to a float operation: a float for
/// arithmetic, a boolean for a comparison.
pub open spec fn float_reply(op: BinOp, rep: FloatReply) -> Result<Val, ScriptError> {
    match rep {
        FloatReply::Number(b) => if is_arith(op) {
            Ok(Val::Float(b))
        } else {
            Err(ScriptError::BadReply)
        },
        FloatReply::Truth(t) => if is_arith(op) || is_logic(op) {
            Err(ScriptError::BadReply)
        } else {
            Ok(Val::Bool(t))
        },
    }
}

/// `!` on a value: bitwise complement of an integer, negation of a boolean.
pub open spec fn unary(v: Val) -> Result<Val, ScriptError> {
    match v {
        Val::Int(x) => Ok(Val::Int((-1 - x) as i64)),
        Val::Bool(b) => Ok(Val::Bool(!b)),
        _ => Err(ScriptError::Type),
    }
}

/// The state that evaluation threads: the frames, what has been printed,
/// the loop steps left, and how many float replies have been used.
pub struct MState {
    pub env: Seq<FrameModel>,
    pub output: Seq<Val>,
    pub fuel: nat,
    pub cursor: nat,
}

pub type Outcome = (Result<Val, Halt>, MState);

/// The next float reply, or a request for it when none is left.
pub open spec fn next_reply(st: MState, rs: Seq<FloatReply>, ask: FloatAsk) -> Result<
    (FloatReply, MState),
    Halt,
> {
    if st.cursor < rs.len() {
        Ok((rs[st.cursor as int], MState { cursor: st.cursor + 1, ..st }))
    } else {
        Err(Halt::Await(ask))
    }
}

/// A binary operator on two evaluated operands; operands of different
/// kinds are a Type error.
pub open spec fn binary(op: BinOp, l: Val, r: Val, st: MState, rs: Seq<FloatReply>) -> Outcome {
    match (l, r) {
        (Val::Int(a), Val::Int(b)) => (lift(int_binary(op, a, b)), st),
        (Val::Bool(a), Val::Bool(b)) => (lift(bool_binary(op, a, b)), st),
        (Val::Float(a), Val::Float(b)) => if is_logic(op) {
            (fail(ScriptError::Type), st)
        } else {
            match next_reply(st, rs, FloatAsk::Binary(op, a, b)) {
                Err(h) => (Err(h), st),
                Ok((rep, st2)) => (lift(float_reply(op, rep)), st2),
            }
        },
        _ => (fail(ScriptError::Type), st),
    }
}

pub open spec fn name_of(n: NodeModel) -> Option<Seq<char>> {
    match n.value {
        Some(Lexeme::Identifier(name)) => Some(name),
        _ => None,
    }
}

/// Evaluation of a node in frame `f`.
pub open spec fn ev(n: NodeModel, f: int, st: MState, rs: Seq<FloatReply>) -> Outcome
    decreases n, n.body.len() + 2, 0nat,
{
    match n.node_type {
        NodeType::NumericLiteral => match n.value {
            Some(Lexeme::Integer(v)) => (Ok(Val::Int(v)), st),
            Some(Lexeme::Float(text)) => match next_reply(st, rs, FloatAsk::Parse(text)) {
                Err(h) => (Err(h), st),
                Ok((FloatReply::Number(b), st2)) => (Ok(Val::Float(b)), st2),
                Ok((FloatReply::Truth(_), st2)) => (fail(ScriptError::BadReply), st2),
            },
            _ => (fail(ScriptError::Unsupported), st),
        },
        NodeType::StringLiteral => match n.value {
            Some(Lexeme::StringLiteral(s)) => (Ok(Val::Str(s)), st),
            _ => (fail(ScriptError::Unsupported), st),
        },
        NodeType::Boolean => match n.value {
            Some(Lexeme::Boolean(b)) => (Ok(Val::Bool(b)), st),
            _ => (fail(ScriptError::Unsupported), st),
        },
        NodeType::Identifier => match name_of(n) {
            Some(name) => (lift(lookup(st.env, f, name)), st),
            None => (fail(ScriptError::Unsupported), st),
        },
        NodeType::Assignment => match name_of(n) {
            Some(name) => if n.body.len() == 0 {
                (fail(ScriptError::Unsupported), st)
            } else {
                match ev(n.body[0], f, st, rs) {
                    (Err(h), st1) => (Err(h), st1),
                    (Ok(v), st1) => match assign(st1.env, f, name, v) {
                        Ok(env2) => (Ok(Val::Null), MState { env: env2, ..st1 }),
                        Err(e) => (fail(e), st1),
                    },
                }
            },
            None => (fail(ScriptError::Unsupported), st),
        },
        NodeType::Declaration => match name_of(n) {
            Some(name) => if n.body.len() == 0 {
                (fail(ScriptError::Unsupported), st)
            } else {
                match ev(n.body[0], f, st, rs) {
                    (Err(h), st1) => (Err(h), st1),
                    (Ok(v), st1) => match declare(st1.env, f, name, v) {
                        Ok(env2) => (Ok(v), MState { env: env2, ..st1 }),
                        Err(e) => (fail(e), st1),
                    },
                }
            },
            None => (fail(ScriptError::Unsupported), st),
        },
        NodeType::UnaryExpr(_) => if n.body.len() != 1 {
            (fail(ScriptError::Unsupported), st)
        } else {
            match ev(n.body[0], f, st, rs) {
                (Err(h), st1) => (Err(h), st1),
                (Ok(v), st1) => (lift(unary(v)), st1),
            }
        },
        NodeType::BinaryExpr(op) => if n.body.len() != 2 {
            (fail(ScriptError::Unsupported), st)
        } else {
            match ev(n.body[0], f, st, rs) {
                (Err(h), st1) => (Err(h), st1),
                (Ok(l), st1) => match ev(n.body[1], f, st1, rs) {
                    (Err(h), st2) => (Err(h), st2),
                    (Ok(r), st2) => binary(op, l, r, st2, rs),
                },
            }
        },
        NodeType::Print => if n.body.len() != 1 {
            (fail(ScriptError::Unsupported), st)
        } else {
            match ev(n.body[0], f, st, rs) {
                (Err(h), st1) => (Err(h), st1),
                (Ok(v), st1) => if v is Null {
                    (fail(ScriptError::Type), st1)
                } else {
                    (Ok(Val::Null), MState { output: st1.output.push(v), ..st1 })
                },
            }
        },
        NodeType::Scope => run_seq(n, 0, f, st, false, Val::Null, rs),
        _ => (fail(ScriptError::Unsupported), st),
    }
}

/// Runs the statements of `b` in a new frame whose parent is `f`; the frame
/// is discarded afterwards.
pub open spec fn run_block(b: NodeModel, f: int, st: MState, rs: Seq<FloatReply>) -> Outcome
    decreases b, b.body.len() + 1, 0nat,
{
    let inner = MState {
        env: st.env.push(FrameModel { parent: Some(f as usize), vars: Seq::empty() }),
        ..st
    };
    let (r, st2) = run_seq(b, 0, st.env.len() as int, inner, false, Val::Null, rs);
    (r, MState { env: st2.env.drop_last(), ..st2 })
}

/// Runs the statements of `n` from the `k`-th on, in frame `f`. `failed`
/// records that the last `if` or `elseif` of a chain ran no branch; `last`
/// is the value of the last plain expression statement, which the sequence
/// returns.
pub open spec fn run_seq(
    n: NodeModel,
    k: int,
    f: int,
    st: MState,
    failed: bool,
    last: Val,
    rs: Seq<FloatReply>,
) -> Outcome
    decreases n, n.body.len() - k, st.fuel + 1,
{
    if k < 0 || k >= n.body.len() {
        (Ok(last), st)
    } else {
        let s = n.body[k];
        match s.node_type {
            NodeType::Loop => run_loop(n, k, f, st, failed, last, rs),
            NodeType::If => if s.body.len() != 2 {
                (fail(ScriptError::Unsupported), st)
            } else {
                match ev(s.body[0], f, st, rs) {
                    (Err(h), st1) => (Err(h), st1),
                    (Ok(Val::Bool(true)), st1) => match run_block(s.body[1], f, st1, rs) {
                        (Err(h), st2) => (Err(h), st2),
                        (Ok(_), st2) => run_seq(n, k + 1, f, st2, false, last, rs),
                    },
                    (Ok(Val::Bool(false)), st1) => run_seq(n, k + 1, f, st1, true, last, rs),
                    (Ok(_), st1) => (fail(ScriptError::Type), st1),
                }
            },
            NodeType::ElseIf => if s.body.len() != 2 {
                (fail(ScriptError::Unsupported), st)
            } else {
                match ev(s.body[0], f, st, rs) {
                    (Err(h), st1) => (Err(h), st1),
                    (Ok(Val::Bool(c)), st1) => if c && failed {
                        match run_block(s.body[1], f, st1, rs) {
                            (Err(h), st2) => (Err(h), st2),
                            (Ok(_), st2) => run_seq(n, k + 1, f, st2, false, last, rs),
                        }
                    } else {
                        run_seq(n, k + 1, f, st1, failed && !c, last, rs)
                    },
                    (Ok(_), st1) => (fail(ScriptError::Type), st1),
                }
            },
            NodeType::Else => if s.body.len() != 1 {
                (fail(ScriptError::Unsupported), st)
            } else if failed {
                match run_block(s.body[0], f, st, rs) {
                    (Err(h), st2) => (Err(h), st2),
                    (Ok(_), st2) => run_seq(n, k + 1, f, st2, false, last, rs),
                }
            } else {
                run_seq(n, k + 1, f, st, false, last, rs)
            },
            NodeType::Scope => match run_block(s, f, st, rs) {
                (Err(h), st2) => (Err(h), st2),
                (Ok(_), st2) => run_seq(n, k + 1, f, st2, failed, last, rs),
            },
            NodeType::Print => match ev(s, f, st, rs) {
                (Err(h), st2) => (Err(h), st2),
                (Ok(_), st2) => run_seq(n, k + 1, f, st2, failed, last, rs),
            },
            NodeType::EOL => run_seq(n, k + 1, f, st, failed, last, rs),
            _ => match ev(s, f, st, rs) {
                (Err(h), st2) => (Err(h), st2),
                (Ok(v), st2) => run_seq(n, k + 1, f, st2, failed, v, rs),
            },
        }
    }
}

/// The loop at statement `k` of `n`: each pass takes a step, tests the
/// condition and, while it holds, runs the body in a new frame.
pub open spec fn run_loop(
    n: NodeModel,
    k: int,
    f: int,
    st: MState,
    failed: bool,
    last: Val,
    rs: Seq<FloatReply>,
) -> Outcome
    decreases n, n.body.len() - k, st.fuel,
{
    if k < 0 || k >= n.body.len() {
        (fail(ScriptError::Unsupported), st)
    } else {
        let s = n.body[k];
        if s.body.len() != 2 {
            (fail(ScriptError::Unsupported), st)
        } else if st.fuel == 0 {
            (fail(ScriptError::StepLimit), st)
        } else {
            let st0 = MState { fuel: (st.fuel - 1) as nat, ..st };
            match ev(s.body[0], f, st0, rs) {
                (Err(h), st1) => (Err(h), st1),
                (Ok(Val::Bool(false)), st1) => run_seq(n, k + 1, f, st1, failed, last, rs),
                (Ok(Val::Bool(true)), st1) => match run_block(s.body[1], f, st1, rs) {
                    (Err(h), st2) => (Err(h), st2),
                    (Ok(_), st2) => if st2.fuel < st.fuel {
                        run_loop(n, k, f, st2, failed, last, rs)
                    } else {
                        (fail(ScriptError::StepLimit), st2)
                    },
                },
                (Ok(_), st1) => (fail(ScriptError::Type), st1),
            }
        }
    }
}

/// The initial state: one frame without a parent, no output.
pub open spec fn initial_state(fuel: nat) -> MState {
    MState {
        env: seq![FrameModel { parent: None, vars: Seq::empty() }],
        output: Seq::empty(),
        fuel,
        cursor: 0,
    }
}

/// A whole program run in a fresh top frame.
pub open spec fn run(prog: NodeModel, rs: Seq<FloatReply>, fuel: nat) -> Outcome {
    run_seq(prog, 0, 0, initial_state(fuel), false, Val::Null, rs)
}

/// The evaluator's state: the frames, the printed values, the loop steps
/// left, and how many float replies have been used.
#[derive(Debug)]
pub struct Machine {
    pub env: Environment,
    pub output: Vec<RuntimeVal>,
    pub fuel: u64,
    pub cursor: usize,
}

impl View for Machine {
    type V = MState;

    open spec fn view(&self) -> MState {
        MState {
            env: self.env@,
            output: self.output@.map_values(|v: RuntimeVal| v@),
            fuel: self.fuel as nat,
            cursor: self.cursor as nat,
        }
    }
}

impl Machine {
    /// A machine with one top frame, no output and `fuel` loop steps.
    pub fn new(fuel: u64) -> (r: Machine)
        ensures
            r@ == initial_state(fuel as nat),
            r.env.frames@.len() == 1,
    {
        let top = Frame { parent: None, variables: Vec::new() };
        let r = Machine { env: Environment { frames: vec![top] }, output: Vec::new(), fuel, cursor: 0 };
        assert(r@.env =~= initial_state(fuel as nat).env) by {
            assert(r.env.frames@[0]@.vars =~= Seq::<(Seq<char>, Val)>::empty());
        }
        assert(r@.output =~= Seq::<Val>::empty());
        r
    }
}

proof fn lemma_child(n: &Node, k: int)
    requires
        0 <= k < n.body@.len(),
    ensures
        n@.body.len() == n.body@.len(),
        n@.body[k] == n.body@[k]@,
        n@.node_type == n.node_type,
{
    lemma_node_view(*n);
}

proof fn lemma_shape(n: &Node)
    ensures
        n@.body.len() == n.body@.len(),
        n@.node_type == n.node_type,
        n@.value == crate::parser::token_view(n.value),
{
    lemma_node_view(*n);
}

/// The next float reply, or a request for `ask` when none is left.
fn take_reply(m: &mut Machine, replies: &Vec<FloatReply>, ask: FloatRequest) -> (r: Result<
    FloatReply,
    Interrupt,
>)
    ensures
        match next_reply(old(m)@, replies@, ask@) {
            Ok((rep, st)) => r == Ok::<FloatReply, Interrupt>(rep) && final(m)@ == st,
            Err(h) => r matches Err(i) && i@ == h && final(m)@ == old(m)@,
        },
        final(m).env == old(m).env,
        final(m).fuel == old(m).fuel,
{
    if m.cursor < replies.len() {
        let rep = replies[m.cursor];
        m.cursor = m.cursor + 1;
        Ok(rep)
    } else {
        Err(Interrupt::Await(ask))
    }
}

/// `!` on an integer: its bitwise complement.
pub fn eval_numeric_unary_expr(right: &RuntimeVal, operator: UnaryOp) -> (r: Result<RuntimeVal, ScriptError>)
    ensures
        match right@ {
            Val::Int(_) => lift(unary(right@)) == lift(match r {
                Ok(v) => Ok(v@),
                Err(e) => Err(e),
            }),
            _ => r == Err::<RuntimeVal, ScriptError>(ScriptError::Type),
        },
{
    match right.runtime_val_type {
        RuntimeValType::NumericInteger(x) => Ok(RuntimeVal::integer(-1 - x)),
        _ => Err(ScriptError::Type),
    }
}

/// `!` on a boolean: its negation.
pub fn eval_boolean_unary_expr(right: &RuntimeVal, operator: UnaryOp) -> (r: Result<RuntimeVal, ScriptError>)
    ensures
        match right@ {
            Val::Bool(_) => lift(unary(right@)) == lift(match r {
                Ok(v) => Ok(v@),
                Err(e) => Err(e),
            }),
            _ => r == Err::<RuntimeVal, ScriptError>(ScriptError::Type),
        },
{
    match right.runtime_val_type {
        RuntimeValType::Boolean(b) => Ok(RuntimeVal::boolean(!b)),
        _ => Err(ScriptError::Type),
    }
}

pub open spec fn plain(r: Result<RuntimeVal, ScriptError>) -> Result<Val, ScriptError> {
    match r {
        Ok(v) => Ok(v@),
        Err(e) => Err(e),
    }
}

/// A binary operator on two integers: the native result, with an
/// Arithmetic error for a zero divisor or an overflow.
pub fn eval_int_binary(a: i64, b: i64, operator: BinOp) -> (r: Result<RuntimeVal, ScriptError>)
    ensures
        plain(r) == int_binary(operator, a, b),
{
    match operator {
        BinOp::Add => match a.checked_add(b) {
            Some(v) => Ok(RuntimeVal::integer(v)),
            None => Err(ScriptError::Arithmetic),
        },
        BinOp::Sub => match a.checked_sub(b) {
            Some(v) => Ok(RuntimeVal::integer(v)),
            None => Err(ScriptError::Arithmetic),
        },
        BinOp::Mul => match a.checked_mul(b) {
            Some(v) => Ok(RuntimeVal::integer(v)),
            None => Err(ScriptError::Arithmetic),
        },
        BinOp::Div => match a.checked_div(b) {
            Some(v) => Ok(RuntimeVal::integer(v)),
            None => Err(ScriptError::Arithmetic),
        },
        BinOp::Rem => match a.checked_rem(b) {
            Some(v) => Ok(RuntimeVal::integer(v)),
            None => Err(ScriptError::Arithmetic),
        },
        BinOp::Eq => Ok(RuntimeVal::boolean(a == b)),
        BinOp::Ne => Ok(RuntimeVal::boolean(a != b)),
        BinOp::Gt => Ok(RuntimeVal::boolean(a > b)),
        BinOp::Lt => Ok(RuntimeVal::boolean(a < b)),
        BinOp::Ge => Ok(RuntimeVal::boolean(a >= b)),
        BinOp::Le => Ok(RuntimeVal::boolean(a <= b)),
        BinOp::And | BinOp::Or => Err(ScriptError::Type),
    }
}

/// A binary operator on two numbers of one kind. Integers are computed
/// here; for floats `reply` is the caller's answer to the operation, and
/// without it the operation is requested. Mixed or non-numeric operands
/// are a Type error.
pub fn eval_numeric_binary_expr(
    left: &RuntimeVal,
    right: &RuntimeVal,
    operator: BinOp,
    reply: Option<FloatReply>,
) -> (r: Result<RuntimeVal, Interrupt>)
    ensures
        res_view(r) == (match (left@, right@) {
            (Val::Int(a), Val::Int(b)) => lift(int_binary(operator, a, b)),
            (Val::Float(a), Val::Float(b)) => if is_logic(operator) {
                fail(ScriptError::Type)
            } else {
                match reply {
                    None => Err(Halt::Await(FloatAsk::Binary(operator, a, b))),
                    Some(rep) => lift(float_reply(operator, rep)),
                }
            },
            _ => fail(ScriptError::Type),
        }),
{
    match (&left.runtime_val_type, &right.runtime_val_type) {
        (RuntimeValType::NumericInteger(a), RuntimeValType::NumericInteger(b)) => {
            match eval_int_binary(*a, *b, operator) {
                Ok(v) => Ok(v),
                Err(e) => Err(Interrupt::Fail(e)),
            }
        },
        (RuntimeValType::NumericFloat(a), RuntimeValType::NumericFloat(b)) => {
            if matches!(operator, BinOp::And) || matches!(operator, BinOp::Or) {
                return Err(Interrupt::Fail(ScriptError::Type));
            }
            match reply {
                None => Err(Interrupt::Await(FloatRequest::Binary(operator, *a, *b))),
                Some(rep) => match float_value(operator, rep) {
                    Ok(v) => Ok(v),
                    Err(e) => Err(Interrupt::Fail(e)),
                },
            }
        },
        _ => Err(Interrupt::Fail(ScriptError::Type)),
    }
}

fn float_value(operator: BinOp, rep: FloatReply) -> (r: Result<RuntimeVal, ScriptError>)
    ensures
        plain(r) == float_reply(operator, rep),
{
    let arith = matches!(operator, BinOp::Add) || matches!(operator, BinOp::Sub)
        || matches!(operator, BinOp::Mul) || matches!(operator, BinOp::Div)
        || matches!(operator, BinOp::Rem);
    let logic = matches!(operator, BinOp::And) || matches!(operator, BinOp::Or);
    match rep {
        FloatReply::Number(b) => if arith {
            Ok(RuntimeVal::float_bits(b))
        } else {
            Err(ScriptError::BadReply)
        },
        FloatReply::Truth(t) => if arith || logic {
            Err(ScriptError::BadReply)
        } else {
            Ok(RuntimeVal::boolean(t))
        },
    }
}

/// A binary operator on two booleans: `==`, `!=`, `&&`, `||`; any other
/// operator, or a non-boolean operand, is a Type error.
pub fn eval_bool_binary_expr(left: &RuntimeVal, right: &RuntimeVal, operator: BinOp) -> (r: Result<
    RuntimeVal,
    ScriptError,
>)
    ensures
        plain(r) == (match (left@, right@) {
            (Val::Bool(a), Val::Bool(b)) => bool_binary(operator, a, b),
            _ => Err(ScriptError::Type),
        }),
{
    match (&left.runtime_val_type, &right.runtime_val_type) {
        (RuntimeValType::Boolean(a), RuntimeValType::Boolean(b)) => match operator {
            BinOp::Eq => Ok(RuntimeVal::boolean(*a == *b)),
            BinOp::Ne => Ok(RuntimeVal::boolean(*a != *b)),
            BinOp::And => Ok(RuntimeVal::boolean(*a && *b)),
            BinOp::Or => Ok(RuntimeVal::boolean(*a || *b)),
            _ => Err(ScriptError::Type),
        },
        _ => Err(ScriptError::Type),
    }
}

/// The name held by an identifier, assignment or declaration node.
fn name_in(node: &Node) -> (r: Option<&Vec<char>>)
    ensures
        match name_of(node@) {
            Some(nm) => r is Some && r->0@ == nm,
            None => r is None,
        },
{
    proof {
        lemma_shape(node);
    }
    match &node.value {
        Some(tok) => match &tok.token_type {
            TokenType::Identifier(name) => Some(name),
            _ => None,
        },
        None => None,
    }
}

/// A numeric literal: an integer as it stands, a float through a reply.
fn eval_numeric_literal(node: &Node, m: &mut Machine, replies: &Vec<FloatReply>) -> (r: Result<
    RuntimeVal,
    Interrupt,
>)
    requires
        node.node_type == NodeType::NumericLiteral,
    ensures
        (res_view(r), final(m)@) == ev(node@, 0, old(m)@, replies@),
        final(m).env == old(m).env,
        final(m).fuel == old(m).fuel,
{
    proof {
        lemma_shape(node);
    }
    match &node.value {
        Some(tok) => match &tok.token_type {
            TokenType::Integer(v) => Ok(RuntimeVal::integer(*v)),
            TokenType::Float(text) => {
                let ask = FloatRequest::Parse(copy_chars(text));
                match take_reply(m, replies, ask) {
                    Err(i) => Err(i),
                    Ok(FloatReply::Number(b)) => Ok(RuntimeVal::float_bits(b)),
                    Ok(FloatReply::Truth(_)) => Err(Interrupt::Fail(ScriptError::BadReply)),
                }
            },
            _ => Err(Interrupt::Fail(ScriptError::Unsupported)),
        },
        None => Err(Interrupt::Fail(ScriptError::Unsupported)),
    }
}

/// The value of a name, looked up from `frame`.
pub fn eval_identifier(identifier: &Node, frame: usize, m: &Machine) -> (r: Result<RuntimeVal, Interrupt>)
    requires
        identifier.node_type == NodeType::Identifier,
    ensures
        (res_view(r), m@) == ev(identifier@, frame as int, m@, Seq::empty()),
{
    proof {
        lemma_shape(identifier);
    }
    match name_in(identifier) {
        None => Err(Interrupt::Fail(ScriptError::Unsupported)),
        Some(name) => match lookup_variable(&m.env, frame, name) {
            Ok(v) => Ok(v),
            Err(e) => Err(Interrupt::Fail(e)),
        },
    }
}

/// Evaluates the first right-hand side and stores it in the binding that
/// the name denotes; yields `Null`.
pub fn eval_assignment(node: &Node, frame: usize, m: &mut Machine, replies: &Vec<FloatReply>) -> (r:
    Result<RuntimeVal, Interrupt>)
    requires
        frame < old(m).env.frames@.len(),
        node.node_type == NodeType::Assignment,
    ensures
        (res_view(r), final(m)@) == ev(node@, frame as int, old(m)@, replies@),
        final(m).env.frames@.len() == old(m).env.frames@.len(),
        final(m).fuel <= old(m).fuel,
    decreases node, 2nat,
{
    proof {
        lemma_shape(node);
    }
    let name = match name_in(node) {
        None => {
            return Err(Interrupt::Fail(ScriptError::Unsupported));
        },
        Some(name) => name,
    };
    if node.body.len() == 0 {
        return Err(Interrupt::Fail(ScriptError::Unsupported));
    }
    proof {
        lemma_child(node, 0);
    }
    let v = match eval(&node.body[0], frame, m, replies) {
        Err(i) => {
            return Err(i);
        },
        Ok(v) => v,
    };
    match assign_variable(&mut m.env, frame, name, &v) {
        Ok(n) => Ok(n),
        Err(e) => Err(Interrupt::Fail(e)),
    }
}

/// Evaluates the first right-hand side and binds the name to it in
/// `frame`; yields the value bound.
pub fn eval_declaration(node: &Node, frame: usize, m: &mut Machine, replies: &Vec<FloatReply>) -> (r:
    Result<RuntimeVal, Interrupt>)
    requires
        frame < old(m).env.frames@.len(),
        node.node_type == NodeType::Declaration,
    ensures
        (res_view(r), final(m)@) == ev(node@, frame as int, old(m)@, replies@),
        final(m).env.frames@.len() == old(m).env.frames@.len(),
        final(m).fuel <= old(m).fuel,
    decreases node, 2nat,
{
    proof {
        lemma_shape(node);
    }
    let name = match name_in(node) {
        None => {
            return Err(Interrupt::Fail(ScriptError::Unsupported));
        },
        Some(name) => name,
    };
    if node.body.len() == 0 {
        return Err(Interrupt::Fail(ScriptError::Unsupported));
    }
    proof {
        lemma_child(node, 0);
    }
    let v = match eval(&node.body[0], frame, m, replies) {
        Err(i) => {
            return Err(i);
        },
        Ok(v) => v,
    };
    match declare_variable(&mut m.env, frame, name, &v) {
        Ok(n) => Ok(n),
        Err(e) => Err(Interrupt::Fail(e)),
    }
}

/// `!` applied to the value of the operand.
pub fn eval_unary_expr(node: &Node, frame: usize, m: &mut Machine, replies: &Vec<FloatReply>) -> (r:
    Result<RuntimeVal, Interrupt>)
    requires
        frame < old(m).env.frames@.len(),
        node.node_type is UnaryExpr,
    ensures
        (res_view(r), final(m)@) == ev(node@, frame as int, old(m)@, replies@),
        final(m).env.frames@.len() == old(m).env.frames@.len(),
        final(m).fuel <= old(m).fuel,
    decreases node, 2nat,
{
    proof {
        lemma_shape(node);
    }
    if node.body.len() != 1 {
        return Err(Interrupt::Fail(ScriptError::Unsupported));
    }
    proof {
        lemma_child(node, 0);
    }
    let v = match eval(&node.body[0], frame, m, replies) {
        Err(i) => {
            return Err(i);
        },
        Ok(v) => v,
    };
    let r = match v.runtime_val_type {
        RuntimeValType::NumericInteger(_) => eval_numeric_unary_expr(&v, UnaryOp::Not),
        RuntimeValType::Boolean(_) => eval_boolean_unary_expr(&v, UnaryOp::Not),
        _ => Err(ScriptError::Type),
    };
    match r {
        Ok(x) => Ok(x),
        Err(e) => Err(Interrupt::Fail(e)),
    }
}

/// Both operands are evaluated, left first, then the operator is applied.
pub fn eval_binary_expr(node: &Node, frame: usize, m: &mut Machine, replies: &Vec<FloatReply>) -> (r:
    Result<RuntimeVal, Interrupt>)
    requires
        frame < old(m).env.frames@.len(),
        node.node_type is BinaryExpr,
    ensures
        (res_view(r), final(m)@) == ev(node@, frame as int, old(m)@, replies@),
        final(m).env.frames@.len() == old(m).env.frames@.len(),
        final(m).fuel <= old(m).fuel,
    decreases node, 2nat,
{
    proof {
        lemma_shape(node);
    }
    let op = match node.node_type {
        NodeType::BinaryExpr(op) => op,
        _ => {
            return Err(Interrupt::Fail(ScriptError::Unsupported));
        },
    };
    if node.body.len() != 2 {
        return Err(Interrupt::Fail(ScriptError::Unsupported));
    }
    proof {
        lemma_child(node, 0);
        lemma_child(node, 1);
    }
    let left = match eval(&node.body[0], frame, m, replies) {
        Err(i) => {
            return Err(i);
        },
        Ok(v) => v,
    };
    let right = match eval(&node.body[1], frame, m, replies) {
        Err(i) => {
            return Err(i);
        },
        Ok(v) => v,
    };
    match (&left.runtime_val_type, &right.runtime_val_type) {
        (RuntimeValType::NumericInteger(_), RuntimeValType::NumericInteger(_)) => {
            eval_numeric_binary_expr(&left, &right, op, None)
        },
        (RuntimeValType::NumericFloat(a), RuntimeValType::NumericFloat(b)) => {
            if matches!(op, BinOp::And) || matches!(op, BinOp::Or) {
                return Err(Interrupt::Fail(ScriptError::Type));
            }
            let rep = match take_reply(m, replies, FloatRequest::Binary(op, *a, *b)) {
                Err(i) => {
                    return Err(i);
                },
                Ok(rep) => rep,
            };
            eval_numeric_binary_expr(&left, &right, op, Some(rep))
        },
        (RuntimeValType::Boolean(_), RuntimeValType::Boolean(_)) => {
            match eval_bool_binary_expr(&left, &right, op) {
                Ok(v) => Ok(v),
                Err(e) => Err(Interrupt::Fail(e)),
            }
        },
        _ => Err(Interrupt::Fail(ScriptError::Type)),
    }
}

/// Evaluates the operand and appends it to the output; `Null` cannot be
/// printed. Yields `Null`.
pub fn eval_print(node: &Node, frame: usize, m: &mut Machine, replies: &Vec<FloatReply>) -> (r: Result<
    RuntimeVal,
    Interrupt,
>)
    requires
        frame < old(m).env.frames@.len(),
        node.node_type == NodeType::Print,
    ensures
        (res_view(r), final(m)@) == ev(node@, frame as int, old(m)@, replies@),
        final(m).env.frames@.len() == old(m).env.frames@.len(),
        final(m).fuel <= old(m).fuel,
    decreases node, 2nat,
{
    proof {
        lemma_shape(node);
    }
    if node.body.len() != 1 {
        return Err(Interrupt::Fail(ScriptError::Unsupported));
    }
    proof {
        lemma_child(node, 0);
    }
    let v = match eval(&node.body[0], frame, m, replies) {
        Err(i) => {
            return Err(i);
        },
        Ok(v) => v,
    };
    if matches!(v.runtime_val_type, RuntimeValType::Null) {
        return Err(Interrupt::Fail(ScriptError::Type));
    }
    let ghost before = m.output@;
    m.output.push(v);
    assert(m.output@.map_values(|x: RuntimeVal| x@) =~= before.map_values(|x: RuntimeVal| x@).push(
        v@,
    ));
    Ok(RuntimeVal::null())
}

/// Evaluates a node in `frame`.
pub fn eval(node: &Node, frame: usize, m: &mut Machine, replies: &Vec<FloatReply>) -> (r: Result<
    RuntimeVal,
    Interrupt,
>)
    requires
        frame < old(m).env.frames@.len(),
    ensures
        (res_view(r), final(m)@) == ev(node@, frame as int, old(m)@, replies@),
        final(m).env.frames@.len() == old(m).env.frames@.len(),
        final(m).fuel <= old(m).fuel,
    decreases node, 3nat,
{
    proof {
        lemma_shape(node);
    }
    match node.node_type {
        NodeType::NumericLiteral => eval_numeric_literal(node, m, replies),
        NodeType::StringLiteral => match &node.value {
            Some(tok) => match &tok.token_type {
                TokenType::StringLiteral(text) => Ok(
                    RuntimeVal { runtime_val_type: RuntimeValType::StringLiteral(copy_chars(text)) },
                ),
                _ => Err(Interrupt::Fail(ScriptError::Unsupported)),
            },
            None => Err(Interrupt::Fail(ScriptError::Unsupported)),
        },
        NodeType::Boolean => match &node.value {
            Some(tok) => match &tok.token_type {
                TokenType::Boolean(b) => Ok(RuntimeVal::boolean(*b)),
                _ => Err(Interrupt::Fail(ScriptError::Unsupported)),
            },
            None => Err(Interrupt::Fail(ScriptError::Unsupported)),
        },
        NodeType::Identifier => eval_identifier(node, frame, m),
        NodeType::Assignment => eval_assignment(node, frame, m, replies),
        NodeType::Declaration => eval_declaration(node, frame, m, replies),
        NodeType::UnaryExpr(_) => eval_unary_expr(node, frame, m, replies),
        NodeType::BinaryExpr(_) => eval_binary_expr(node, frame, m, replies),
        NodeType::Print => eval_print(node, frame, m, replies),
        NodeType::Scope => eval_program(node, frame, m, replies),
        _ => Err(Interrupt::Fail(ScriptError::Unsupported)),
    }
}

/// Runs the statements of `b` in a new frame whose parent is `frame`, then
/// discards that frame.
fn eval_block(b: &Node, frame: usize, m: &mut Machine, replies: &Vec<FloatReply>) -> (r: Result<
    RuntimeVal,
    Interrupt,
>)
    requires
        frame < old(m).env.frames@.len(),
    ensures
        (res_view(r), final(m)@) == run_block(b@, frame as int, old(m)@, replies@),
        final(m).env.frames@.len() == old(m).env.frames@.len(),
        final(m).fuel <= old(m).fuel,
    decreases b, 1nat,
{
    let ghost before = m@;
    let inner = m.env.frames.len();
    m.env.frames.push(Frame { parent: Some(frame), variables: Vec::new() });
    assert(m@.env =~= before.env.push(FrameModel { parent: Some(frame), vars: Seq::empty() })) by {
        assert(m.env.frames@[inner as int]@.vars =~= Seq::<(Seq<char>, Val)>::empty());
    }
    let r = eval_program(b, inner, m, replies);
    let ghost mid = m@;
    let _ = m.env.frames.pop();
    assert(m@.env =~= mid.env.drop_last());
    r
}

/// Runs a sequence of statements in `frame` and yields the value of the
/// last plain expression statement (`Null` if there is none). Conditionals
/// and loops are driven here: an `elseif` or `else` runs only when the
/// preceding `if`/`elseif` of its chain ran no branch; a loop tests its
/// condition before each pass and takes one step per test.
pub fn eval_program(program: &Node, frame: usize, m: &mut Machine, replies: &Vec<FloatReply>) -> (r:
    Result<RuntimeVal, Interrupt>)
    requires
        frame < old(m).env.frames@.len(),
    ensures
        (res_view(r), final(m)@) == run_seq(
            program@,
            0,
            frame as int,
            old(m)@,
            false,
            Val::Null,
            replies@,
        ),
        final(m).env.frames@.len() == old(m).env.frames@.len(),
        final(m).fuel <= old(m).fuel,
    decreases program, 0nat,
{
    proof {
        lemma_shape(program);
    }
    let ghost n = program@;
    let ghost rs = replies@;
    let ghost start = m@;
    let mut k: usize = 0;
    let mut failed = false;
    let mut last = RuntimeVal::null();
    while k < program.body.len()
        invariant
            n == program@,
            rs == replies@,
            start == old(m)@,
            n.body.len() == program.body@.len(),
            frame < m.env.frames@.len(),
            m.env.frames@.len() == old(m).env.frames@.len(),
            m.fuel <= old(m).fuel,
            k <= program.body@.len(),
            run_seq(n, 0, frame as int, start, false, Val::Null, rs) == run_seq(
                n,
                k as int,
                frame as int,
                m@,
                failed,
                last@,
                rs,
            ),
        decreases program.body@.len() - k,
    {
        let s = &program.body[k];
        proof {
            lemma_child(program, k as int);
            lemma_shape(s);
        }
        match s.node_type {
            NodeType::Loop => {
                if s.body.len() != 2 {
                    assert(run_loop(n, k as int, frame as int, m@, failed, last@, rs) == (
                    fail(ScriptError::Unsupported), m@));
                    return Err(Interrupt::Fail(ScriptError::Unsupported));
                }
                proof {
                    lemma_child(s, 0);
                    lemma_child(s, 1);
                }
                loop
                    invariant_except_break
                        n == program@,
                        rs == replies@,
                        start == old(m)@,
                        n.body.len() == program.body@.len(),
                        k < program.body@.len(),
                        s == program.body@[k as int],
                        s@ == n.body[k as int],
                        s.body@.len() == 2,
                        s@.body[0] == s.body@[0]@,
                        s@.body[1] == s.body@[1]@,
                        frame < m.env.frames@.len(),
                        m.env.frames@.len() == old(m).env.frames@.len(),
                        m.fuel <= old(m).fuel,
                        run_seq(n, 0, frame as int, start, false, Val::Null, rs) == run_loop(
                            n,
                            k as int,
                            frame as int,
                            m@,
                            failed,
                            last@,
                            rs,
                        ),
                    ensures
                        n == program@,
                        rs == replies@,
                        start == old(m)@,
                        n.body.len() == program.body@.len(),
                        k < program.body@.len(),
                        frame < m.env.frames@.len(),
                        m.env.frames@.len() == old(m).env.frames@.len(),
                        m.fuel <= old(m).fuel,
                        run_seq(n, 0, frame as int, start, false, Val::Null, rs) == run_seq(
                            n,
                            k + 1,
                            frame as int,
                            m@,
                            failed,
                            last@,
                            rs,
                        ),
                    decreases m.fuel,
                {
                    if m.fuel == 0 {
                        return Err(Interrupt::Fail(ScriptError::StepLimit));
                    }
                    m.fuel = m.fuel - 1;
                    let c = match eval(&s.body[0], frame, m, replies) {
                        Err(i) => {
                            return Err(i);
                        },
                        Ok(c) => c,
                    };
                    match c.runtime_val_type {
                        RuntimeValType::Boolean(false) => {
                            break ;
                        },
                        RuntimeValType::Boolean(true) => {
                            match eval_block(&s.body[1], frame, m, replies) {
                                Err(i) => {
                                    return Err(i);
                                },
                                Ok(_) => {},
                            }
                        },
                        _ => {
                            return Err(Interrupt::Fail(ScriptError::Type));
                        },
                    }
                }
            },
            NodeType::If => {
                if s.body.len() != 2 {
                    return Err(Interrupt::Fail(ScriptError::Unsupported));
                }
                proof {
                    lemma_child(s, 0);
                    lemma_child(s, 1);
                }
                let c = match eval(&s.body[0], frame, m, replies) {
                    Err(i) => {
                        return Err(i);
                    },
                    Ok(c) => c,
                };
                match c.runtime_val_type {
                    RuntimeValType::Boolean(true) => {
                        match eval_block(&s.body[1], frame, m, replies) {
                            Err(i) => {
                                return Err(i);
                            },
                            Ok(_) => {},
                        }
                        failed = false;
                    },
                    RuntimeValType::Boolean(false) => {
                        failed = true;
                    },
                    _ => {
                        return Err(Interrupt::Fail(ScriptError::Type));
                    },
                }
            },
            NodeType::ElseIf => {
                if s.body.len() != 2 {
                    return Err(Interrupt::Fail(ScriptError::Unsupported));
                }
                proof {
                    lemma_child(s, 0);
                    lemma_child(s, 1);
                }
                let c = match eval(&s.body[0], frame, m, replies) {
                    Err(i) => {
                        return Err(i);
                    },
                    Ok(c) => c,
                };
                match c.runtime_val_type {
                    RuntimeValType::Boolean(cv) => {
                        if cv && failed {
                            match eval_block(&s.body[1], frame, m, replies) {
                                Err(i) => {
                                    return Err(i);
                                },
                                Ok(_) => {},
                            }
                            failed = false;
                        } else {
                            failed = failed && !cv;
                        }
                    },
                    _ => {
                        return Err(Interrupt::Fail(ScriptError::Type));
                    },
                }
            },
            NodeType::Else => {
                if s.body.len() != 1 {
                    return Err(Interrupt::Fail(ScriptError::Unsupported));
                }
                proof {
                    lemma_child(s, 0);
                }
                if failed {
                    match eval_block(&s.body[0], frame, m, replies) {
                        Err(i) => {
                            return Err(i);
                        },
                        Ok(_) => {},
                    }
                }
                failed = false;
            },
            NodeType::Scope => {
                match eval_block(s, frame, m, replies) {
                    Err(i) => {
                        return Err(i);
                    },
                    Ok(_) => {},
                }
            },
            NodeType::Print => {
                match eval(s, frame, m, replies) {
                    Err(i) => {
                        return Err(i);
                    },
                    Ok(_) => {},
                }
            },
            NodeType::EOL => {},
            _ => {
                last = match eval(s, frame, m, replies) {
                    Err(i) => {
                        return Err(i);
                    },
                    Ok(v) => v,
                };
            },
        }
        k = k + 1;
    }
    Ok(last)
}

/// An integer and a float operand, in either order, make every binary
/// operator a Type error, with no float work requested.
pub proof fn law_mixed_operands_rejected(op: BinOp, a: i64, b: u64, st: MState, rs: Seq<FloatReply>)
    ensures
        binary(op, Val::Int(a), Val::Float(b), st, rs) == (fail(ScriptError::Type), st),
        binary(op, Val::Float(b), Val::Int(a), st, rs) == (fail(ScriptError::Type), st),
{
}

/// The binary expression `a op b` on two integer literals.
pub open spec fn int_expr(op: BinOp, a: i64, b: i64) -> NodeModel {
    NodeModel {
        node_type: NodeType::BinaryExpr(op),
        value: None,
        body: seq![
            NodeModel { node_type: NodeType::NumericLiteral, value: Some(Lexeme::Integer(a)), body: Seq::empty() },
            NodeModel { node_type: NodeType::NumericLiteral, value: Some(Lexeme::Integer(b)), body: Seq::empty() },
        ],
    }
}

/// For integer literals `a` and `b` and `op` among `+ - * / %`, evaluating
/// `a op b` yields the native 64-bit result and changes no state: the exact
/// sum, difference or product; the quotient rounded toward zero; the
/// remainder with the sign of `a`. A zero divisor, or a result out of the
/// 64-bit range, is an Arithmetic error and yields no value.
pub proof fn law_integer_arithmetic(op: BinOp, a: i64, b: i64, f: int, st: MState, rs: Seq<FloatReply>)
    requires
        is_arith(op),
    ensures
        ev(int_expr(op, a, b), f, st, rs) == (lift(int_binary(op, a, b)), st),
        ({
            let r = ev(int_expr(op, a, b), f, st, rs).0;
            let x = a as int;
            let y = b as int;
            &&& (op is Add && fits(x + y) ==> r == Ok::<Val, Halt>(Val::Int((x + y) as i64)))
            &&& (op is Sub && fits(x - y) ==> r == Ok::<Val, Halt>(Val::Int((x - y) as i64)))
            &&& (op is Mul && fits(x * y) ==> r == Ok::<Val, Halt>(Val::Int((x * y) as i64)))
            &&& (op is Div && y != 0 && fits(trunc_div(x, y)) ==> r == Ok::<Val, Halt>(
                Val::Int(trunc_div(x, y) as i64),
            ))
            &&& (op is Rem && y != 0 && !(x == i64::MIN && y == -1) ==> r == Ok::<Val, Halt>(
                Val::Int(trunc_rem(x, y) as i64),
            ))
            &&& ((op is Div || op is Rem) && y == 0 ==> r == fail(ScriptError::Arithmetic))
            &&& (r is Ok || r == fail(ScriptError::Arithmetic))
        }),
{
    let n = int_expr(op, a, b);
    assert(ev(n.body[0], f, st, rs) == (Ok::<Val, Halt>(Val::Int(a)), st));
    assert(ev(n.body[1], f, st, rs) == (Ok::<Val, Halt>(Val::Int(b)), st));
}

pub open spec fn int_lit(x: i64) -> NodeModel {
    NodeModel { node_type: NodeType::NumericLiteral, value: Some(Lexeme::Integer(x)), body: Seq::empty() }
}

/// `let name = x`.
pub open spec fn declaration(name: Seq<char>, x: i64) -> NodeModel {
    NodeModel { node_type: NodeType::Declaration, value: Some(Lexeme::Identifier(name)), body: seq![int_lit(x)] }
}

/// `name = x`.
pub open spec fn assignment(name: Seq<char>, x: i64) -> NodeModel {
    NodeModel { node_type: NodeType::Assignment, value: Some(Lexeme::Identifier(name)), body: seq![int_lit(x)] }
}

/// `name` read as an expression.
pub open spec fn identifier(name: Seq<char>) -> NodeModel {
    NodeModel { node_type: NodeType::Identifier, value: Some(Lexeme::Identifier(name)), body: Seq::empty() }
}

/// `{ statements }`.
pub open spec fn block(stmts: Seq<NodeModel>) -> NodeModel {
    NodeModel { node_type: NodeType::Scope, value: None, body: stmts }
}

/// In a frame that does not bind `name`, `let name = x` succeeds and a
/// second `let name = y` in the same frame is a Name error. A nested block
/// `{ let name = y; name }` succeeds and yields `y`, and after it `name`
/// denotes `x` again in the outer frame.
pub proof fn law_block_redeclaration(
    name: Seq<char>,
    x: i64,
    y: i64,
    f: usize,
    st: MState,
    rs: Seq<FloatReply>,
)
    requires
        f < st.env.len(),
        !declares(st.env[f as int], name),
    ensures
        ({
            let (r1, st1) = ev(declaration(name, x), f as int, st, rs);
            &&& r1 == Ok::<Val, Halt>(Val::Int(x))
            &&& ev(declaration(name, y), f as int, st1, rs) == (fail(ScriptError::Name), st1)
            &&& ({
                let (r2, st2) = run_block(
                    block(seq![declaration(name, y), identifier(name)]),
                    f as int,
                    st1,
                    rs,
                );
                &&& r2 == Ok::<Val, Halt>(Val::Int(y))
                &&& lookup(st2.env, f as int, name) == Ok::<Val, ScriptError>(Val::Int(x))
            })
        }),
{
    let fi = f as int;
    let d1 = declaration(name, x);
    let d2 = declaration(name, y);
    assert(ev(d1.body[0], fi, st, rs) == (Ok::<Val, Halt>(Val::Int(x)), st));
    law_redeclaration_and_shadowing(st.env, f, name, Val::Int(x), Val::Int(y));
    let env1 = declare(st.env, fi, name, Val::Int(x))->Ok_0;
    let st1 = MState { env: env1, ..st };
    assert(ev(d1, fi, st, rs) == (Ok::<Val, Halt>(Val::Int(x)), st1));
    assert(ev(d2.body[0], fi, st1, rs) == (Ok::<Val, Halt>(Val::Int(y)), st1));
    let b = block(seq![d2, identifier(name)]);
    let g = env1.len() as int;
    let inner = MState { env: env1.push(FrameModel { parent: Some(f), vars: Seq::empty() }), ..st1 };
    let env2 = declare(inner.env, g, name, Val::Int(y))->Ok_0;
    let st2 = MState { env: env2, ..inner };
    assert(ev(d2.body[0], g, inner, rs) == (Ok::<Val, Halt>(Val::Int(y)), inner));
    assert(ev(b.body[0], g, inner, rs) == (Ok::<Val, Halt>(Val::Int(y)), st2));
    assert(ev(b.body[1], g, st2, rs) == (Ok::<Val, Halt>(Val::Int(y)), st2));
    assert(run_seq(b, 2, g, st2, false, Val::Int(y), rs) == (Ok::<Val, Halt>(Val::Int(y)), st2));
    assert(run_seq(b, 1, g, st2, false, Val::Int(y), rs) == (Ok::<Val, Halt>(Val::Int(y)), st2));
    assert(run_seq(b, 0, g, inner, false, Val::Null, rs) == (Ok::<Val, Halt>(Val::Int(y)), st2));
}

/// Assigning to a name that no frame on the chain binds is a Name error.
/// A block `{ name = x }` run from a frame that binds `name` changes that
/// binding: after the block, `name` denotes `x` in that frame.
pub proof fn law_block_assignment(name: Seq<char>, x: i64, f: usize, st: MState, rs: Seq<FloatReply>)
    requires
        f < st.env.len(),
    ensures
        resolve(st.env, f as int, name) is None ==> ev(assignment(name, x), f as int, st, rs) == (
            fail(ScriptError::Name),
            st,
        ),
        declares(st.env[f as int], name) ==> ({
            let (r, st2) = run_block(block(seq![assignment(name, x)]), f as int, st, rs);
            &&& r == Ok::<Val, Halt>(Val::Null)
            &&& lookup(st2.env, f as int, name) == Ok::<Val, ScriptError>(Val::Int(x))
        }),
{
    let fi = f as int;
    let a = assignment(name, x);
    assert(ev(a.body[0], fi, st, rs) == (Ok::<Val, Halt>(Val::Int(x)), st));
    if declares(st.env[fi], name) {
        let b = block(seq![a]);
        let g = st.env.len() as int;
        let inner = MState { env: st.env.push(FrameModel { parent: Some(f), vars: Seq::empty() }), ..st };
        assert(inner.env[fi] == st.env[fi]);
        assert(!declares(inner.env.last(), name));
        law_assignment_reaches_enclosing(inner.env, f, name, Val::Int(x));
        let env2 = assign(inner.env, g, name, Val::Int(x))->Ok_0;
        let st2 = MState { env: env2, ..inner };
        assert(ev(a.body[0], g, inner, rs) == (Ok::<Val, Halt>(Val::Int(x)), inner));
        assert(ev(a, g, inner, rs) == (Ok::<Val, Halt>(Val::Null), st2));
        assert(run_seq(b, 1, g, st2, false, Val::Null, rs) == (Ok::<Val, Halt>(Val::Null), st2));
        assert(run_seq(b, 0, g, inner, false, Val::Null, rs) == (Ok::<Val, Halt>(Val::Null), st2));
    }
}

} // verus!
