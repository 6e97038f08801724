use vstd::prelude::*;

use crate::eval::{
    ev, eval_program, int_binary, int_expr, is_arith, law_integer_arithmetic, lift, res_view, run,
    run_seq, initial_state, FloatReply, Halt, Interrupt, Machine, RuntimeVal, Val,
};
use crate::lexer::{lemma_decimal, lemma_scan_literal, lex, lex_from, literal, scan, Lexeme, Op};
use crate::parser::{
    ast_of, bare, generate_ast, p_primary, p_program, p_stmt, p_tail, p_tier, parse, BinOp, Node,
    NodeModel, NodeType,
};

verus! {

/// What a run produced: its result, and the values printed in order.
#[derive(Debug)]
pub struct Execution {
    pub result: Result<RuntimeVal, Interrupt>,
    pub output: Vec<RuntimeVal>,
}

pub open spec fn printed(v: Seq<RuntimeVal>) -> Seq<Val> {
    v.map_values(|x: RuntimeVal| x@)
}

/// The result and printed values of a program run in a fresh top frame.
pub open spec fn program_outcome(prog: NodeModel, rs: Seq<FloatReply>, fuel: nat) -> (
    Result<Val, Halt>,
    Seq<Val>,
) {
    let (r, st) = run(prog, rs, fuel);
    (r, st.output)
}

/// The result and printed values of a source text: a lexical or syntax
/// error prints nothing.
pub open spec fn script_outcome(source: Seq<char>, rs: Seq<FloatReply>, fuel: nat) -> (
    Result<Val, Halt>,
    Seq<Val>,
) {
    match ast_of(source) {
        Err(e) => (Err(Halt::Fail(e)), Seq::empty()),
        Ok(prog) => program_outcome(prog, rs, fuel),
    }
}

/// Runs a program in a fresh top frame with `fuel` loop steps. Float
/// operations take their answers from `replies`, in order; when they run
/// out, the result is `Interrupt::Await` with the next request, and the
/// caller may run again with its answer appended.
pub fn execute(program: &Node, replies: &Vec<FloatReply>, fuel: u64) -> (r: Execution)
    ensures
        (res_view(r.result), printed(r.output@)) == program_outcome(program@, replies@, fuel as nat),
{
    let mut m = Machine::new(fuel);
    let result = eval_program(program, 0, &mut m, replies);
    Execution { result, output: m.output }
}

/// Parses and runs a source text (see `execute`).
pub fn run_script(source: String, replies: &Vec<FloatReply>, fuel: u64) -> (r: Execution)
    ensures
        (res_view(r.result), printed(r.output@)) == script_outcome(source@, replies@, fuel as nat),
{
    match generate_ast(source) {
        Err(e) => {
            let out: Vec<RuntimeVal> = Vec::new();
            assert(printed(out@) =~= Seq::<Val>::empty());
            Execution { result: Err(Interrupt::Fail(e)), output: out }
        },
        Ok(program) => execute(&program, replies, fuel),
    }
}

/// The operator token of an arithmetic operator.
pub open spec fn arith_token(op: BinOp) -> Op {
    match op {
        BinOp::Add => Op::Plus,
        BinOp::Sub => Op::Minus,
        BinOp::Mul => Op::Star,
        BinOp::Div => Op::Slash,
        _ => Op::Percent,
    }
}

/// The tokens of `a op b`.
pub open spec fn arith_tokens(op: BinOp, a: i64, b: i64) -> Seq<Lexeme> {
    seq![Lexeme::Integer(a), Lexeme::Operator(arith_token(op)), Lexeme::Integer(b), Lexeme::EOF]
}

/// The tokens `a op b`, with `op` among `+ - * / %`, parse to a program of
/// the single expression `a op b`, and running it yields the native 64-bit
/// result (see `law_integer_arithmetic`) and prints nothing.
pub proof fn law_integer_arithmetic_tokens(op: BinOp, a: i64, b: i64, rs: Seq<FloatReply>, fuel: nat)
    requires
        is_arith(op),
    ensures
        parse(arith_tokens(op, a, b)) == Ok::<NodeModel, crate::error::ScriptError>(
            bare(NodeType::Program, seq![int_expr(op, a, b)]),
        ),
        run(bare(NodeType::Program, seq![int_expr(op, a, b)]), rs, fuel).0 == lift(
            int_binary(op, a, b),
        ),
        run(bare(NodeType::Program, seq![int_expr(op, a, b)]), rs, fuel).1.output.len() == 0,
{
    let t = arith_tokens(op, a, b);
    let e = int_expr(op, a, b);
    let x = e.body[0];
    let y = e.body[1];
    assert(p_primary(t, 0) == Ok::<(NodeModel, int), crate::error::ScriptError>((x, 1)));
    assert(p_primary(t, 2) == Ok::<(NodeModel, int), crate::error::ScriptError>((y, 3)));
    assert(p_tier(t, 0, 0) == Ok::<(NodeModel, int), crate::error::ScriptError>((x, 1)));
    assert(p_tier(t, 2, 0) == Ok::<(NodeModel, int), crate::error::ScriptError>((y, 3)));
    assert(bare(NodeType::BinaryExpr(op), seq![x, y]) =~= e);
    if op is Add || op is Sub {
        assert(p_tail(t, 1, x, 1) == Ok::<(NodeModel, int), crate::error::ScriptError>((x, 1)));
        assert(p_tier(t, 0, 1) == Ok::<(NodeModel, int), crate::error::ScriptError>((x, 1)));
        assert(p_tail(t, 3, y, 1) == Ok::<(NodeModel, int), crate::error::ScriptError>((y, 3)));
        assert(p_tier(t, 2, 1) == Ok::<(NodeModel, int), crate::error::ScriptError>((y, 3)));
        assert(p_tail(t, 3, e, 2) == Ok::<(NodeModel, int), crate::error::ScriptError>((e, 3)));
        assert(p_tail(t, 1, x, 2) == Ok::<(NodeModel, int), crate::error::ScriptError>((e, 3)));
        assert(p_tier(t, 0, 2) == Ok::<(NodeModel, int), crate::error::ScriptError>((e, 3)));
    } else {
        assert(p_tail(t, 3, e, 1) == Ok::<(NodeModel, int), crate::error::ScriptError>((e, 3)));
        assert(p_tail(t, 1, x, 1) == Ok::<(NodeModel, int), crate::error::ScriptError>((e, 3)));
        assert(p_tier(t, 0, 1) == Ok::<(NodeModel, int), crate::error::ScriptError>((e, 3)));
        assert(p_tail(t, 3, e, 2) == Ok::<(NodeModel, int), crate::error::ScriptError>((e, 3)));
        assert(p_tier(t, 0, 2) == Ok::<(NodeModel, int), crate::error::ScriptError>((e, 3)));
    }
    assert(p_tail(t, 3, e, 3) == Ok::<(NodeModel, int), crate::error::ScriptError>((e, 3)));
    assert(p_tier(t, 0, 3) == Ok::<(NodeModel, int), crate::error::ScriptError>((e, 3)));
    assert(p_stmt(t, 0) == Ok::<(NodeModel, int), crate::error::ScriptError>((e, 3)));
    assert(p_program(t, 3, seq![e]) == Ok::<Seq<NodeModel>, crate::error::ScriptError>(seq![e]));
    assert(Seq::<NodeModel>::empty().push(e) =~= seq![e]);
    let prog = bare(NodeType::Program, seq![e]);
    let st = initial_state(fuel);
    law_integer_arithmetic(op, a, b, 0, st, rs);
    assert(prog.body[0] == e);
    assert(ev(e, 0, st, rs) == (lift(int_binary(op, a, b)), st));
    match lift(int_binary(op, a, b)) {
        Ok(v) => {
            assert(run_seq(prog, 1, 0, st, false, v, rs) == (Ok::<Val, Halt>(v), st));
            assert(run_seq(prog, 0, 0, st, false, Val::Null, rs) == (Ok::<Val, Halt>(v), st));
        },
        Err(h) => {
            assert(run_seq(prog, 0, 0, st, false, Val::Null, rs) == (Err::<Val, Halt>(h), st));
        },
    }
}

pub open spec fn arith_char(op: BinOp) -> char {
    match op {
        BinOp::Add => '+',
        BinOp::Sub => '-',
        BinOp::Mul => '*',
        BinOp::Div => '/',
        _ => '%',
    }
}

/// The source text `a op b`, with blanks around the operator.
pub open spec fn arith_text(op: BinOp, a: i64, b: i64) -> Seq<char> {
    literal(a as int) + seq![' ', arith_char(op), ' '] + literal(b as int)
}

/// For integers `a` and `b` and `op` among `+ - * / %`, running the source
/// text `a op b` yields the native 64-bit result of `a op b` and prints
/// nothing: the quotient rounds toward zero, and a zero divisor is an
/// Arithmetic error that yields no value (see `law_integer_arithmetic`).
/// The literal `-9223372036854775808` is excluded: the lexer reads the
/// digits of a negative literal as a positive 64-bit number first.
pub proof fn law_integer_arithmetic_source(op: BinOp, a: i64, b: i64, rs: Seq<FloatReply>, fuel: nat)
    requires
        is_arith(op),
        a != i64::MIN,
        b != i64::MIN,
    ensures
        lex(arith_text(op, a, b)) == Ok::<Seq<Lexeme>, crate::error::ScriptError>(
            arith_tokens(op, a, b),
        ),
        script_outcome(arith_text(op, a, b), rs, fuel) == (
            lift(int_binary(op, a, b)),
            Seq::<Val>::empty(),
        ),
{
    let la = literal(a as int);
    let lb = literal(b as int);
    let s = arith_text(op, a, b);
    let i = la.len() as int;
    let n = s.len() as int;
    lemma_decimal(if a < 0 { (-a) as nat } else { a as nat });
    lemma_decimal(if b < 0 { (-b) as nat } else { b as nat });
    assert(n == i + 3 + lb.len());
    assert(s.subrange(0, i) =~= la);
    assert(s.subrange(i + 3, n) =~= lb);
    assert(s[i] == ' ');
    assert(s[i + 1] == arith_char(op));
    assert(s[i + 2] == ' ');
    lemma_scan_literal(s, 0, a as int);
    lemma_scan_literal(s, i + 3, b as int);
    let o = Lexeme::Operator(arith_token(op));
    assert(lex_from(s, n) == Ok::<Seq<Lexeme>, crate::error::ScriptError>(seq![Lexeme::EOF]));
    assert(seq![Lexeme::Integer(b)] + seq![Lexeme::EOF] =~= seq![Lexeme::Integer(b), Lexeme::EOF]);
    assert(lex_from(s, i + 3) == Ok::<Seq<Lexeme>, crate::error::ScriptError>(
        seq![Lexeme::Integer(b), Lexeme::EOF],
    ));
    assert(Seq::<Lexeme>::empty() + seq![Lexeme::Integer(b), Lexeme::EOF] =~= seq![
        Lexeme::Integer(b),
        Lexeme::EOF,
    ]);
    assert(lex_from(s, i + 2) == Ok::<Seq<Lexeme>, crate::error::ScriptError>(
        seq![Lexeme::Integer(b), Lexeme::EOF],
    ));
    assert(scan(s, i + 1) == Ok::<(Option<Lexeme>, int), crate::error::ScriptError>(
        (Some(o), i + 2),
    ));
    assert(seq![o] + seq![Lexeme::Integer(b), Lexeme::EOF] =~= seq![o, Lexeme::Integer(b), Lexeme::EOF]);
    assert(lex_from(s, i + 1) == Ok::<Seq<Lexeme>, crate::error::ScriptError>(
        seq![o, Lexeme::Integer(b), Lexeme::EOF],
    ));
    assert(Seq::<Lexeme>::empty() + seq![o, Lexeme::Integer(b), Lexeme::EOF] =~= seq![
        o,
        Lexeme::Integer(b),
        Lexeme::EOF,
    ]);
    assert(lex_from(s, i) == Ok::<Seq<Lexeme>, crate::error::ScriptError>(
        seq![o, Lexeme::Integer(b), Lexeme::EOF],
    ));
    assert(seq![Lexeme::Integer(a)] + seq![o, Lexeme::Integer(b), Lexeme::EOF] =~= arith_tokens(
        op,
        a,
        b,
    ));
    assert(lex_from(s, 0) == Ok::<Seq<Lexeme>, crate::error::ScriptError>(arith_tokens(op, a, b)));
    law_integer_arithmetic_tokens(op, a, b, rs, fuel);
    let (r, st) = run(bare(NodeType::Program, seq![int_expr(op, a, b)]), rs, fuel);
    assert(st.output =~= Seq::<Val>::empty());
}

} // verus!
