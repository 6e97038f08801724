use vstd::prelude::*;

use crate::error::ScriptError;
use crate::lexer::{lex, tokenise, Lexeme, Op, Token, TokenStream, TokenType};

verus! {

/// Binary operators of the language.
#[derive(Clone, Copy, Debug, PartialEq, Eq, Structural)]
pub enum BinOp {
    Add,
    Sub,
    Mul,
    Div,
    Rem,
    Eq,
    Ne,
    Gt,
    Lt,
    Ge,
    Le,
    And,
    Or,
}

/// Unary operators of the language.
#[derive(Clone, Copy, Debug, PartialEq, Eq, Structural)]
pub enum UnaryOp {
    Not,
}

#[derive(Clone, Copy, Debug, PartialEq, Eq, Structural)]
pub enum NodeType {
    Program,
    NumericLiteral,
    StringLiteral,
    Boolean,
    Identifier,
    BinaryExpr(BinOp),
    UnaryExpr(UnaryOp),
    Assignment,
    Declaration,
    Scope,
    Loop,
    Break,
    If,
    Else,
    ElseIf,
    Print,
    EOL,
}

impl NodeType {
    pub fn extract_binexp_operator(&self) -> (r: Option<BinOp>)
        ensures
            r == (match *self {
                NodeType::BinaryExpr(op) => Some(op),
                _ => None,
            }),
    {
        match self {
            NodeType::BinaryExpr(op) => Some(*op),
            _ => None,
        }
    }

    pub fn extract_unexp_operator(&self) -> (r: Option<UnaryOp>)
        ensures
            r == (match *self {
                NodeType::UnaryExpr(op) => Some(op),
                _ => None,
            }),
    {
        match self {
            NodeType::UnaryExpr(op) => Some(*op),
            _ => None,
        }
    }
}

/// A syntax tree node as a mathematical value.
pub struct NodeModel {
    pub node_type: NodeType,
    pub value: Option<Lexeme>,
    pub body: Seq<NodeModel>,
}

/// A syntax tree node: its kind, the token of a leaf (literal or name) and
/// its children. Literals and identifiers have no children; a binary
/// expression has its two operands, a unary one its operand; an assignment
/// or declaration has its right-hand sides (the first is the value);
/// `If`, `ElseIf` and `Loop` have a condition and a `Scope`; `Else` has a
/// `Scope`; `Print` has the printed expression; `Scope` and `Program` have
/// their statements.
#[derive(Debug)]
pub struct Node {
    pub node_type: NodeType,
    pub value: Option<Token>,
    pub body: Vec<Node>,
}

pub open spec fn token_view(t: Option<Token>) -> Option<Lexeme> {
    match t {
        Some(x) => Some(x@),
        None => None,
    }
}

impl View for Node {
    type V = NodeModel;

    open spec fn view(&self) -> NodeModel {
        self.model()
    }
}

impl Node {
    pub open spec fn model(&self) -> NodeModel
        decreases self,
    {
        NodeModel {
            node_type: self.node_type,
            value: token_view(self.value),
            body: Seq::new(
                self.body@.len(),
                |i: int|
                    if 0 <= i < self.body@.len() {
                        self.body@[i].model()
                    } else {
                        NodeModel { node_type: NodeType::EOL, value: None, body: Seq::empty() }
                    },
            ),
        }
    }
}

/// The models of a sequence of nodes.
pub open spec fn views(v: Seq<Node>) -> Seq<NodeModel> {
    v.map_values(|n: Node| n@)
}

pub open spec fn bare(nt: NodeType, body: Seq<NodeModel>) -> NodeModel {
    NodeModel { node_type: nt, value: None, body }
}

pub open spec fn leaf(nt: NodeType, t: Lexeme) -> NodeModel {
    NodeModel { node_type: nt, value: Some(t), body: Seq::empty() }
}

/// The token at `p`, reading `EOF` past the end.
pub open spec fn tk(t: Seq<Lexeme>, p: int) -> Lexeme {
    if 0 <= p < t.len() {
        t[p]
    } else {
        Lexeme::EOF
    }
}

/// The operator of precedence tier `level` (3: comparison and logic,
/// 2: additive, 1: multiplicative) that a token denotes.
pub open spec fn tier_op(level: nat, l: Lexeme) -> Option<BinOp> {
    match l {
        Lexeme::Operator(o) => if level == 3 {
            match o {
                Op::EqEq => Some(BinOp::Eq),
                Op::NotEq => Some(BinOp::Ne),
                Op::Gt => Some(BinOp::Gt),
                Op::Lt => Some(BinOp::Lt),
                Op::Ge => Some(BinOp::Ge),
                Op::Le => Some(BinOp::Le),
                Op::AndAnd => Some(BinOp::And),
                Op::OrOr => Some(BinOp::Or),
                _ => None,
            }
        } else if level == 2 {
            match o {
                Op::Plus => Some(BinOp::Add),
                Op::Minus => Some(BinOp::Sub),
                _ => None,
            }
        } else if level == 1 {
            match o {
                Op::Star => Some(BinOp::Mul),
                Op::Slash => Some(BinOp::Div),
                Op::Percent => Some(BinOp::Rem),
                _ => None,
            }
        } else {
            None
        },
        _ => None,
    }
}

pub open spec fn in_range(t: Seq<Lexeme>, p: int) -> bool {
    0 <= p < t.len()
}

/// An `if`, `elseif` or `loop` at `p`: `( condition ) { statements }`.
pub open spec fn p_guarded(t: Seq<Lexeme>, p: int, nt: NodeType) -> Result<(NodeModel, int), ScriptError>
    decreases t.len() - p, 0nat,
{
    if !in_range(t, p) {
        Err(ScriptError::Syntax(p as usize))
    } else if tk(t, p + 1) != Lexeme::OpenBracket {
        Err(ScriptError::Syntax((p + 1) as usize))
    } else {
        match p_tier(t, p + 2, 3) {
            Err(e) => Err(e),
            Ok((c, q)) => if q <= p || !in_range(t, q) {
                Err(ScriptError::Syntax(p as usize))
            } else if tk(t, q) != Lexeme::CloseBracket {
                Err(ScriptError::Syntax(q as usize))
            } else if tk(t, q + 1) != Lexeme::OpenCurlyBracket {
                Err(ScriptError::Syntax((q + 1) as usize))
            } else {
                match p_block(t, q + 2, Seq::empty()) {
                    Err(e) => Err(e),
                    Ok((stmts, r)) => Ok((bare(nt, seq![c, bare(NodeType::Scope, stmts)]), r + 1)),
                }
            },
        }
    }
}

/// A primary expression at `p`, or a statement that the grammar reads at
/// that tier (conditionals, loops, print, blocks, assignments).
pub open spec fn p_primary(t: Seq<Lexeme>, p: int) -> Result<(NodeModel, int), ScriptError>
    decreases t.len() - p, 1nat,
{
    if !in_range(t, p) {
        Err(ScriptError::Syntax(p as usize))
    } else {
        let x = t[p];
        match x {
            Lexeme::Integer(_) => Ok((leaf(NodeType::NumericLiteral, x), p + 1)),
            Lexeme::Float(_) => Ok((leaf(NodeType::NumericLiteral, x), p + 1)),
            Lexeme::StringLiteral(_) => Ok((leaf(NodeType::StringLiteral, x), p + 1)),
            Lexeme::Boolean(_) => Ok((leaf(NodeType::Boolean, x), p + 1)),
            Lexeme::EOL => Ok((bare(NodeType::EOL, Seq::empty()), p + 1)),
            Lexeme::Break => Ok((bare(NodeType::Break, Seq::empty()), p + 1)),
            Lexeme::OpenBracket => match p_tier(t, p + 1, 3) {
                Err(e) => Err(e),
                Ok((e, q)) => if tk(t, q) == Lexeme::CloseBracket {
                    Ok((e, q + 1))
                } else {
                    Err(ScriptError::Syntax(q as usize))
                },
            },
            Lexeme::OpenCurlyBracket => match p_block(t, p + 1, Seq::empty()) {
                Err(e) => Err(e),
                Ok((stmts, q)) => Ok((bare(NodeType::Scope, stmts), q + 1)),
            },
            Lexeme::Identifier(_) => if tk(t, p + 1) == Lexeme::Operator(Op::Assign) {
                match p_rhs(t, p + 1, Seq::empty()) {
                    Err(e) => Err(e),
                    Ok((vals, q)) => Ok(
                        (NodeModel { node_type: NodeType::Assignment, value: Some(x), body: vals }, q),
                    ),
                }
            } else {
                Ok((leaf(NodeType::Identifier, x), p + 1))
            },
            Lexeme::Operator(Op::Bang) => match p_primary(t, p + 1) {
                Err(e) => Err(e),
                Ok((e, q)) => Ok((bare(NodeType::UnaryExpr(UnaryOp::Not), seq![e]), q)),
            },
            Lexeme::If => p_guarded(t, p, NodeType::If),
            Lexeme::ElseIf => p_guarded(t, p, NodeType::ElseIf),
            Lexeme::Loop => p_guarded(t, p, NodeType::Loop),
            Lexeme::Else => if tk(t, p + 1) != Lexeme::OpenCurlyBracket {
                Err(ScriptError::Syntax((p + 1) as usize))
            } else {
                match p_block(t, p + 2, Seq::empty()) {
                    Err(e) => Err(e),
                    Ok((stmts, q)) => Ok(
                        (bare(NodeType::Else, seq![bare(NodeType::Scope, stmts)]), q + 1),
                    ),
                }
            },
            Lexeme::Print => if tk(t, p + 1) != Lexeme::OpenBracket {
                Err(ScriptError::Syntax((p + 1) as usize))
            } else {
                match p_tier(t, p + 2, 3) {
                    Err(e) => Err(e),
                    Ok((e, q)) => if tk(t, q) == Lexeme::CloseBracket {
                        Ok((bare(NodeType::Print, seq![e]), q + 1))
                    } else {
                        Err(ScriptError::Syntax(q as usize))
                    },
                }
            },
            _ => Err(ScriptError::Syntax(p as usize)),
        }
    }
}

/// An expression of precedence tier `level` at `p` (0 is the primary tier);
/// operators of one tier associate to the left.
pub open spec fn p_tier(t: Seq<Lexeme>, p: int, level: nat) -> Result<(NodeModel, int), ScriptError>
    decreases t.len() - p, 2 * level + 2,
{
    if !in_range(t, p) {
        Err(ScriptError::Syntax(p as usize))
    } else if level == 0 {
        p_primary(t, p)
    } else {
        match p_tier(t, p, (level - 1) as nat) {
            Err(e) => Err(e),
            Ok((l, q)) => if q <= p || !in_range(t, q) {
                Err(ScriptError::Syntax(p as usize))
            } else {
                p_tail(t, q, l, level)
            },
        }
    }
}

/// The operators of tier `level` and their right operands that follow
/// `left` at `q`.
pub open spec fn p_tail(t: Seq<Lexeme>, q: int, left: NodeModel, level: nat) -> Result<
    (NodeModel, int),
    ScriptError,
>
    decreases t.len() - q, 0nat,
{
    if !in_range(t, q) || level == 0 {
        Err(ScriptError::Syntax(q as usize))
    } else {
        match tier_op(level, t[q]) {
            None => Ok((left, q)),
            Some(op) => match p_tier(t, q + 1, (level - 1) as nat) {
                Err(e) => Err(e),
                Ok((r, q2)) => if q2 <= q || !in_range(t, q2) {
                    Err(ScriptError::Syntax(q as usize))
                } else {
                    p_tail(t, q2, bare(NodeType::BinaryExpr(op), seq![left, r]), level)
                },
            },
        }
    }
}

/// Right-hand sides of a declaration or assignment from `p` to the end of
/// the line: each one skips a token, then reads an expression.
pub open spec fn p_rhs(t: Seq<Lexeme>, p: int, acc: Seq<NodeModel>) -> Result<
    (Seq<NodeModel>, int),
    ScriptError,
>
    decreases t.len() - p, 0nat,
{
    if !in_range(t, p) {
        Err(ScriptError::Syntax(p as usize))
    } else if t[p] == Lexeme::EOL || t[p] == Lexeme::EOF {
        Ok((acc, p))
    } else {
        match p_tier(t, p + 1, 3) {
            Err(e) => Err(e),
            Ok((e, q)) => if q <= p || !in_range(t, q) {
                Err(ScriptError::Syntax(p as usize))
            } else {
                p_rhs(t, q, acc.push(e))
            },
        }
    }
}

/// A statement at `p`: a declaration, or an expression.
pub open spec fn p_stmt(t: Seq<Lexeme>, p: int) -> Result<(NodeModel, int), ScriptError>
    decreases t.len() - p, 10nat,
{
    if !in_range(t, p) {
        Err(ScriptError::Syntax(p as usize))
    } else if t[p] == Lexeme::Let {
        match tk(t, p + 1) {
            Lexeme::Identifier(_) => match p_rhs(t, p + 2, Seq::empty()) {
                Err(e) => Err(e),
                Ok((vals, q)) => if vals.len() == 0 {
                    Err(ScriptError::Syntax(q as usize))
                } else {
                    Ok(
                        (
                            NodeModel {
                                node_type: NodeType::Declaration,
                                value: Some(t[p + 1]),
                                body: vals,
                            },
                            q,
                        ),
                    )
                },
            },
            _ => Err(ScriptError::Syntax((p + 1) as usize)),
        }
    } else {
        p_tier(t, p, 3)
    }
}

/// Statements from `p` up to a closing brace, whose position is returned.
pub open spec fn p_block(t: Seq<Lexeme>, p: int, acc: Seq<NodeModel>) -> Result<
    (Seq<NodeModel>, int),
    ScriptError,
>
    decreases t.len() - p, 11nat,
{
    if !in_range(t, p) {
        Err(ScriptError::Syntax(p as usize))
    } else if t[p] == Lexeme::CloseCurlyBracket {
        Ok((acc, p))
    } else {
        match p_stmt(t, p) {
            Err(e) => Err(e),
            Ok((s, q)) => if q <= p || !in_range(t, q) {
                Err(ScriptError::Syntax(p as usize))
            } else {
                p_block(t, q, acc.push(s))
            },
        }
    }
}

/// Statements from `p` up to `EOF`.
pub open spec fn p_program(t: Seq<Lexeme>, p: int, acc: Seq<NodeModel>) -> Result<
    Seq<NodeModel>,
    ScriptError,
>
    decreases t.len() - p,
{
    if !in_range(t, p) {
        Err(ScriptError::Syntax(p as usize))
    } else if t[p] == Lexeme::EOF {
        Ok(acc)
    } else {
        match p_stmt(t, p) {
            Err(e) => Err(e),
            Ok((s, q)) => if q <= p || !in_range(t, q) {
                Err(ScriptError::Syntax(p as usize))
            } else {
                p_program(t, q, acc.push(s))
            },
        }
    }
}

/// The syntax tree of a token sequence: a `Program` node.
pub open spec fn parse(t: Seq<Lexeme>) -> Result<NodeModel, ScriptError> {
    match p_program(t, 0, Seq::empty()) {
        Ok(stmts) => Ok(bare(NodeType::Program, stmts)),
        Err(e) => Err(e),
    }
}

/// The syntax tree of a source text.
pub open spec fn ast_of(source: Seq<char>) -> Result<NodeModel, ScriptError> {
    match lex(source) {
        Ok(t) => parse(t),
        Err(e) => Err(e),
    }
}

/// A parse result as a model, with the position reached.
pub open spec fn node_result(r: Result<Node, ScriptError>, pos: usize) -> Result<(NodeModel, int), ScriptError> {
    match r {
        Ok(n) => Ok((n@, pos as int)),
        Err(e) => Err(e),
    }
}

pub open spec fn nodes_result(r: Result<Vec<Node>, ScriptError>, pos: usize) -> Result<
    (Seq<NodeModel>, int),
    ScriptError,
> {
    match r {
        Ok(v) => Ok((views(v@), pos as int)),
        Err(e) => Err(e),
    }
}

pub proof fn lemma_node_view(n: Node)
    ensures
        n@ == (NodeModel { node_type: n.node_type, value: token_view(n.value), body: views(n.body@) }),
{
    let b = Seq::new(
        n.body@.len(),
        |i: int|
            if 0 <= i < n.body@.len() {
                n.body@[i].model()
            } else {
                NodeModel { node_type: NodeType::EOL, value: None, body: Seq::empty() }
            },
    );
    assert(n@.body == b);
    assert(b =~= views(n.body@));
}

proof fn lemma_views_push(v: Seq<Node>, n: Node)
    ensures
        views(v.push(n)) == views(v).push(n@),
{
    assert(views(v.push(n)) =~= views(v).push(n@));
}

/// Moves past the current token, which is not the final `EOF`.
fn advance(tokens: &mut TokenStream)
    requires
        old(tokens).wf(),
        old(tokens).lexemes()[old(tokens).current_pos as int] != Lexeme::EOF,
    ensures
        final(tokens).wf(),
        final(tokens).tokens@ == old(tokens).tokens@,
        final(tokens).current_pos == old(tokens).current_pos + 1,
{
    tokens.pop();
}

fn tier_op_exec(level: u8, tok: &Token) -> (r: Option<BinOp>)
    ensures
        r == tier_op(level as nat, tok@),
{
    match &tok.token_type {
        TokenType::Operator(o) => if level == 3 {
            match o {
                Op::EqEq => Some(BinOp::Eq),
                Op::NotEq => Some(BinOp::Ne),
                Op::Gt => Some(BinOp::Gt),
                Op::Lt => Some(BinOp::Lt),
                Op::Ge => Some(BinOp::Ge),
                Op::Le => Some(BinOp::Le),
                Op::AndAnd => Some(BinOp::And),
                Op::OrOr => Some(BinOp::Or),
                _ => None,
            }
        } else if level == 2 {
            match o {
                Op::Plus => Some(BinOp::Add),
                Op::Minus => Some(BinOp::Sub),
                _ => None,
            }
        } else if level == 1 {
            match o {
                Op::Star => Some(BinOp::Mul),
                Op::Slash => Some(BinOp::Div),
                Op::Percent => Some(BinOp::Rem),
                _ => None,
            }
        } else {
            None
        },
        _ => None,
    }
}

fn bare_node(nt: NodeType, body: Vec<Node>) -> (r: Node)
    ensures
        r@ == bare(nt, views(body@)),
{
    let r = Node { node_type: nt, value: None, body };
    proof {
        lemma_node_view(r);
    }
    r
}

fn pair(a: Node, b: Node) -> (r: Vec<Node>)
    ensures
        views(r@) == seq![a@, b@],
{
    let r = vec![a, b];
    assert(views(r@) =~= seq![a@, b@]);
    r
}

fn single(a: Node) -> (r: Vec<Node>)
    ensures
        views(r@) == seq![a@],
{
    let r = vec![a];
    assert(views(r@) =~= seq![a@]);
    r
}

fn leaf_node(nt: NodeType, tokens: &TokenStream) -> (r: Node)
    requires
        tokens.current_pos < tokens.tokens@.len(),
    ensures
        r@ == leaf(nt, tokens.lexemes()[tokens.current_pos as int]),
{
    let r = Node { node_type: nt, value: Some(tokens.at()), body: Vec::new() };
    proof {
        lemma_node_view(r);
        assert(views(r.body@) =~= Seq::<NodeModel>::empty());
    }
    r
}

impl Node {
    /// An `if`, `elseif` or `loop` with its condition and block.
    fn parse_guarded(tokens: &mut TokenStream, nt: NodeType) -> (r: Result<Node, ScriptError>)
        requires
            old(tokens).wf(),
            old(tokens).lexemes()[old(tokens).current_pos as int] != Lexeme::EOF,
        ensures
            final(tokens).tokens@ == old(tokens).tokens@,
            final(tokens).wf(),
            node_result(r, final(tokens).current_pos) == p_guarded(
                old(tokens).lexemes(),
                old(tokens).current_pos as int,
                nt,
            ),
            r is Ok ==> final(tokens).current_pos > old(tokens).current_pos,
        decreases old(tokens).tokens@.len() - old(tokens).current_pos, 0nat,
    {
        let ghost t = tokens.lexemes();
        let ghost orig = tokens.tokens@;
        let ghost p = tokens.current_pos as int;
        advance(tokens);
        if !matches!(tokens.current().token_type, TokenType::OpenBracket) {
            return Err(ScriptError::Syntax(tokens.current_pos));
        }
        advance(tokens);
        let c = match Node::parse_tier(tokens, 3) {
            Err(e) => {
                return Err(e);
            },
            Ok(c) => c,
        };
        let q = tokens.current_pos;
        if !matches!(tokens.current().token_type, TokenType::CloseBracket) {
            return Err(ScriptError::Syntax(q));
        }
        advance(tokens);
        if !matches!(tokens.current().token_type, TokenType::OpenCurlyBracket) {
            return Err(ScriptError::Syntax(tokens.current_pos));
        }
        advance(tokens);
        let stmts = match Node::parse_block(tokens) {
            Err(e) => {
                return Err(e);
            },
            Ok(b) => b,
        };
        advance(tokens);
        let scope = bare_node(NodeType::Scope, stmts);
        Ok(bare_node(nt, pair(c, scope)))
    }

    /// `( expression )`.
    fn parse_parenthesised(tokens: &mut TokenStream) -> (r: Result<Node, ScriptError>)
        requires
            old(tokens).wf(),
            old(tokens).lexemes()[old(tokens).current_pos as int] == Lexeme::OpenBracket,
        ensures
            final(tokens).tokens@ == old(tokens).tokens@,
            final(tokens).wf(),
            node_result(r, final(tokens).current_pos) == p_primary(
                old(tokens).lexemes(),
                old(tokens).current_pos as int,
            ),
            r is Ok ==> final(tokens).current_pos > old(tokens).current_pos,
        decreases old(tokens).tokens@.len() - old(tokens).current_pos, 0nat,
    {
        advance(tokens);
        let e = match Node::parse_tier(tokens, 3) {
            Err(e) => {
                return Err(e);
            },
            Ok(e) => e,
        };
        if matches!(tokens.current().token_type, TokenType::CloseBracket) {
            advance(tokens);
            Ok(e)
        } else {
            Err(ScriptError::Syntax(tokens.current_pos))
        }
    }

    /// `{ statements }` read as an expression.
    fn parse_scope(tokens: &mut TokenStream) -> (r: Result<Node, ScriptError>)
        requires
            old(tokens).wf(),
            old(tokens).lexemes()[old(tokens).current_pos as int] == Lexeme::OpenCurlyBracket,
        ensures
            final(tokens).tokens@ == old(tokens).tokens@,
            final(tokens).wf(),
            node_result(r, final(tokens).current_pos) == p_primary(
                old(tokens).lexemes(),
                old(tokens).current_pos as int,
            ),
            r is Ok ==> final(tokens).current_pos > old(tokens).current_pos,
        decreases old(tokens).tokens@.len() - old(tokens).current_pos, 0nat,
    {
        advance(tokens);
        let stmts = match Node::parse_block(tokens) {
            Err(e) => {
                return Err(e);
            },
            Ok(b) => b,
        };
        advance(tokens);
        Ok(bare_node(NodeType::Scope, stmts))
    }

    /// A name, or an assignment to it.
    fn parse_name(tokens: &mut TokenStream) -> (r: Result<Node, ScriptError>)
        requires
            old(tokens).wf(),
            old(tokens).lexemes()[old(tokens).current_pos as int] is Identifier,
        ensures
            final(tokens).tokens@ == old(tokens).tokens@,
            final(tokens).wf(),
            node_result(r, final(tokens).current_pos) == p_primary(
                old(tokens).lexemes(),
                old(tokens).current_pos as int,
            ),
            r is Ok ==> final(tokens).current_pos > old(tokens).current_pos,
        decreases old(tokens).tokens@.len() - old(tokens).current_pos, 0nat,
    {
        let name = tokens.at();
        advance(tokens);
        if matches!(tokens.current().token_type, TokenType::Operator(Op::Assign)) {
            let vals = match Node::parse_rhs(tokens) {
                Err(e) => {
                    return Err(e);
                },
                Ok(v) => v,
            };
            let n = Node { node_type: NodeType::Assignment, value: Some(name), body: vals };
            proof {
                lemma_node_view(n);
            }
            Ok(n)
        } else {
            let n = Node { node_type: NodeType::Identifier, value: Some(name), body: Vec::new() };
            proof {
                lemma_node_view(n);
                assert(views(n.body@) =~= Seq::<NodeModel>::empty());
            }
            Ok(n)
        }
    }

    /// `else { statements }`.
    fn parse_else(tokens: &mut TokenStream) -> (r: Result<Node, ScriptError>)
        requires
            old(tokens).wf(),
            old(tokens).lexemes()[old(tokens).current_pos as int] == Lexeme::Else,
        ensures
            final(tokens).tokens@ == old(tokens).tokens@,
            final(tokens).wf(),
            node_result(r, final(tokens).current_pos) == p_primary(
                old(tokens).lexemes(),
                old(tokens).current_pos as int,
            ),
            r is Ok ==> final(tokens).current_pos > old(tokens).current_pos,
        decreases old(tokens).tokens@.len() - old(tokens).current_pos, 0nat,
    {
        advance(tokens);
        if !matches!(tokens.current().token_type, TokenType::OpenCurlyBracket) {
            return Err(ScriptError::Syntax(tokens.current_pos));
        }
        advance(tokens);
        let stmts = match Node::parse_block(tokens) {
            Err(e) => {
                return Err(e);
            },
            Ok(b) => b,
        };
        advance(tokens);
        let scope = bare_node(NodeType::Scope, stmts);
        Ok(bare_node(NodeType::Else, single(scope)))
    }

    /// `print ( expression )`.
    fn parse_print(tokens: &mut TokenStream) -> (r: Result<Node, ScriptError>)
        requires
            old(tokens).wf(),
            old(tokens).lexemes()[old(tokens).current_pos as int] == Lexeme::Print,
        ensures
            final(tokens).tokens@ == old(tokens).tokens@,
            final(tokens).wf(),
            node_result(r, final(tokens).current_pos) == p_primary(
                old(tokens).lexemes(),
                old(tokens).current_pos as int,
            ),
            r is Ok ==> final(tokens).current_pos > old(tokens).current_pos,
        decreases old(tokens).tokens@.len() - old(tokens).current_pos, 0nat,
    {
        advance(tokens);
        if !matches!(tokens.current().token_type, TokenType::OpenBracket) {
            return Err(ScriptError::Syntax(tokens.current_pos));
        }
        advance(tokens);
        let e = match Node::parse_tier(tokens, 3) {
            Err(e) => {
                return Err(e);
            },
            Ok(e) => e,
        };
        if matches!(tokens.current().token_type, TokenType::CloseBracket) {
            advance(tokens);
            Ok(bare_node(NodeType::Print, single(e)))
        } else {
            Err(ScriptError::Syntax(tokens.current_pos))
        }
    }

    /// A primary expression, or a construct read at the primary tier.
    pub fn parse_primary_expr(tokens: &mut TokenStream) -> (r: Result<Node, ScriptError>)
        requires
            old(tokens).wf(),
        ensures
            final(tokens).tokens@ == old(tokens).tokens@,
            final(tokens).wf(),
            node_result(r, final(tokens).current_pos) == p_primary(
                old(tokens).lexemes(),
                old(tokens).current_pos as int,
            ),
            r is Ok ==> final(tokens).current_pos > old(tokens).current_pos,
        decreases old(tokens).tokens@.len() - old(tokens).current_pos, 1nat,
    {
        let ghost t = tokens.lexemes();
        let ghost orig = tokens.tokens@;
        let ghost p = tokens.current_pos as int;
        match &tokens.current().token_type {
            TokenType::Integer(_) | TokenType::Float(_) => {
                let n = leaf_node(NodeType::NumericLiteral, tokens);
                advance(tokens);
                Ok(n)
            },
            TokenType::StringLiteral(_) => {
                let n = leaf_node(NodeType::StringLiteral, tokens);
                advance(tokens);
                Ok(n)
            },
            TokenType::Boolean(_) => {
                let n = leaf_node(NodeType::Boolean, tokens);
                advance(tokens);
                Ok(n)
            },
            TokenType::EOL => {
                advance(tokens);
                let v: Vec<Node> = Vec::new();
                assert(views(v@) =~= Seq::<NodeModel>::empty());
                Ok(bare_node(NodeType::EOL, v))
            },
            TokenType::Break => {
                advance(tokens);
                let v: Vec<Node> = Vec::new();
                assert(views(v@) =~= Seq::<NodeModel>::empty());
                Ok(bare_node(NodeType::Break, v))
            },
            TokenType::OpenBracket => Node::parse_parenthesised(tokens),
            TokenType::OpenCurlyBracket => Node::parse_scope(tokens),
            TokenType::Identifier(_) => Node::parse_name(tokens),
            TokenType::Operator(Op::Bang) => {
                advance(tokens);
                let e = match Node::parse_primary_expr(tokens) {
                    Err(e) => {
                        return Err(e);
                    },
                    Ok(e) => e,
                };
                Ok(bare_node(NodeType::UnaryExpr(UnaryOp::Not), single(e)))
            },
            TokenType::If => Node::parse_guarded(tokens, NodeType::If),
            TokenType::ElseIf => Node::parse_guarded(tokens, NodeType::ElseIf),
            TokenType::Loop => Node::parse_guarded(tokens, NodeType::Loop),
            TokenType::Else => Node::parse_else(tokens),
            TokenType::Print => Node::parse_print(tokens),
            _ => Err(ScriptError::Syntax(tokens.current_pos)),
        }
    }

    /// An expression of precedence tier `level`, 0 being the primary tier.
    fn parse_tier(tokens: &mut TokenStream, level: u8) -> (r: Result<Node, ScriptError>)
        requires
            old(tokens).wf(),
            level <= 3,
        ensures
            final(tokens).tokens@ == old(tokens).tokens@,
            final(tokens).wf(),
            node_result(r, final(tokens).current_pos) == p_tier(
                old(tokens).lexemes(),
                old(tokens).current_pos as int,
                level as nat,
            ),
            r is Ok ==> final(tokens).current_pos > old(tokens).current_pos,
        decreases old(tokens).tokens@.len() - old(tokens).current_pos, 2 * level + 2,
    {
        let ghost t = tokens.lexemes();
        let ghost orig = tokens.tokens@;
        let ghost p = tokens.current_pos as int;
        if level == 0 {
            return Node::parse_primary_expr(tokens);
        }
        let mut left = match Node::parse_tier(tokens, level - 1) {
            Err(e) => {
                return Err(e);
            },
            Ok(l) => l,
        };
        loop
            invariant_except_break
                tokens.lexemes() == t,
                tokens.tokens@ == orig,
                orig == old(tokens).tokens@,
                t == old(tokens).lexemes(),
                p == old(tokens).current_pos,
                tokens.wf(),
                tokens.current_pos > p,
                p_tier(t, p, level as nat) == p_tail(t, tokens.current_pos as int, left@, level as nat),
                1 <= level <= 3,
            ensures
                tokens.lexemes() == t,
                tokens.tokens@ == orig,
                orig == old(tokens).tokens@,
                t == old(tokens).lexemes(),
                p == old(tokens).current_pos,
                tokens.wf(),
                tokens.current_pos > p,
                p_tier(t, p, level as nat) == Ok::<(NodeModel, int), ScriptError>(
                    (left@, tokens.current_pos as int),
                ),
            decreases t.len() - tokens.current_pos,
        {
            let op = match tier_op_exec(level, tokens.current()) {
                None => {
                    break ;
                },
                Some(op) => op,
            };
            advance(tokens);
            let right = match Node::parse_tier(tokens, level - 1) {
                Err(e) => {
                    return Err(e);
                },
                Ok(r) => r,
            };
            left = bare_node(NodeType::BinaryExpr(op), pair(left, right));
        }
        Ok(left)
    }

    pub fn parse_multiplicative_expr(tokens: &mut TokenStream) -> (r: Result<Node, ScriptError>)
        requires
            old(tokens).wf(),
        ensures
            final(tokens).tokens@ == old(tokens).tokens@,
            final(tokens).wf(),
            node_result(r, final(tokens).current_pos) == p_tier(
                old(tokens).lexemes(),
                old(tokens).current_pos as int,
                1,
            ),
    {
        Node::parse_tier(tokens, 1)
    }

    pub fn parse_additive_expr(tokens: &mut TokenStream) -> (r: Result<Node, ScriptError>)
        requires
            old(tokens).wf(),
        ensures
            final(tokens).tokens@ == old(tokens).tokens@,
            final(tokens).wf(),
            node_result(r, final(tokens).current_pos) == p_tier(
                old(tokens).lexemes(),
                old(tokens).current_pos as int,
                2,
            ),
    {
        Node::parse_tier(tokens, 2)
    }

    pub fn parse_comparative_expr(tokens: &mut TokenStream) -> (r: Result<Node, ScriptError>)
        requires
            old(tokens).wf(),
        ensures
            final(tokens).tokens@ == old(tokens).tokens@,
            final(tokens).wf(),
            node_result(r, final(tokens).current_pos) == p_tier(
                old(tokens).lexemes(),
                old(tokens).current_pos as int,
                3,
            ),
    {
        Node::parse_tier(tokens, 3)
    }

    pub fn parse_expr(tokens: &mut TokenStream) -> (r: Result<Node, ScriptError>)
        requires
            old(tokens).wf(),
        ensures
            final(tokens).tokens@ == old(tokens).tokens@,
            final(tokens).wf(),
            node_result(r, final(tokens).current_pos) == p_tier(
                old(tokens).lexemes(),
                old(tokens).current_pos as int,
                3,
            ),
    {
        Node::parse_tier(tokens, 3)
    }

    /// Right-hand sides up to the end of the line.
    fn parse_rhs(tokens: &mut TokenStream) -> (r: Result<Vec<Node>, ScriptError>)
        requires
            old(tokens).wf(),
        ensures
            final(tokens).tokens@ == old(tokens).tokens@,
            final(tokens).wf(),
            nodes_result(r, final(tokens).current_pos) == p_rhs(
                old(tokens).lexemes(),
                old(tokens).current_pos as int,
                Seq::empty(),
            ),
            r is Ok ==> final(tokens).current_pos >= old(tokens).current_pos,
        decreases old(tokens).tokens@.len() - old(tokens).current_pos, 0nat,
    {
        let ghost t = tokens.lexemes();
        let ghost orig = tokens.tokens@;
        let ghost p = tokens.current_pos as int;
        let mut vals: Vec<Node> = Vec::new();
        assert(views(vals@) =~= Seq::<NodeModel>::empty());
        loop
            invariant_except_break
                tokens.lexemes() == t,
                tokens.tokens@ == orig,
                orig == old(tokens).tokens@,
                t == old(tokens).lexemes(),
                p == old(tokens).current_pos,
                tokens.wf(),
                tokens.current_pos >= p,
                p_rhs(t, p, Seq::empty()) == p_rhs(t, tokens.current_pos as int, views(vals@)),
            ensures
                tokens.lexemes() == t,
                tokens.tokens@ == orig,
                orig == old(tokens).tokens@,
                t == old(tokens).lexemes(),
                p == old(tokens).current_pos,
                tokens.wf(),
                tokens.current_pos >= p,
                p_rhs(t, p, Seq::empty()) == Ok::<(Seq<NodeModel>, int), ScriptError>(
                    (views(vals@), tokens.current_pos as int),
                ),
            decreases t.len() - tokens.current_pos,
        {
            if matches!(tokens.current().token_type, TokenType::EOL)
                || matches!(tokens.current().token_type, TokenType::EOF) {
                break ;
            }
            advance(tokens);
            let e = match Node::parse_tier(tokens, 3) {
                Err(e) => {
                    return Err(e);
                },
                Ok(e) => e,
            };
            proof {
                lemma_views_push(vals@, e);
            }
            vals.push(e);
        }
        Ok(vals)
    }

    /// A statement: a declaration, or an expression.
    pub fn parse_stmt(tokens: &mut TokenStream) -> (r: Result<Node, ScriptError>)
        requires
            old(tokens).wf(),
        ensures
            final(tokens).tokens@ == old(tokens).tokens@,
            final(tokens).wf(),
            node_result(r, final(tokens).current_pos) == p_stmt(
                old(tokens).lexemes(),
                old(tokens).current_pos as int,
            ),
            r is Ok ==> final(tokens).current_pos > old(tokens).current_pos,
        decreases old(tokens).tokens@.len() - old(tokens).current_pos, 10nat,
    {
        let ghost t = tokens.lexemes();
        let ghost orig = tokens.tokens@;
        let ghost p = tokens.current_pos as int;
        if matches!(tokens.current().token_type, TokenType::Let) {
            advance(tokens);
            if !matches!(tokens.current().token_type, TokenType::Identifier(_)) {
                return Err(ScriptError::Syntax(tokens.current_pos));
            }
            let name = tokens.at();
            advance(tokens);
            let vals = match Node::parse_rhs(tokens) {
                Err(e) => {
                    return Err(e);
                },
                Ok(v) => v,
            };
            if vals.len() == 0 {
                return Err(ScriptError::Syntax(tokens.current_pos));
            }
            let n = Node { node_type: NodeType::Declaration, value: Some(name), body: vals };
            proof {
                lemma_node_view(n);
            }
            Ok(n)
        } else {
            Node::parse_tier(tokens, 3)
        }
    }

    /// Statements up to a closing brace, at which the stream is left.
    fn parse_block(tokens: &mut TokenStream) -> (r: Result<Vec<Node>, ScriptError>)
        requires
            old(tokens).wf(),
        ensures
            final(tokens).tokens@ == old(tokens).tokens@,
            final(tokens).wf(),
            nodes_result(r, final(tokens).current_pos) == p_block(
                old(tokens).lexemes(),
                old(tokens).current_pos as int,
                Seq::empty(),
            ),
            r is Ok ==> final(tokens).current_pos >= old(tokens).current_pos,
            r is Ok ==> final(tokens).lexemes()[final(tokens).current_pos as int]
                == Lexeme::CloseCurlyBracket,
        decreases old(tokens).tokens@.len() - old(tokens).current_pos, 11nat,
    {
        let ghost t = tokens.lexemes();
        let ghost orig = tokens.tokens@;
        let ghost p = tokens.current_pos as int;
        let mut stmts: Vec<Node> = Vec::new();
        assert(views(stmts@) =~= Seq::<NodeModel>::empty());
        loop
            invariant_except_break
                tokens.lexemes() == t,
                tokens.tokens@ == orig,
                orig == old(tokens).tokens@,
                t == old(tokens).lexemes(),
                p == old(tokens).current_pos,
                tokens.wf(),
                tokens.current_pos >= p,
                p_block(t, p, Seq::empty()) == p_block(t, tokens.current_pos as int, views(stmts@)),
            ensures
                tokens.lexemes() == t,
                tokens.tokens@ == orig,
                orig == old(tokens).tokens@,
                t == old(tokens).lexemes(),
                p == old(tokens).current_pos,
                tokens.wf(),
                tokens.current_pos >= p,
                t[tokens.current_pos as int] == Lexeme::CloseCurlyBracket,
                p_block(t, p, Seq::empty()) == Ok::<(Seq<NodeModel>, int), ScriptError>(
                    (views(stmts@), tokens.current_pos as int),
                ),
            decreases t.len() - tokens.current_pos,
        {
            if matches!(tokens.current().token_type, TokenType::CloseCurlyBracket) {
                break ;
            }
            let s = match Node::parse_stmt(tokens) {
                Err(e) => {
                    return Err(e);
                },
                Ok(s) => s,
            };
            proof {
                lemma_views_push(stmts@, s);
            }
            stmts.push(s);
        }
        Ok(stmts)
    }

    /// Reads statements up to `EOF` into the body of this node.
    pub fn generate_ast(&mut self, tokens: &mut TokenStream) -> (r: Result<(), ScriptError>)
        requires
            old(tokens).wf(),
        ensures
            final(self).node_type == old(self).node_type,
            final(self).value == old(self).value,
            r is Ok ==> p_program(
                old(tokens).lexemes(),
                old(tokens).current_pos as int,
                views(old(self).body@),
            ) == Ok::<Seq<NodeModel>, ScriptError>(views(final(self).body@)),
            r matches Err(e) ==> p_program(
                old(tokens).lexemes(),
                old(tokens).current_pos as int,
                views(old(self).body@),
            ) == Err::<Seq<NodeModel>, ScriptError>(e),
    {
        let ghost t = tokens.lexemes();
        let ghost orig = tokens.tokens@;
        let ghost p = tokens.current_pos as int;
        let ghost b = views(self.body@);
        while !matches!(tokens.current().token_type, TokenType::EOF)
            invariant
                tokens.lexemes() == t,
                tokens.tokens@ == orig,
                orig == old(tokens).tokens@,
                t == old(tokens).lexemes(),
                p == old(tokens).current_pos,
                tokens.wf(),
                self.node_type == old(self).node_type,
                self.value == old(self).value,
                p_program(t, p, b) == p_program(t, tokens.current_pos as int, views(self.body@)),
                b == views(old(self).body@),
            decreases t.len() - tokens.current_pos,
        {
            let s = match Node::parse_stmt(tokens) {
                Err(e) => {
                    return Err(e);
                },
                Ok(s) => s,
            };
            proof {
                lemma_views_push(self.body@, s);
            }
            self.body.push(s);
        }
        Ok(())
    }
}

/// The syntax tree of a source text: a `Program` node holding its statements.
pub fn generate_ast(source: String) -> (r: Result<Node, ScriptError>)
    ensures
        match r {
            Ok(n) => ast_of(source@) == Ok::<NodeModel, ScriptError>(n@),
            Err(e) => ast_of(source@) == Err::<NodeModel, ScriptError>(e),
        },
{
    let mut tokens = match tokenise(source) {
        Err(e) => {
            return Err(e);
        },
        Ok(t) => t,
    };
    let mut program = Node { node_type: NodeType::Program, value: None, body: Vec::new() };
    assert(views(program.body@) =~= Seq::<NodeModel>::empty());
    match program.generate_ast(&mut tokens) {
        Err(e) => Err(e),
        Ok(()) => {
            proof {
                lemma_node_view(program);
            }
            Ok(program)
        },
    }
}

} // verus!
