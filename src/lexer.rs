use vstd::prelude::*;

use crate::error::ScriptError;

verus! {

/// Operator symbols produced by the lexer.
#[derive(Clone, Copy, Debug, PartialEq, Eq, Structural)]
pub enum Op {
    Plus,
    PlusAssign,
    Minus,
    MinusAssign,
    Star,
    StarAssign,
    Slash,
    SlashAssign,
    Assign,
    EqEq,
    Bang,
    NotEq,
    Gt,
    Ge,
    Lt,
    Le,
    Amp,
    AndAnd,
    Pipe,
    OrOr,
    Percent,
}

impl Op {
    /// The source text of the operator.
    pub open spec fn spec_text(self) -> Seq<char> {
        match self {
            Op::Plus => seq!['+'],
            Op::PlusAssign => seq!['+', '='],
            Op::Minus => seq!['-'],
            Op::MinusAssign => seq!['-', '='],
            Op::Star => seq!['*'],
            Op::StarAssign => seq!['*', '='],
            Op::Slash => seq!['/'],
            Op::SlashAssign => seq!['/', '='],
            Op::Assign => seq!['='],
            Op::EqEq => seq!['=', '='],
            Op::Bang => seq!['!'],
            Op::NotEq => seq!['!', '='],
            Op::Gt => seq!['>'],
            Op::Ge => seq!['>', '='],
            Op::Lt => seq!['<'],
            Op::Le => seq!['<', '='],
            Op::Amp => seq!['&'],
            Op::AndAnd => seq!['&', '&'],
            Op::Pipe => seq!['|'],
            Op::OrOr => seq!['|', '|'],
            Op::Percent => seq!['%'],
        }
    }

    /// The operators written with two characters.
    pub open spec fn is_compound(self) -> bool {
        match self {
            Op::PlusAssign | Op::MinusAssign | Op::StarAssign | Op::SlashAssign | Op::EqEq
            | Op::NotEq | Op::Ge | Op::Le | Op::AndAnd | Op::OrOr => true,
            _ => false,
        }
    }

    pub fn text(&self) -> (r: Vec<char>)
        ensures
            r@ == self.spec_text(),
    {
        let r = match self {
            Op::Plus => vec!['+'],
            Op::PlusAssign => vec!['+', '='],
            Op::Minus => vec!['-'],
            Op::MinusAssign => vec!['-', '='],
            Op::Star => vec!['*'],
            Op::StarAssign => vec!['*', '='],
            Op::Slash => vec!['/'],
            Op::SlashAssign => vec!['/', '='],
            Op::Assign => vec!['='],
            Op::EqEq => vec!['=', '='],
            Op::Bang => vec!['!'],
            Op::NotEq => vec!['!', '='],
            Op::Gt => vec!['>'],
            Op::Ge => vec!['>', '='],
            Op::Lt => vec!['<'],
            Op::Le => vec!['<', '='],
            Op::Amp => vec!['&'],
            Op::AndAnd => vec!['&', '&'],
            Op::Pipe => vec!['|'],
            Op::OrOr => vec!['|', '|'],
            Op::Percent => vec!['%'],
        };
        assert(r@ =~= self.spec_text());
        r
    }
}

/// What a token means, as a mathematical value.
pub enum Lexeme {
    Integer(i64),
    Float(Seq<char>),
    Boolean(bool),
    Identifier(Seq<char>),
    StringLiteral(Seq<char>),
    Operator(Op),
    Punctuation(char),
    OpenBracket,
    CloseBracket,
    OpenCurlyBracket,
    CloseCurlyBracket,
    Let,
    If,
    ElseIf,
    Else,
    Loop,
    Print,
    Break,
    EOL,
    EOF,
}

/// A lexical unit. A float literal keeps its source text (with its sign);
/// its value is computed where floating point is available.
#[derive(Debug)]
pub enum TokenType {
    Integer(i64),
    Float(Vec<char>),
    Boolean(bool),
    Identifier(Vec<char>),
    StringLiteral(Vec<char>),
    Operator(Op),
    Punctuation(char),
    OpenBracket,
    CloseBracket,
    OpenCurlyBracket,
    CloseCurlyBracket,
    Let,
    If,
    ElseIf,
    Else,
    Loop,
    Print,
    Break,
    EOL,
    EOF,
}

impl View for TokenType {
    type V = Lexeme;

    open spec fn view(&self) -> Lexeme {
        match self {
            TokenType::Integer(v) => Lexeme::Integer(*v),
            TokenType::Float(t) => Lexeme::Float(t@),
            TokenType::Boolean(b) => Lexeme::Boolean(*b),
            TokenType::Identifier(t) => Lexeme::Identifier(t@),
            TokenType::StringLiteral(t) => Lexeme::StringLiteral(t@),
            TokenType::Operator(o) => Lexeme::Operator(*o),
            TokenType::Punctuation(c) => Lexeme::Punctuation(*c),
            TokenType::OpenBracket => Lexeme::OpenBracket,
            TokenType::CloseBracket => Lexeme::CloseBracket,
            TokenType::OpenCurlyBracket => Lexeme::OpenCurlyBracket,
            TokenType::CloseCurlyBracket => Lexeme::CloseCurlyBracket,
            TokenType::Let => Lexeme::Let,
            TokenType::If => Lexeme::If,
            TokenType::ElseIf => Lexeme::ElseIf,
            TokenType::Else => Lexeme::Else,
            TokenType::Loop => Lexeme::Loop,
            TokenType::Print => Lexeme::Print,
            TokenType::Break => Lexeme::Break,
            TokenType::EOL => Lexeme::EOL,
            TokenType::EOF => Lexeme::EOF,
        }
    }
}

/// The keyword that a word spells, if any.
pub open spec fn keyword(w: Seq<char>) -> Option<Lexeme> {
    if w == "let"@ {
        Some(Lexeme::Let)
    } else if w == "true"@ {
        Some(Lexeme::Boolean(true))
    } else if w == "false"@ {
        Some(Lexeme::Boolean(false))
    } else if w == "if"@ {
        Some(Lexeme::If)
    } else if w == "elseif"@ {
        Some(Lexeme::ElseIf)
    } else if w == "else"@ {
        Some(Lexeme::Else)
    } else if w == "loop"@ {
        Some(Lexeme::Loop)
    } else if w == "print"@ {
        Some(Lexeme::Print)
    } else if w == "break"@ {
        Some(Lexeme::Break)
    } else {
        None
    }
}

/// A copy of a character vector.
pub fn copy_chars(v: &Vec<char>) -> (r: Vec<char>)
    ensures
        r@ == v@,
{
    let mut r: Vec<char> = Vec::new();
    let mut i: usize = 0;
    while i < v.len()
        invariant
            i <= v.len(),
            r@ == v@.take(i as int),
        decreases v.len() - i,
    {
        r.push(v[i]);
        i = i + 1;
        assert(r@ =~= v@.take(i as int));
    }
    assert(r@ =~= v@);
    r
}

/// Whether `w` holds exactly the characters of `k`.
pub fn spells(w: &Vec<char>, k: &str) -> (r: bool)
    ensures
        r == (w@ == k@),
{
    let n = k.unicode_len();
    if w.len() != n {
        return false;
    }
    let mut i: usize = 0;
    while i < n
        invariant
            n == k@.len(),
            w@.len() == n,
            i <= n,
            w@.take(i as int) == k@.take(i as int),
        decreases n - i,
    {
        if w[i] != k.get_char(i) {
            assert(w@[i as int] != k@[i as int]);
            return false;
        }
        i = i + 1;
        assert(w@.take(i as int) =~= k@.take(i as int)) by {
            assert(w@.take(i as int) =~= w@.take(i - 1 as int).push(w@[i - 1]));
            assert(k@.take(i as int) =~= k@.take(i - 1 as int).push(k@[i - 1]));
        }
    }
    assert(w@ =~= w@.take(n as int));
    assert(k@ =~= k@.take(n as int));
    true
}

impl TokenType {
    /// The keyword token that `word` spells, if it is one.
    pub fn check_reserved_keywords(word: &Vec<char>) -> (r: Option<TokenType>)
        ensures
            match r {
                Some(t) => keyword(word@) == Some(t@),
                None => keyword(word@) is None,
            },
    {
        if spells(word, "let") {
            Some(TokenType::Let)
        } else if spells(word, "true") {
            Some(TokenType::Boolean(true))
        } else if spells(word, "false") {
            Some(TokenType::Boolean(false))
        } else if spells(word, "if") {
            Some(TokenType::If)
        } else if spells(word, "elseif") {
            Some(TokenType::ElseIf)
        } else if spells(word, "else") {
            Some(TokenType::Else)
        } else if spells(word, "loop") {
            Some(TokenType::Loop)
        } else if spells(word, "print") {
            Some(TokenType::Print)
        } else if spells(word, "break") {
            Some(TokenType::Break)
        } else {
            None
        }
    }

    pub fn extract_operator(&self) -> (r: Option<Op>)
        ensures
            r == (match self@ {
                Lexeme::Operator(o) => Some(o),
                _ => None,
            }),
    {
        match self {
            TokenType::Operator(o) => Some(*o),
            _ => None,
        }
    }

    pub fn extract_int_value(&self) -> (r: Option<i64>)
        ensures
            r == (match self@ {
                Lexeme::Integer(v) => Some(v),
                _ => None,
            }),
    {
        match self {
            TokenType::Integer(v) => Some(*v),
            _ => None,
        }
    }

    /// The source text of a float literal.
    pub fn extract_float_value(&self) -> (r: Option<&Vec<char>>)
        ensures
            match self@ {
                Lexeme::Float(t) => r is Some && r->0@ == t,
                _ => r is None,
            },
    {
        match self {
            TokenType::Float(t) => Some(t),
            _ => None,
        }
    }

    /// The text held by an identifier, string literal or punctuation token.
    pub fn extract_str_value(&self) -> (r: Option<Vec<char>>)
        ensures
            match self@ {
                Lexeme::Identifier(t) => r is Some && r->0@ == t,
                Lexeme::StringLiteral(t) => r is Some && r->0@ == t,
                Lexeme::Punctuation(c) => r is Some && r->0@ == seq![c],
                _ => r is None,
            },
    {
        match self {
            TokenType::Identifier(t) => Some(copy_chars(t)),
            TokenType::StringLiteral(t) => Some(copy_chars(t)),
            TokenType::Punctuation(c) => {
                let v = vec![*c];
                assert(v@ =~= seq![*c]);
                Some(v)
            },
            _ => None,
        }
    }

    pub fn extract_bool_value(&self) -> (r: Option<bool>)
        ensures
            r == (match self@ {
                Lexeme::Boolean(b) => Some(b),
                _ => None,
            }),
    {
        match self {
            TokenType::Boolean(b) => Some(*b),
            _ => None,
        }
    }

    /// A copy of the token type.
    pub fn duplicate(&self) -> (r: TokenType)
        ensures
            r@ == self@,
    {
        match self {
            TokenType::Integer(v) => TokenType::Integer(*v),
            TokenType::Float(t) => TokenType::Float(copy_chars(t)),
            TokenType::Boolean(b) => TokenType::Boolean(*b),
            TokenType::Identifier(t) => TokenType::Identifier(copy_chars(t)),
            TokenType::StringLiteral(t) => TokenType::StringLiteral(copy_chars(t)),
            TokenType::Operator(o) => TokenType::Operator(*o),
            TokenType::Punctuation(c) => TokenType::Punctuation(*c),
            TokenType::OpenBracket => TokenType::OpenBracket,
            TokenType::CloseBracket => TokenType::CloseBracket,
            TokenType::OpenCurlyBracket => TokenType::OpenCurlyBracket,
            TokenType::CloseCurlyBracket => TokenType::CloseCurlyBracket,
            TokenType::Let => TokenType::Let,
            TokenType::If => TokenType::If,
            TokenType::ElseIf => TokenType::ElseIf,
            TokenType::Else => TokenType::Else,
            TokenType::Loop => TokenType::Loop,
            TokenType::Print => TokenType::Print,
            TokenType::Break => TokenType::Break,
            TokenType::EOL => TokenType::EOL,
            TokenType::EOF => TokenType::EOF,
        }
    }
}

#[derive(Debug)]
pub struct Token {
    pub token_type: TokenType,
}

impl View for Token {
    type V = Lexeme;

    open spec fn view(&self) -> Lexeme {
        self.token_type@
    }
}

impl Token {
    pub fn duplicate(&self) -> (r: Token)
        ensures
            r@ == self@,
    {
        Token { token_type: self.token_type.duplicate() }
    }
}

/// The meaning of each token of a vector.
pub open spec fn lexemes(v: Seq<Token>) -> Seq<Lexeme> {
    v.map_values(|t: Token| t@)
}

pub open spec fn is_digit(c: char) -> bool {
    '0' <= c && c <= '9'
}

pub open spec fn is_alpha(c: char) -> bool {
    ('a' <= c && c <= 'z') || ('A' <= c && c <= 'Z')
}

pub open spec fn is_alnum(c: char) -> bool {
    is_digit(c) || is_alpha(c)
}

pub open spec fn is_numeral_char(c: char) -> bool {
    is_digit(c) || c == '.'
}

pub open spec fn is_blank(c: char) -> bool {
    c == ' ' || c == '\t' || c == '\r'
}

fn digit(c: char) -> (r: bool)
    ensures
        r == is_digit(c),
{
    '0' <= c && c <= '9'
}

fn alpha(c: char) -> (r: bool)
    ensures
        r == is_alpha(c),
{
    ('a' <= c && c <= 'z') || ('A' <= c && c <= 'Z')
}

/// First position at or after `i` whose character is not alphanumeric.
pub open spec fn word_end(s: Seq<char>, i: int) -> int
    decreases s.len() - i,
{
    if 0 <= i < s.len() && is_alnum(s[i]) {
        word_end(s, i + 1)
    } else {
        i
    }
}

/// First position at or after `i` whose character is neither a digit nor a point.
pub open spec fn numeral_end(s: Seq<char>, i: int) -> int
    decreases s.len() - i,
{
    if 0 <= i < s.len() && is_numeral_char(s[i]) {
        numeral_end(s, i + 1)
    } else {
        i
    }
}

/// First position at or after `i` that holds `d`, or the length of `s`.
pub open spec fn quote_end(s: Seq<char>, i: int, d: char) -> int
    decreases s.len() - i,
{
    if 0 <= i < s.len() && s[i] != d {
        quote_end(s, i + 1, d)
    } else {
        i
    }
}

pub open spec fn count_points(t: Seq<char>) -> nat
    decreases t.len(),
{
    if t.len() == 0 {
        0
    } else {
        count_points(t.drop_last()) + if t.last() == '.' {
            1nat
        } else {
            0nat
        }
    }
}

/// The value of a string of decimal digits.
pub open spec fn digits_value(t: Seq<char>) -> int
    decreases t.len(),
{
    if t.len() == 0 {
        0
    } else {
        digits_value(t.drop_last()) * 10 + (t.last() as int - '0' as int)
    }
}

/// The token for the numeral that starts at `start`; `at` is where the
/// token began (on its sign, for a negative literal).
pub open spec fn scan_numeral(s: Seq<char>, start: int, negative: bool, at: int) -> Result<
    (Option<Lexeme>, int),
    ScriptError,
> {
    let j = numeral_end(s, start);
    let text = s.subrange(start, j);
    if count_points(text) > 1 {
        Err(ScriptError::Lexical(at as usize))
    } else if count_points(text) == 1 {
        Ok(
            (
                Some(
                    Lexeme::Float(
                        if negative {
                            seq!['-'] + text
                        } else {
                            text
                        },
                    ),
                ),
                j,
            ),
        )
    } else if digits_value(text) > i64::MAX {
        Err(ScriptError::Lexical(at as usize))
    } else {
        Ok(
            (
                Some(
                    Lexeme::Integer(
                        if negative {
                            (-digits_value(text)) as i64
                        } else {
                            digits_value(text) as i64
                        },
                    ),
                ),
                j,
            ),
        )
    }
}

pub open spec fn next_is(s: Seq<char>, i: int, d: char) -> bool {
    i + 1 < s.len() && s[i + 1] == d
}

/// An operator that may be followed by `d` to form a longer one.
pub open spec fn scan_op(s: Seq<char>, i: int, d: char, long: Op, short: Op) -> Result<
    (Option<Lexeme>, int),
    ScriptError,
> {
    if next_is(s, i, d) {
        Ok((Some(Lexeme::Operator(long)), i + 2))
    } else {
        Ok((Some(Lexeme::Operator(short)), i + 1))
    }
}

/// Whether the `-` at `i` is the sign of a numeric literal: a digit follows
/// and the character before it is not a digit.
pub open spec fn is_sign(s: Seq<char>, i: int) -> bool {
    i + 1 < s.len() && is_digit(s[i + 1]) && (i == 0 || !is_digit(s[i - 1]))
}

pub open spec fn scan_quoted(s: Seq<char>, i: int) -> Result<(Option<Lexeme>, int), ScriptError> {
    let e = quote_end(s, i + 1, s[i]);
    if e >= s.len() {
        Err(ScriptError::Lexical(i as usize))
    } else {
        Ok((Some(Lexeme::StringLiteral(s.subrange(i + 1, e))), e + 1))
    }
}

pub open spec fn scan_word(s: Seq<char>, i: int) -> Result<(Option<Lexeme>, int), ScriptError> {
    let e = word_end(s, i);
    let w = s.subrange(i, e);
    match keyword(w) {
        Some(k) => Ok((Some(k), e)),
        None => Ok((Some(Lexeme::Identifier(w)), e)),
    }
}

/// One step of the lexer at position `i`: the token read there (none for
/// blanks) and the position after it.
pub open spec fn scan(s: Seq<char>, i: int) -> Result<(Option<Lexeme>, int), ScriptError> {
    let n = s.len();
    let c = s[i];
    if c == '(' {
        Ok((Some(Lexeme::OpenBracket), i + 1))
    } else if c == ')' {
        Ok((Some(Lexeme::CloseBracket), i + 1))
    } else if c == '{' {
        Ok((Some(Lexeme::OpenCurlyBracket), i + 1))
    } else if c == '}' {
        Ok((Some(Lexeme::CloseCurlyBracket), i + 1))
    } else if c == '%' {
        Ok((Some(Lexeme::Operator(Op::Percent)), i + 1))
    } else if c == '+' {
        scan_op(s, i, '=', Op::PlusAssign, Op::Plus)
    } else if c == '-' {
        if next_is(s, i, '=') {
            Ok((Some(Lexeme::Operator(Op::MinusAssign)), i + 2))
        } else if is_sign(s, i) {
            scan_numeral(s, i + 1, true, i)
        } else {
            Ok((Some(Lexeme::Operator(Op::Minus)), i + 1))
        }
    } else if c == '*' {
        scan_op(s, i, '=', Op::StarAssign, Op::Star)
    } else if c == '/' {
        scan_op(s, i, '=', Op::SlashAssign, Op::Slash)
    } else if c == '=' {
        scan_op(s, i, '=', Op::EqEq, Op::Assign)
    } else if c == '!' {
        scan_op(s, i, '=', Op::NotEq, Op::Bang)
    } else if c == '>' {
        scan_op(s, i, '=', Op::Ge, Op::Gt)
    } else if c == '<' {
        scan_op(s, i, '=', Op::Le, Op::Lt)
    } else if c == '&' {
        scan_op(s, i, '&', Op::AndAnd, Op::Amp)
    } else if c == '|' {
        scan_op(s, i, '|', Op::OrOr, Op::Pipe)
    } else if c == ';' || c == '\n' {
        Ok((Some(Lexeme::EOL), i + 1))
    } else if c == '"' || c == '\'' {
        scan_quoted(s, i)
    } else if is_alpha(c) {
        scan_word(s, i)
    } else if is_digit(c) {
        scan_numeral(s, i, false, i)
    } else if c == '.' {
        Ok((Some(Lexeme::Punctuation('.')), i + 1))
    } else if is_blank(c) {
        Ok((None, i + 1))
    } else {
        Err(ScriptError::Lexical(i as usize))
    }
}

/// Puts `front` before the tokens of a successful result.
pub open spec fn prefixed(
    front: Seq<Lexeme>,
    r: Result<Seq<Lexeme>, ScriptError>,
) -> Result<Seq<Lexeme>, ScriptError> {
    match r {
        Ok(rest) => Ok(front + rest),
        Err(e) => Err(e),
    }
}

/// The tokens of `s` from position `i` on, ending with `EOF`.
pub open spec fn lex_from(s: Seq<char>, i: int) -> Result<Seq<Lexeme>, ScriptError>
    decreases s.len() - i,
{
    if i < 0 || i >= s.len() {
        Ok(seq![Lexeme::EOF])
    } else {
        match scan(s, i) {
            Err(e) => Err(e),
            Ok((t, j)) => if j <= i || j > s.len() {
                Err(ScriptError::Lexical(i as usize))
            } else {
                prefixed(
                    match t {
                        Some(x) => seq![x],
                        None => Seq::empty(),
                    },
                    lex_from(s, j),
                )
            },
        }
    }
}

/// The token sequence of a whole source text.
pub open spec fn lex(s: Seq<char>) -> Result<Seq<Lexeme>, ScriptError> {
    lex_from(s, 0)
}

pub open spec fn opt_view(o: Option<TokenType>) -> Option<Lexeme> {
    match o {
        Some(t) => Some(t@),
        None => None,
    }
}

pub open spec fn scan_view(r: Result<(Option<TokenType>, usize), ScriptError>) -> Result<
    (Option<Lexeme>, int),
    ScriptError,
> {
    match r {
        Ok((t, j)) => Ok((opt_view(t), j as int)),
        Err(e) => Err(e),
    }
}

/// The characters of a source text, with a read position.
#[derive(Debug)]
pub struct DataStream {
    pub characters: Vec<char>,
    pub current_pos: usize,
}

impl DataStream {
    pub fn push(&mut self, character: char)
        ensures
            final(self).characters@ == old(self).characters@.push(character),
            final(self).current_pos == old(self).current_pos,
    {
        self.characters.push(character);
    }

    pub fn pop(&mut self)
        requires
            old(self).current_pos < old(self).characters@.len(),
        ensures
            final(self).characters@ == old(self).characters@,
            final(self).current_pos == old(self).current_pos + 1,
    {
        let n = self.characters.len();
        self.current_pos = self.current_pos + 1;
    }

    pub fn at(&self) -> (r: char)
        requires
            self.current_pos < self.characters@.len(),
        ensures
            r == self.characters@[self.current_pos as int],
    {
        self.characters[self.current_pos]
    }
}

proof fn lemma_digits_prefix(t: Seq<char>, k: int)
    requires
        0 <= k <= t.len(),
        forall|m: int| 0 <= m < t.len() ==> is_digit(#[trigger] t[m]),
    ensures
        0 <= digits_value(t.take(k)) <= digits_value(t),
    decreases t.len(),
{
    if k == t.len() {
        assert(t.take(k) =~= t);
        if t.len() > 0 {
            lemma_digits_prefix(t.drop_last(), 0);
        }
    } else {
        let u = t.drop_last();
        lemma_digits_prefix(u, k);
        assert(u.take(k) =~= t.take(k));
        assert(is_digit(t[t.len() - 1]));
    }
}

fn parse_digits(s: &Vec<char>, start: usize, end: usize) -> (r: Option<i64>)
    requires
        start <= end <= s@.len(),
        forall|m: int| start <= m < end ==> is_digit(#[trigger] s@[m]),
    ensures
        match r {
            Some(v) => digits_value(s@.subrange(start as int, end as int)) <= i64::MAX && v
                == digits_value(s@.subrange(start as int, end as int)) && 0 <= v,
            None => digits_value(s@.subrange(start as int, end as int)) > i64::MAX,
        },
{
    let ghost t = s@.subrange(start as int, end as int);
    let mut acc: i64 = 0;
    let mut k: usize = start;
    assert(s@.subrange(start as int, start as int) =~= Seq::<char>::empty());
    while k < end
        invariant
            start <= k <= end,
            end <= s@.len(),
            t == s@.subrange(start as int, end as int),
            forall|m: int| start <= m < end ==> is_digit(#[trigger] s@[m]),
            acc as int == digits_value(s@.subrange(start as int, k as int)),
            0 <= acc,
        decreases end - k,
    {
        let c = s[k];
        let d: i64 = (c as u32 - '0' as u32) as i64;
        let ghost next = s@.subrange(start as int, k + 1);
        assert(next.drop_last() =~= s@.subrange(start as int, k as int));
        assert(is_digit(s@[k as int]));
        assert(digits_value(next) == acc * 10 + d);
        proof {
            assert(forall|m: int| 0 <= m < t.len() ==> is_digit(#[trigger] t[m]) ) by {
                assert forall|m: int| 0 <= m < t.len() implies is_digit(#[trigger] t[m]) by {
                    assert(t[m] == s@[start + m]);
                }
            }
            assert(t.take(k + 1 - start) =~= next);
            lemma_digits_prefix(t, k + 1 - start);
        }
        match acc.checked_mul(10) {
            None => {
                return None;
            },
            Some(m) => match m.checked_add(d) {
                None => {
                    return None;
                },
                Some(a) => {
                    acc = a;
                },
            },
        }
        k = k + 1;
    }
    Some(acc)
}

fn scan_numeral_exec(s: &Vec<char>, start: usize, negative: bool, at: usize) -> (r: Result<
    (Option<TokenType>, usize),
    ScriptError,
>)
    requires
        start < s@.len(),
        is_digit(s@[start as int]),
    ensures
        scan_view(r) == scan_numeral(s@, start as int, negative, at as int),
        r matches Ok((_, j)) ==> start < j <= s@.len(),
{
    let mut j: usize = start;
    let mut full: Vec<char> = if negative {
        vec!['-']
    } else {
        Vec::new()
    };
    let ghost sign: Seq<char> = if negative {
        seq!['-']
    } else {
        Seq::empty()
    };
    assert(full@ =~= sign);
    let mut points: usize = 0;
    assert(s@.subrange(start as int, start as int) =~= Seq::<char>::empty());
    while j < s.len() && (digit(s[j]) || s[j] == '.')
        invariant
            start <= j <= s@.len(),
            full@ == sign + s@.subrange(start as int, j as int),
            points == count_points(s@.subrange(start as int, j as int)),
            points <= j - start,
            numeral_end(s@, start as int) == numeral_end(s@, j as int),
            forall|m: int| start <= m < j ==> is_numeral_char(#[trigger] s@[m]),
        decreases s@.len() - j,
    {
        let c = s[j];
        let ghost before = s@.subrange(start as int, j as int);
        full.push(c);
        if c == '.' {
            points = points + 1;
        }
        j = j + 1;
        assert(s@.subrange(start as int, j as int).drop_last() =~= before);
        assert(full@ =~= sign + s@.subrange(start as int, j as int));
    }
    let ghost text = s@.subrange(start as int, j as int);
    assert(numeral_end(s@, j as int) == j as int);
    if points > 1 {
        Err(ScriptError::Lexical(at))
    } else if points == 1 {
        Ok((Some(TokenType::Float(full)), j))
    } else {
        proof {
            if exists|m: int| start <= m < j && !is_digit(#[trigger] s@[m]) {
                let m = choose|m: int| start <= m < j && !is_digit(#[trigger] s@[m]);
                lemma_point_counted(s@, start as int, j as int, m);
            }
        }
        match parse_digits(s, start, j) {
            None => Err(ScriptError::Lexical(at)),
            Some(v) => {
                if negative {
                    Ok((Some(TokenType::Integer(-v)), j))
                } else {
                    Ok((Some(TokenType::Integer(v)), j))
                }
            },
        }
    }
}

proof fn lemma_point_counted(s: Seq<char>, start: int, j: int, m: int)
    requires
        0 <= start <= m < j <= s.len(),
        s[m] == '.',
    ensures
        count_points(s.subrange(start, j)) >= 1,
    decreases j - start,
{
    let t = s.subrange(start, j);
    assert(t.drop_last() =~= s.subrange(start, j - 1));
    if m < j - 1 {
        lemma_point_counted(s, start, j - 1, m);
    }
}

fn scan_op_exec(s: &Vec<char>, i: usize, d: char, long: Op, short: Op) -> (r: Result<
    (Option<TokenType>, usize),
    ScriptError,
>)
    requires
        i < s@.len(),
    ensures
        scan_view(r) == scan_op(s@, i as int, d, long, short),
        r matches Ok((_, j)) ==> i < j <= s@.len(),
{
    let n = s.len();
    if i + 1 < n && s[i + 1] == d {
        Ok((Some(TokenType::Operator(long)), i + 2))
    } else {
        Ok((Some(TokenType::Operator(short)), i + 1))
    }
}

fn scan_quoted_exec(s: &Vec<char>, i: usize) -> (r: Result<(Option<TokenType>, usize), ScriptError>)
    requires
        i < s@.len(),
    ensures
        scan_view(r) == scan_quoted(s@, i as int),
        r matches Ok((_, j)) ==> i < j <= s@.len(),
{
    let n = s.len();
    let d = s[i];
    let mut e: usize = i + 1;
    let mut text: Vec<char> = Vec::new();
    assert(s@.subrange(i + 1, i + 1) =~= Seq::<char>::empty());
    while e < s.len() && s[e] != d
        invariant
            i + 1 <= e <= s@.len(),
            d == s@[i as int],
            text@ == s@.subrange(i + 1, e as int),
            quote_end(s@, i + 1, d) == quote_end(s@, e as int, d),
        decreases s@.len() - e,
    {
        text.push(s[e]);
        e = e + 1;
        assert(text@ =~= s@.subrange(i + 1, e as int));
    }
    if e >= s.len() {
        Err(ScriptError::Lexical(i))
    } else {
        Ok((Some(TokenType::StringLiteral(text)), e + 1))
    }
}

fn scan_word_exec(s: &Vec<char>, i: usize) -> (r: Result<(Option<TokenType>, usize), ScriptError>)
    requires
        i < s@.len(),
        is_alpha(s@[i as int]),
    ensures
        scan_view(r) == scan_word(s@, i as int),
        r matches Ok((_, j)) ==> i < j <= s@.len(),
{
    let mut e: usize = i;
    let mut w: Vec<char> = Vec::new();
    assert(s@.subrange(i as int, i as int) =~= Seq::<char>::empty());
    while e < s.len() && (digit(s[e]) || alpha(s[e]))
        invariant
            i <= e <= s@.len(),
            w@ == s@.subrange(i as int, e as int),
            word_end(s@, i as int) == word_end(s@, e as int),
        decreases s@.len() - e,
    {
        w.push(s[e]);
        e = e + 1;
        assert(w@ =~= s@.subrange(i as int, e as int));
    }
    match TokenType::check_reserved_keywords(&w) {
        Some(k) => Ok((Some(k), e)),
        None => Ok((Some(TokenType::Identifier(w)), e)),
    }
}

/// One step of the lexer: the token at position `i` and the position after it.
fn scan_token(s: &Vec<char>, i: usize) -> (r: Result<(Option<TokenType>, usize), ScriptError>)
    requires
        i < s@.len(),
    ensures
        scan_view(r) == scan(s@, i as int),
        r matches Ok((_, j)) ==> i < j <= s@.len(),
{
    let n = s.len();
    let c = s[i];
    if c == '(' {
        Ok((Some(TokenType::OpenBracket), i + 1))
    } else if c == ')' {
        Ok((Some(TokenType::CloseBracket), i + 1))
    } else if c == '{' {
        Ok((Some(TokenType::OpenCurlyBracket), i + 1))
    } else if c == '}' {
        Ok((Some(TokenType::CloseCurlyBracket), i + 1))
    } else if c == '%' {
        Ok((Some(TokenType::Operator(Op::Percent)), i + 1))
    } else if c == '+' {
        scan_op_exec(s, i, '=', Op::PlusAssign, Op::Plus)
    } else if c == '-' {
        if i + 1 < s.len() && s[i + 1] == '=' {
            Ok((Some(TokenType::Operator(Op::MinusAssign)), i + 2))
        } else if i + 1 < s.len() && digit(s[i + 1]) && (i == 0 || !digit(s[i - 1])) {
            scan_numeral_exec(s, i + 1, true, i)
        } else {
            Ok((Some(TokenType::Operator(Op::Minus)), i + 1))
        }
    } else if c == '*' {
        scan_op_exec(s, i, '=', Op::StarAssign, Op::Star)
    } else if c == '/' {
        scan_op_exec(s, i, '=', Op::SlashAssign, Op::Slash)
    } else if c == '=' {
        scan_op_exec(s, i, '=', Op::EqEq, Op::Assign)
    } else if c == '!' {
        scan_op_exec(s, i, '=', Op::NotEq, Op::Bang)
    } else if c == '>' {
        scan_op_exec(s, i, '=', Op::Ge, Op::Gt)
    } else if c == '<' {
        scan_op_exec(s, i, '=', Op::Le, Op::Lt)
    } else if c == '&' {
        scan_op_exec(s, i, '&', Op::AndAnd, Op::Amp)
    } else if c == '|' {
        scan_op_exec(s, i, '|', Op::OrOr, Op::Pipe)
    } else if c == ';' || c == '\n' {
        Ok((Some(TokenType::EOL), i + 1))
    } else if c == '"' || c == '\'' {
        scan_quoted_exec(s, i)
    } else if alpha(c) {
        scan_word_exec(s, i)
    } else if digit(c) {
        let r = scan_numeral_exec(s, i, false, i);
        assert(numeral_end(s@, i as int) == numeral_end(s@, i + 1));
        r
    } else if c == '.' {
        Ok((Some(TokenType::Punctuation('.')), i + 1))
    } else if c == ' ' || c == '\t' || c == '\r' {
        Ok((None, i + 1))
    } else {
        Err(ScriptError::Lexical(i))
    }
}

/// A token sequence with a read position.
#[derive(Debug)]
pub struct TokenStream {
    pub tokens: Vec<Token>,
    pub current_pos: usize,
}

impl TokenStream {
    pub open spec fn lexemes(&self) -> Seq<Lexeme> {
        lexemes(self.tokens@)
    }

    /// The sequence ends with `EOF` and the position lies within it.
    pub open spec fn wf(&self) -> bool {
        &&& self.tokens@.len() > 0
        &&& self.lexemes().last() == Lexeme::EOF
        &&& self.current_pos < self.tokens@.len()
    }

    pub fn push(&mut self, token: Token)
        ensures
            final(self).tokens@ == old(self).tokens@.push(token),
            final(self).current_pos == old(self).current_pos,
    {
        self.tokens.push(token);
    }

    pub fn pop(&mut self)
        requires
            old(self).current_pos < old(self).tokens@.len(),
        ensures
            final(self).tokens@ == old(self).tokens@,
            final(self).current_pos == old(self).current_pos + 1,
    {
        let n = self.tokens.len();
        self.current_pos = self.current_pos + 1;
    }

    /// A copy of the token at the read position.
    pub fn at(&self) -> (r: Token)
        requires
            self.current_pos < self.tokens@.len(),
        ensures
            r@ == self.lexemes()[self.current_pos as int],
    {
        self.tokens[self.current_pos].duplicate()
    }

    /// The token at the read position.
    pub fn current(&self) -> (r: &Token)
        requires
            self.current_pos < self.tokens@.len(),
        ensures
            r@ == self.lexemes()[self.current_pos as int],
    {
        &self.tokens[self.current_pos]
    }
}

/// Splits a source text into tokens, ending with `EOF`.
pub fn tokenise(source: String) -> (r: Result<TokenStream, ScriptError>)
    ensures
        match r {
            Ok(ts) => lex(source@) == Ok::<Seq<Lexeme>, ScriptError>(ts.lexemes()) && ts.current_pos == 0 && ts.wf(),
            Err(e) => lex(source@) == Err::<Seq<Lexeme>, ScriptError>(e),
        },
{
    let mut chars: Vec<char> = Vec::new();
    for c in it: source.as_str().chars()
        invariant
            chars@ == it.seq().take(it.index() as int),
    {
        chars.push(c);
    }
    assert(chars@ =~= source@);
    let mut ds = DataStream { characters: chars, current_pos: 0 };
    let n = ds.characters.len();
    let mut tokens: Vec<Token> = Vec::new();
    assert(lexemes(tokens@) =~= Seq::<Lexeme>::empty());
    assert(prefixed(Seq::empty(), lex_from(source@, 0)) == lex_from(source@, 0)) by {
        match lex_from(source@, 0) {
            Ok(rest) => assert(Seq::<Lexeme>::empty() + rest =~= rest),
            Err(_) => {},
        }
    }
    while ds.current_pos < n
        invariant
            n == ds.characters@.len(),
            ds.characters@ == source@,
            ds.current_pos <= n,
            lex(source@) == prefixed(lexemes(tokens@), lex_from(source@, ds.current_pos as int)),
        decreases n - ds.current_pos,
    {
        let i = ds.current_pos;
        let step = scan_token(&ds.characters, i);
        match step {
            Err(e) => {
                return Err(e);
            },
            Ok((t, j)) => {
                let ghost before = lexemes(tokens@);
                let ghost front = match opt_view(t) {
                    Some(x) => seq![x],
                    None => Seq::<Lexeme>::empty(),
                };
                match t {
                    Some(x) => {
                        tokens.push(Token { token_type: x });
                    },
                    None => {},
                }
                assert(lexemes(tokens@) =~= before + front);
                assert(lex(source@) == prefixed(lexemes(tokens@), lex_from(source@, j as int))) by {
                    match lex_from(source@, j as int) {
                        Ok(rest) => assert(before + (front + rest) =~= (before + front) + rest),
                        Err(_) => {},
                    }
                }
                ds.current_pos = j;
            },
        }
    }
    let ghost before = lexemes(tokens@);
    tokens.push(Token { token_type: TokenType::EOF });
    assert(lexemes(tokens@) =~= before + seq![Lexeme::EOF]);
    Ok(TokenStream { tokens, current_pos: 0 })
}

/// Each two-character operator is read as a single operator token carrying
/// that operator, never as two one-character tokens.
pub proof fn law_compound_operator_single_token(op: Op)
    requires
        op.is_compound(),
    ensures
        op.spec_text().len() == 2,
        lex(op.spec_text()) == Ok::<Seq<Lexeme>, ScriptError>(seq![Lexeme::Operator(op), Lexeme::EOF]),
{
    let s = op.spec_text();
    assert(lex_from(s, 2) == Ok::<Seq<Lexeme>, ScriptError>(seq![Lexeme::EOF]));
    assert(scan(s, 0) == Ok::<(Option<Lexeme>, int), ScriptError>((Some(Lexeme::Operator(op)), 2)));
    assert(seq![Lexeme::Operator(op)] + seq![Lexeme::EOF] =~= seq![Lexeme::Operator(op), Lexeme::EOF]);
}

pub open spec fn digit_char(d: nat) -> char {
    if d == 0 {
        '0'
    } else if d == 1 {
        '1'
    } else if d == 2 {
        '2'
    } else if d == 3 {
        '3'
    } else if d == 4 {
        '4'
    } else if d == 5 {
        '5'
    } else if d == 6 {
        '6'
    } else if d == 7 {
        '7'
    } else if d == 8 {
        '8'
    } else {
        '9'
    }
}

/// The decimal digits of a natural number, without leading zeros.
pub open spec fn decimal(n: nat) -> Seq<char>
    decreases n,
{
    if n < 10 {
        seq![digit_char(n)]
    } else {
        decimal(n / 10).push(digit_char(n % 10))
    }
}

/// The source text of an integer literal: a minus sign before the digits
/// of a negative value.
pub open spec fn literal(x: int) -> Seq<char> {
    if x < 0 {
        seq!['-'] + decimal((-x) as nat)
    } else {
        decimal(x as nat)
    }
}

proof fn lemma_digit_char(d: nat)
    requires
        d < 10,
    ensures
        digit_char(d) as int - '0' as int == d,
        is_digit(digit_char(d)),
{
}

pub proof fn lemma_decimal(n: nat)
    ensures
        decimal(n).len() >= 1,
        forall|k: int| 0 <= k < decimal(n).len() ==> is_digit(#[trigger] decimal(n)[k]),
        digits_value(decimal(n)) == n,
        count_points(decimal(n)) == 0,
    decreases n,
{
    if n < 10 {
        let d = decimal(n);
        lemma_digit_char(n);
        assert(d.drop_last() =~= Seq::<char>::empty());
        assert(digits_value(d.drop_last()) == 0);
        assert(count_points(d.drop_last()) == 0);
    } else {
        lemma_decimal(n / 10);
        lemma_digit_char(n % 10);
        let d = decimal(n);
        assert(d.drop_last() =~= decimal(n / 10));
        assert(n == (n / 10) * 10 + n % 10) by (nonlinear_arith);
        assert forall|k: int| 0 <= k < d.len() implies is_digit(#[trigger] d[k]) by {
            if k < d.len() - 1 {
                assert(d[k] == decimal(n / 10)[k]);
            }
        }
    }
}

proof fn lemma_numeral_end(s: Seq<char>, i: int, j: int)
    requires
        0 <= i <= j <= s.len(),
        forall|k: int| i <= k < j ==> is_digit(#[trigger] s[k]),
        j == s.len() || !is_numeral_char(s[j]),
    ensures
        numeral_end(s, i) == j,
    decreases j - i,
{
    if i < j {
        lemma_numeral_end(s, i + 1, j);
    }
}

/// An integer literal written at `i`, followed by a blank or the end and
/// preceded by a blank or the start, is read as one integer token.
pub proof fn lemma_scan_literal(s: Seq<char>, i: int, x: int)
    requires
        0 <= i,
        i + literal(x).len() <= s.len(),
        s.subrange(i, i + literal(x).len()) == literal(x),
        i + literal(x).len() == s.len() || s[i + literal(x).len()] == ' ',
        i == 0 || s[i - 1] == ' ',
        i64::MIN < x <= i64::MAX,
    ensures
        scan(s, i) == Ok::<(Option<Lexeme>, int), ScriptError>(
            (Some(Lexeme::Integer(x as i64)), i + literal(x).len()),
        ),
{
    let m: nat = if x < 0 {
        (-x) as nat
    } else {
        x as nat
    };
    let d = decimal(m);
    lemma_decimal(m);
    let e = i + literal(x).len();
    if x < 0 {
        assert(s[i] == literal(x)[0]);
        assert(s[i + 1] == literal(x)[1]);
        assert(literal(x)[1] == d[0]);
        assert forall|k: int| i + 1 <= k < e implies is_digit(#[trigger] s[k]) by {
            assert(s[k] == literal(x)[k - i]);
            assert(literal(x)[k - i] == d[k - i - 1]);
        }
        lemma_numeral_end(s, i + 1, e);
        assert forall|k: int| 0 <= k < d.len() implies #[trigger] s.subrange(i + 1, e)[k] == d[k] by {
            assert(s[i + 1 + k] == literal(x)[k + 1]);
        }
        assert(s.subrange(i + 1, e) =~= d);
    } else {
        assert forall|k: int| i <= k < e implies is_digit(#[trigger] s[k]) by {
            assert(s[k] == literal(x)[k - i]);
        }
        lemma_numeral_end(s, i, e);
        assert(s.subrange(i, e) =~= d);
        assert(is_digit(s[i]));
    }
}

} // verus!
