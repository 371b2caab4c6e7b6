//! Recursive-descent parser.
//!
//! `parse` consumes a token vector and yields either the statement list or
//! the list of syntax errors found. After an error the parser synchronises:
//! it skips tokens until it has consumed a `;` or stands before a
//! statement-starting keyword, then goes on, so one bad statement does not
//! hide the rest.

use vstd::prelude::*;
use crate::num::Num;
use crate::scanner::{LitS, Literal, Token, TokenS, TokenType, token_view, toks_view};

verus! {

/// An expression node.
#[derive(Debug, PartialEq)]
pub enum Expr {
    Binary(Box<Expr>, Box<Expr>, BinaryOperator),
    Unary(Box<Expr>, UnaryOperator),
    Literal(LiteralValue),
    Variable(Token),
    Assignment(Vec<u8>, Box<Expr>),
    Call(Box<Expr>, Vec<Expr>),
}

/// A statement node.
#[derive(Debug, PartialEq)]
pub enum Statement {
    Expression(Expr),
    Print(Expr),
    Declaration(Token, Option<Expr>),
    Block(Vec<Statement>),
    If { condition: Expr, then_branch: Box<Statement>, else_branch: Option<Box<Statement>> },
    Function { name: Token, params: Vec<Token>, block: Vec<Statement> },
    Return(Token, Option<Expr>),
}

/// A binary operator.
#[derive(Debug, Clone, Copy, Eq, PartialEq, Structural)]
pub enum BinaryOperator {
    Minus,
    Plus,
    Slash,
    Star,
    BangEqual,
    EqualEqual,
    Greater,
    GreaterEqual,
    Less,
    LessEqual,
    And,
    Or,
}

/// A unary operator.
#[derive(Debug, Clone, Copy, Eq, PartialEq, Structural)]
pub enum UnaryOperator {
    Bang,
    Minus,
}

/// A literal expression's value.
#[derive(Debug, Clone, PartialEq)]
pub enum LiteralValue {
    Number(Num),
    String(Vec<u8>),
    Boolean(bool),
    Nil,
}

/// What a syntax error reports.
#[derive(Debug, Clone, Copy, Eq, PartialEq, Structural)]
pub enum ErrorType {
    InvalidBinaryOperator,
    InvalidUnaryOperator,
    UnexpectedCharacter,
    InvalidAssignmentTarget,
}

/// A syntax error and the token it points at.
#[derive(Debug, Clone, PartialEq)]
pub struct ParseError {
    pub error_type: ErrorType,
    pub token: Token,
}

/// Mathematical image of an expression.
#[verifier::ext_equal]
pub enum ExprS {
    Binary(Box<ExprS>, Box<ExprS>, BinaryOperator),
    Unary(Box<ExprS>, UnaryOperator),
    Literal(LitVS),
    Variable(TokenS),
    Assignment(Seq<u8>, Box<ExprS>),
    Call(Box<ExprS>, Seq<ExprS>),
}

/// Mathematical image of a literal value.
#[verifier::ext_equal]
pub enum LitVS {
    Number((int, int)),
    Str(Seq<u8>),
    Boolean(bool),
    Nil,
}

/// Mathematical image of a statement.
#[verifier::ext_equal]
pub enum StmtS {
    Expression(ExprS),
    Print(ExprS),
    Declaration(TokenS, Option<ExprS>),
    Block(Seq<StmtS>),
    If { condition: ExprS, then_branch: Box<StmtS>, else_branch: Option<Box<StmtS>> },
    Function { name: TokenS, params: Seq<TokenS>, block: Seq<StmtS> },
    Return(TokenS, Option<ExprS>),
}

/// Mathematical image of a syntax error.
#[verifier::ext_equal]
pub struct ParseErrorS {
    pub error_type: ErrorType,
    pub token: TokenS,
}

/// The image of a literal value.
pub open spec fn litval_view(l: LiteralValue) -> LitVS {
    match l {
        LiteralValue::Number(x) => LitVS::Number(x.frac()),
        LiteralValue::String(s) => LitVS::Str(s@),
        LiteralValue::Boolean(b) => LitVS::Boolean(b),
        LiteralValue::Nil => LitVS::Nil,
    }
}

/// The image of an expression.
pub open spec fn expr_view(e: Expr) -> ExprS
    decreases e,
{
    match e {
        Expr::Binary(l, r, op) => ExprS::Binary(
            Box::new(expr_view(*l)),
            Box::new(expr_view(*r)),
            op,
        ),
        Expr::Unary(x, op) => ExprS::Unary(Box::new(expr_view(*x)), op),
        Expr::Literal(l) => ExprS::Literal(litval_view(l)),
        Expr::Variable(t) => ExprS::Variable(token_view(t)),
        Expr::Assignment(name, v) => ExprS::Assignment(name@, Box::new(expr_view(*v))),
        Expr::Call(f, args) => ExprS::Call(Box::new(expr_view(*f)), exprs_view(args@)),
    }
}

/// The image of an expression sequence.
pub open spec fn exprs_view(s: Seq<Expr>) -> Seq<ExprS>
    decreases s,
{
    if s.len() == 0 {
        Seq::empty()
    } else {
        seq![expr_view(s[0])] + exprs_view(s.subrange(1, s.len() as int))
    }
}

/// The image of a statement.
pub open spec fn stmt_view(s: Statement) -> StmtS
    decreases s,
{
    match s {
        Statement::Expression(e) => StmtS::Expression(expr_view(e)),
        Statement::Print(e) => StmtS::Print(expr_view(e)),
        Statement::Declaration(t, e) => StmtS::Declaration(
            token_view(t),
            match e {
                Option::Some(x) => Option::Some(expr_view(x)),
                Option::None => Option::None,
            },
        ),
        Statement::Block(sts) => StmtS::Block(stmts_view(sts@)),
        Statement::If { condition, then_branch, else_branch } => StmtS::If {
            condition: expr_view(condition),
            then_branch: Box::new(stmt_view(*then_branch)),
            else_branch: match else_branch {
                Option::Some(b) => Option::Some(Box::new(stmt_view(*b))),
                Option::None => Option::None,
            },
        },
        Statement::Function { name, params, block } => StmtS::Function {
            name: token_view(name),
            params: toks_view(params@),
            block: stmts_view(block@),
        },
        Statement::Return(t, e) => StmtS::Return(
            token_view(t),
            match e {
                Option::Some(x) => Option::Some(expr_view(x)),
                Option::None => Option::None,
            },
        ),
    }
}

/// The image of a statement sequence.
pub open spec fn stmts_view(s: Seq<Statement>) -> Seq<StmtS>
    decreases s,
{
    if s.len() == 0 {
        Seq::empty()
    } else {
        seq![stmt_view(s[0])] + stmts_view(s.subrange(1, s.len() as int))
    }
}

/// The image of a syntax error.
pub open spec fn perr_view(e: ParseError) -> ParseErrorS {
    ParseErrorS { error_type: e.error_type, token: token_view(e.token) }
}

/// The image of a syntax error vector.
pub open spec fn perrs_view(s: Seq<ParseError>) -> Seq<ParseErrorS> {
    Seq::new(s.len(), |i: int| perr_view(s[i]))
}

/// Statement-sequence views distribute over `push`.
pub proof fn lemma_stmts_view_push(s: Seq<Statement>, x: Statement)
    ensures
        stmts_view(s.push(x)) == stmts_view(s).push(stmt_view(x)),
    decreases s,
{
    if s.len() == 0 {
        assert(s.push(x).subrange(1, s.push(x).len() as int) =~= Seq::<Statement>::empty());
        assert(s.push(x)[0] == x);
        assert(stmts_view(Seq::<Statement>::empty()) == Seq::<StmtS>::empty());
        assert(stmts_view(s.push(x)) =~= stmts_view(s).push(stmt_view(x)));
    } else {
        let sub = s.subrange(1, s.len() as int);
        assert(s.push(x).subrange(1, s.push(x).len() as int) =~= sub.push(x));
        assert(s.push(x)[0] == s[0]);
        lemma_stmts_view_push(sub, x);
        assert(stmts_view(s.push(x)) == seq![stmt_view(s[0])] + stmts_view(sub).push(
            stmt_view(x),
        ));
        assert(seq![stmt_view(s[0])] + stmts_view(sub).push(stmt_view(x)) =~= (seq![
            stmt_view(s[0]),
        ] + stmts_view(sub)).push(stmt_view(x)));
        assert(stmts_view(s.push(x)) =~= stmts_view(s).push(stmt_view(x)));
    }
}

/// Expression-sequence views distribute over `push`.
pub proof fn lemma_exprs_view_push(s: Seq<Expr>, x: Expr)
    ensures
        exprs_view(s.push(x)) == exprs_view(s).push(expr_view(x)),
    decreases s,
{
    if s.len() == 0 {
        assert(s.push(x).subrange(1, s.push(x).len() as int) =~= Seq::<Expr>::empty());
        assert(s.push(x)[0] == x);
        assert(exprs_view(Seq::<Expr>::empty()) == Seq::<ExprS>::empty());
        assert(exprs_view(s.push(x)) =~= exprs_view(s).push(expr_view(x)));
    } else {
        let sub = s.subrange(1, s.len() as int);
        assert(s.push(x).subrange(1, s.push(x).len() as int) =~= sub.push(x));
        assert(s.push(x)[0] == s[0]);
        lemma_exprs_view_push(sub, x);
        assert(exprs_view(s.push(x)) == seq![expr_view(s[0])] + exprs_view(sub).push(
            expr_view(x),
        ));
        assert(seq![expr_view(s[0])] + exprs_view(sub).push(expr_view(x)) =~= (seq![
            expr_view(s[0]),
        ] + exprs_view(sub)).push(expr_view(x)));
        assert(exprs_view(s.push(x)) =~= exprs_view(s).push(expr_view(x)));
    }
}

/// The binary operator a token stands for, if any.
pub open spec fn s_binop_of(tt: TokenType) -> Option<BinaryOperator> {
    match tt {
        TokenType::Minus => Option::Some(BinaryOperator::Minus),
        TokenType::Plus => Option::Some(BinaryOperator::Plus),
        TokenType::Slash => Option::Some(BinaryOperator::Slash),
        TokenType::Star => Option::Some(BinaryOperator::Star),
        TokenType::BangEqual => Option::Some(BinaryOperator::BangEqual),
        TokenType::EqualEqual => Option::Some(BinaryOperator::EqualEqual),
        TokenType::Greater => Option::Some(BinaryOperator::Greater),
        TokenType::GreaterEqual => Option::Some(BinaryOperator::GreaterEqual),
        TokenType::Less => Option::Some(BinaryOperator::Less),
        TokenType::LessEqual => Option::Some(BinaryOperator::LessEqual),
        TokenType::And => Option::Some(BinaryOperator::And),
        TokenType::Or => Option::Some(BinaryOperator::Or),
        _ => Option::None,
    }
}

/// The unary operator a token stands for, if any.
pub open spec fn s_unop_of(tt: TokenType) -> Option<UnaryOperator> {
    match tt {
        TokenType::Minus => Option::Some(UnaryOperator::Minus),
        TokenType::Bang => Option::Some(UnaryOperator::Bang),
        _ => Option::None,
    }
}

/// Map a token to the binary operator it stands for, or report
/// `InvalidBinaryOperator` at that token.
pub fn parse_binary_operator(token: &Token) -> (r: Result<BinaryOperator, ParseError>)
    ensures
        match r {
            Ok(op) => s_binop_of(token.token_type) == Option::Some(op),
            Err(e) => s_binop_of(token.token_type) is None && perr_view(e) == (ParseErrorS {
                error_type: ErrorType::InvalidBinaryOperator,
                token: token_view(*token),
            }),
        },
{
    match token.token_type {
        TokenType::Minus => Ok(BinaryOperator::Minus),
        TokenType::Plus => Ok(BinaryOperator::Plus),
        TokenType::Slash => Ok(BinaryOperator::Slash),
        TokenType::Star => Ok(BinaryOperator::Star),
        TokenType::BangEqual => Ok(BinaryOperator::BangEqual),
        TokenType::EqualEqual => Ok(BinaryOperator::EqualEqual),
        TokenType::Greater => Ok(BinaryOperator::Greater),
        TokenType::GreaterEqual => Ok(BinaryOperator::GreaterEqual),
        TokenType::Less => Ok(BinaryOperator::Less),
        TokenType::LessEqual => Ok(BinaryOperator::LessEqual),
        TokenType::And => Ok(BinaryOperator::And),
        TokenType::Or => Ok(BinaryOperator::Or),
        _ => Err(
            ParseError { error_type: ErrorType::InvalidBinaryOperator, token: clone_token(token) },
        ),
    }
}

/// Map a token to the unary operator it stands for, or report
/// `InvalidUnaryOperator` at that token.
pub fn parse_unary_operator(token: &Token) -> (r: Result<UnaryOperator, ParseError>)
    ensures
        match r {
            Ok(op) => s_unop_of(token.token_type) == Option::Some(op),
            Err(e) => s_unop_of(token.token_type) is None && perr_view(e) == (ParseErrorS {
                error_type: ErrorType::InvalidUnaryOperator,
                token: token_view(*token),
            }),
        },
{
    match token.token_type {
        TokenType::Minus => Ok(UnaryOperator::Minus),
        TokenType::Bang => Ok(UnaryOperator::Bang),
        _ => Err(
            ParseError { error_type: ErrorType::InvalidUnaryOperator, token: clone_token(token) },
        ),
    }
}

/// Result of parsing an expression: the node or the error, and where the
/// cursor stands afterwards.
#[verifier::ext_equal]
pub struct PExpr {
    pub res: Result<ExprS, ParseErrorS>,
    pub pos: int,
}

/// Result of parsing one statement.
#[verifier::ext_equal]
pub struct PStmt {
    pub res: Result<StmtS, ParseErrorS>,
    pub pos: int,
}

/// Result of consuming one expected token.
#[verifier::ext_equal]
pub struct PTok {
    pub res: Result<TokenS, ParseErrorS>,
    pub pos: int,
}

/// Result of parsing a statement list (a block or function body).
#[verifier::ext_equal]
pub struct PStmts {
    pub res: Result<Seq<StmtS>, ParseErrorS>,
    pub pos: int,
}

/// Result of parsing a parameter list.
#[verifier::ext_equal]
pub struct PToks {
    pub res: Result<Seq<TokenS>, ParseErrorS>,
    pub pos: int,
}

/// Result of parsing a whole program: statements, errors, final cursor.
#[verifier::ext_equal]
pub struct PProg {
    pub stmts: Seq<StmtS>,
    pub errs: Seq<ParseErrorS>,
    pub pos: int,
}

/// The cursor stands at the `EOF` sentinel or past the end.
pub open spec fn s_at_end(t: Seq<TokenS>, pos: int) -> bool {
    pos >= t.len() || t[pos].token_type == TokenType::EOF
}

/// The next token exists and has the given tag.
pub open spec fn s_check(t: Seq<TokenS>, pos: int, tt: TokenType) -> bool {
    !s_at_end(t, pos) && t[pos].token_type == tt
}

/// The fabricated token reported when input runs out.
pub open spec fn eof_dummy() -> TokenS {
    TokenS {
        token_type: TokenType::EOF,
        lexeme: Seq::empty(),
        line: 0,
        literal: Option::None,
        column: 0,
    }
}

/// A keyword that can start a statement: synchronisation stops before one.
pub open spec fn is_sync_kw(tt: TokenType) -> bool {
    match tt {
        TokenType::Class => true,
        TokenType::Fun => true,
        TokenType::Var => true,
        TokenType::For => true,
        TokenType::If => true,
        TokenType::While => true,
        TokenType::Print => true,
        TokenType::Return => true,
        _ => false,
    }
}

/// Skip ahead after an error: stop once a `;` has been consumed, before a
/// statement-starting keyword, or at the end.
pub open spec fn s_sync_loop(t: Seq<TokenS>, p: int) -> int
    decreases t.len() - p when 1 <= p <= t.len()
{
    if s_at_end(t, p) {
        p
    } else if t[p - 1].token_type == TokenType::Semicolon {
        p
    } else if is_sync_kw(t[p].token_type) {
        p
    } else {
        s_sync_loop(t, p + 1)
    }
}

/// Synchronisation from an error at `pos`: consume that token, then skip.
pub open spec fn s_synchronize(t: Seq<TokenS>, pos: int) -> int
    recommends
        0 <= pos < t.len(),
{
    s_sync_loop(t, pos + 1)
}

/// Consume a token of the given tag, or report `UnexpectedCharacter` at the
/// offending token and synchronise.
pub open spec fn s_consume(t: Seq<TokenS>, pos: int, tt: TokenType) -> PTok
    recommends
        0 <= pos <= t.len(),
{
    if pos < t.len() {
        if t[pos].token_type == tt {
            PTok { res: Ok(t[pos]), pos: pos + 1 }
        } else {
            PTok {
                res: Err(ParseErrorS { error_type: ErrorType::UnexpectedCharacter, token: t[pos] }),
                pos: s_synchronize(t, pos),
            }
        }
    } else {
        PTok {
            res: Err(ParseErrorS { error_type: ErrorType::UnexpectedCharacter, token: eof_dummy() }),
            pos,
        }
    }
}

/// Clamp a successor position: never behind `pos`, never past the end.
pub open spec fn bump(t: Seq<TokenS>, pos: int, p: int) -> int {
    let q = if p <= pos {
        pos + 1
    } else {
        p
    };
    if q > t.len() {
        t.len() as int
    } else {
        q
    }
}

/// The operator tokens of one binary-precedence level: `0` binds tightest
/// (`* /`), then `+ -`, comparisons, and equality at `3`.
pub open spec fn level_op(lvl: int, tt: TokenType) -> bool {
    if lvl == 0 {
        tt == TokenType::Slash || tt == TokenType::Star
    } else if lvl == 1 {
        tt == TokenType::Minus || tt == TokenType::Plus
    } else if lvl == 2 {
        tt == TokenType::Greater || tt == TokenType::GreaterEqual || tt == TokenType::Less || tt
            == TokenType::LessEqual
    } else {
        tt == TokenType::BangEqual || tt == TokenType::EqualEqual
    }
}

/// `primary → literal | IDENT | "(" expression ")"`.
pub open spec fn s_primary(t: Seq<TokenS>, pos: int) -> PExpr
    decreases t.len() - pos, 0int when 0 <= pos <= t.len()
{
    if s_check(t, pos, TokenType::False) {
        PExpr { res: Ok(ExprS::Literal(LitVS::Boolean(false))), pos: pos + 1 }
    } else if s_check(t, pos, TokenType::True) {
        PExpr { res: Ok(ExprS::Literal(LitVS::Boolean(true))), pos: pos + 1 }
    } else if s_check(t, pos, TokenType::Nil) {
        PExpr { res: Ok(ExprS::Literal(LitVS::Nil)), pos: pos + 1 }
    } else if s_check(t, pos, TokenType::Identifier) {
        PExpr { res: Ok(ExprS::Variable(t[pos])), pos: pos + 1 }
    } else if s_check(t, pos, TokenType::Number) || s_check(t, pos, TokenType::String) {
        match t[pos].literal {
            Option::Some(LitS::Num(f)) => PExpr {
                res: Ok(ExprS::Literal(LitVS::Number(f))),
                pos: pos + 1,
            },
            Option::Some(LitS::Str(sv)) => PExpr {
                res: Ok(ExprS::Literal(LitVS::Str(sv))),
                pos: pos + 1,
            },
            Option::None => PExpr {
                res: Err(
                    ParseErrorS { error_type: ErrorType::UnexpectedCharacter, token: t[pos] },
                ),
                pos: s_synchronize(t, pos),
            },
        }
    } else if s_check(t, pos, TokenType::LeftParen) {
        let e = s_expression(t, pos + 1);
        match e.res {
            Err(er) => PExpr { res: Err(er), pos: e.pos },
            Ok(x) => {
                let c = s_consume(t, bump(t, pos, e.pos), TokenType::RightParen);
                match c.res {
                    Err(er) => PExpr { res: Err(er), pos: c.pos },
                    Ok(_) => PExpr { res: Ok(x), pos: c.pos },
                }
            },
        }
    } else if pos < t.len() {
        PExpr {
            res: Err(ParseErrorS { error_type: ErrorType::UnexpectedCharacter, token: t[pos] }),
            pos: s_synchronize(t, pos),
        }
    } else {
        PExpr {
            res: Err(ParseErrorS { error_type: ErrorType::UnexpectedCharacter, token: eof_dummy() }),
            pos,
        }
    }
}

/// `call → primary ( "(" arguments? ")" )*`: the chain after the callee.
pub open spec fn s_call_loop(t: Seq<TokenS>, pos: int, e: ExprS) -> PExpr
    decreases t.len() - pos, 1int when 0 <= pos <= t.len()
{
    if s_check(t, pos, TokenType::LeftParen) {
        let f = s_finish_call(t, pos + 1, e);
        match f.res {
            Err(er) => PExpr { res: Err(er), pos: f.pos },
            Ok(x) => s_call_loop(t, bump(t, pos, f.pos), x),
        }
    } else {
        PExpr { res: Ok(e), pos }
    }
}

/// `call → primary ( "(" arguments? ")" )*`.
pub open spec fn s_call(t: Seq<TokenS>, pos: int) -> PExpr
    decreases t.len() - pos, 2int when 0 <= pos <= t.len()
{
    let p = s_primary(t, pos);
    match p.res {
        Err(er) => PExpr { res: Err(er), pos: p.pos },
        Ok(e) => s_call_loop(t, bump(t, pos, p.pos), e),
    }
}

/// `unary → ( "!" | "-" ) unary | call`.
pub open spec fn s_unary(t: Seq<TokenS>, pos: int) -> PExpr
    decreases t.len() - pos, 3int when 0 <= pos <= t.len()
{
    if s_check(t, pos, TokenType::Bang) || s_check(t, pos, TokenType::Minus) {
        let u = s_unary(t, pos + 1);
        match u.res {
            Err(er) => PExpr { res: Err(er), pos: u.pos },
            Ok(e) => PExpr {
                res: Ok(ExprS::Unary(Box::new(e), s_unop_of(t[pos].token_type).unwrap())),
                pos: u.pos,
            },
        }
    } else {
        s_call(t, pos)
    }
}

/// The left-associative chain of one binary-precedence level.
pub open spec fn s_bin_loop(t: Seq<TokenS>, pos: int, lvl: int, e: ExprS) -> PExpr
    decreases t.len() - pos, 4int + 2 * lvl when 0 <= pos <= t.len() && 0 <= lvl <= 3
{
    if !s_at_end(t, pos) && level_op(lvl, t[pos].token_type) {
        let op = s_binop_of(t[pos].token_type).unwrap();
        let r = if lvl == 0 {
            s_unary(t, pos + 1)
        } else {
            s_bin(t, pos + 1, lvl - 1)
        };
        match r.res {
            Err(er) => PExpr { res: Err(er), pos: r.pos },
            Ok(rhs) => s_bin_loop(
                t,
                bump(t, pos, r.pos),
                lvl,
                ExprS::Binary(Box::new(e), Box::new(rhs), op),
            ),
        }
    } else {
        PExpr { res: Ok(e), pos }
    }
}

/// One binary-precedence level: `factor`, `term`, `comparison`, `equality`.
pub open spec fn s_bin(t: Seq<TokenS>, pos: int, lvl: int) -> PExpr
    decreases t.len() - pos, 5int + 2 * lvl when 0 <= pos <= t.len() && 0 <= lvl <= 3
{
    let first = if lvl == 0 {
        s_unary(t, pos)
    } else {
        s_bin(t, pos, lvl - 1)
    };
    match first.res {
        Err(er) => PExpr { res: Err(er), pos: first.pos },
        Ok(e) => s_bin_loop(t, bump(t, pos, first.pos), lvl, e),
    }
}

/// `assignment → equality ( "=" assignment )?`; the target must be a
/// variable, else `InvalidAssignmentTarget` at the `=` token.
pub open spec fn s_assignment(t: Seq<TokenS>, pos: int) -> PExpr
    decreases t.len() - pos, 12int when 0 <= pos <= t.len()
{
    let l = s_bin(t, pos, 3);
    match l.res {
        Err(er) => PExpr { res: Err(er), pos: l.pos },
        Ok(lhs) => {
            let p1 = bump(t, pos, l.pos);
            if s_check(t, p1, TokenType::Equal) {
                let equals = t[p1];
                let r = s_assignment(t, bump(t, p1, p1 + 1));
                match r.res {
                    Err(er) => PExpr { res: Err(er), pos: r.pos },
                    Ok(rhs) => match lhs {
                        ExprS::Variable(vt) => PExpr {
                            res: Ok(ExprS::Assignment(vt.lexeme, Box::new(rhs))),
                            pos: r.pos,
                        },
                        _ => PExpr {
                            res: Err(
                                ParseErrorS {
                                    error_type: ErrorType::InvalidAssignmentTarget,
                                    token: equals,
                                },
                            ),
                            pos: r.pos,
                        },
                    },
                }
            } else {
                PExpr { res: Ok(lhs), pos: p1 }
            }
        },
    }
}

/// `expression → assignment`.
pub open spec fn s_expression(t: Seq<TokenS>, pos: int) -> PExpr
    decreases t.len() - pos, 13int when 0 <= pos <= t.len()
{
    s_assignment(t, pos)
}

/// `arguments → expression ( "," expression )*`, closed by `)`.
pub open spec fn s_args_loop(t: Seq<TokenS>, pos: int, callee: ExprS, acc: Seq<ExprS>) -> PExpr
    decreases t.len() - pos, 14int when 0 <= pos <= t.len()
{
    let e = s_expression(t, pos);
    match e.res {
        Err(er) => PExpr { res: Err(er), pos: e.pos },
        Ok(a) => {
            let p1 = bump(t, pos, e.pos);
            if s_check(t, p1, TokenType::Comma) {
                s_args_loop(t, p1 + 1, callee, acc.push(a))
            } else {
                let c = s_consume(t, p1, TokenType::RightParen);
                match c.res {
                    Err(er) => PExpr { res: Err(er), pos: c.pos },
                    Ok(_) => PExpr {
                        res: Ok(ExprS::Call(Box::new(callee), acc.push(a))),
                        pos: c.pos,
                    },
                }
            }
        },
    }
}

/// What follows a callee's `(`: the argument list and the closing `)`.
pub open spec fn s_finish_call(t: Seq<TokenS>, pos: int, callee: ExprS) -> PExpr
    decreases t.len() - pos, 15int when 0 <= pos <= t.len()
{
    if s_check(t, pos, TokenType::RightParen) {
        PExpr { res: Ok(ExprS::Call(Box::new(callee), Seq::empty())), pos: pos + 1 }
    } else {
        s_args_loop(t, pos, callee, Seq::empty())
    }
}

/// `printStmt → "print" expression ";"` (after the keyword).
pub open spec fn s_print_statement(t: Seq<TokenS>, pos: int) -> PStmt
    decreases t.len() - pos, 16int when 0 <= pos <= t.len()
{
    let e = s_expression(t, pos);
    match e.res {
        Err(er) => PStmt { res: Err(er), pos: e.pos },
        Ok(x) => {
            let c = s_consume(t, bump(t, pos, e.pos), TokenType::Semicolon);
            match c.res {
                Err(er) => PStmt { res: Err(er), pos: c.pos },
                Ok(_) => PStmt { res: Ok(StmtS::Print(x)), pos: c.pos },
            }
        },
    }
}

/// `exprStmt → expression ";"`.
pub open spec fn s_expr_statement(t: Seq<TokenS>, pos: int) -> PStmt
    decreases t.len() - pos, 16int when 0 <= pos <= t.len()
{
    let e = s_expression(t, pos);
    match e.res {
        Err(er) => PStmt { res: Err(er), pos: e.pos },
        Ok(x) => {
            let c = s_consume(t, bump(t, pos, e.pos), TokenType::Semicolon);
            match c.res {
                Err(er) => PStmt { res: Err(er), pos: c.pos },
                Ok(_) => PStmt { res: Ok(StmtS::Expression(x)), pos: c.pos },
            }
        },
    }
}

/// `returnStmt → "return" expression? ";"` (after the keyword, which is
/// handed in for the node's position information).
pub open spec fn s_return_statement(t: Seq<TokenS>, pos: int, kw: TokenS) -> PStmt
    decreases t.len() - pos, 16int when 0 <= pos <= t.len()
{
    if !s_check(t, pos, TokenType::Semicolon) {
        let e = s_expression(t, pos);
        match e.res {
            Err(er) => PStmt { res: Err(er), pos: e.pos },
            Ok(x) => {
                let c = s_consume(t, bump(t, pos, e.pos), TokenType::Semicolon);
                match c.res {
                    Err(er) => PStmt { res: Err(er), pos: c.pos },
                    Ok(_) => PStmt { res: Ok(StmtS::Return(kw, Option::Some(x))), pos: c.pos },
                }
            },
        }
    } else {
        let c = s_consume(t, pos, TokenType::Semicolon);
        match c.res {
            Err(er) => PStmt { res: Err(er), pos: c.pos },
            Ok(_) => PStmt { res: Ok(StmtS::Return(kw, Option::None)), pos: c.pos },
        }
    }
}

/// `varDecl → "var" IDENT ( "=" expression )? ";"` (after the keyword).
pub open spec fn s_declaration_statement(t: Seq<TokenS>, pos: int) -> PStmt
    decreases t.len() - pos, 16int when 0 <= pos <= t.len()
{
    let c = s_consume(t, pos, TokenType::Identifier);
    match c.res {
        Err(er) => PStmt { res: Err(er), pos: c.pos },
        Ok(name) => {
            let p1 = bump(t, pos, c.pos);
            if s_check(t, p1, TokenType::Equal) {
                let e = s_expression(t, p1 + 1);
                match e.res {
                    Err(er) => PStmt { res: Err(er), pos: e.pos },
                    Ok(x) => {
                        let c2 = s_consume(t, bump(t, p1, e.pos), TokenType::Semicolon);
                        match c2.res {
                            Err(er) => PStmt { res: Err(er), pos: c2.pos },
                            Ok(_) => PStmt {
                                res: Ok(StmtS::Declaration(name, Option::Some(x))),
                                pos: c2.pos,
                            },
                        }
                    },
                }
            } else {
                let c2 = s_consume(t, p1, TokenType::Semicolon);
                match c2.res {
                    Err(er) => PStmt { res: Err(er), pos: c2.pos },
                    Ok(_) => PStmt { res: Ok(StmtS::Declaration(name, Option::None)), pos: c2.pos },
                }
            }
        },
    }
}

/// `ifStmt → "if" "(" expression ")" statement ( "else" statement )?`
/// (after the keyword).
pub open spec fn s_if_statement(t: Seq<TokenS>, pos: int) -> PStmt
    decreases t.len() - pos, 18int when 0 <= pos <= t.len()
{
    let c = s_consume(t, pos, TokenType::LeftParen);
    match c.res {
        Err(er) => PStmt { res: Err(er), pos: c.pos },
        Ok(_) => {
            let e = s_expression(t, bump(t, pos, c.pos));
            match e.res {
                Err(er) => PStmt { res: Err(er), pos: e.pos },
                Ok(cond) => {
                    let c2 = s_consume(t, bump(t, pos, e.pos), TokenType::RightParen);
                    match c2.res {
                        Err(er) => PStmt { res: Err(er), pos: c2.pos },
                        Ok(_) => {
                            let th = s_statement(t, bump(t, pos, c2.pos));
                            match th.res {
                                Err(er) => PStmt { res: Err(er), pos: th.pos },
                                Ok(then_branch) => {
                                    let p1 = bump(t, pos, th.pos);
                                    if s_check(t, p1, TokenType::Else) {
                                        let el = s_statement(t, p1 + 1);
                                        match el.res {
                                            Err(er) => PStmt { res: Err(er), pos: el.pos },
                                            Ok(else_branch) => PStmt {
                                                res: Ok(
                                                    StmtS::If {
                                                        condition: cond,
                                                        then_branch: Box::new(then_branch),
                                                        else_branch: Option::Some(
                                                            Box::new(else_branch),
                                                        ),
                                                    },
                                                ),
                                                pos: el.pos,
                                            },
                                        }
                                    } else {
                                        PStmt {
                                            res: Ok(
                                                StmtS::If {
                                                    condition: cond,
                                                    then_branch: Box::new(then_branch),
                                                    else_branch: Option::None,
                                                },
                                            ),
                                            pos: p1,
                                        }
                                    }
                                },
                            }
                        },
                    }
                },
            }
        },
    }
}

/// The declarations of a block or function body, up to the closing `}`.
pub open spec fn s_block_loop(t: Seq<TokenS>, pos: int, acc: Seq<StmtS>) -> PStmts
    decreases t.len() - pos, 19int when 0 <= pos <= t.len()
{
    if !s_check(t, pos, TokenType::RightBrace) && !s_at_end(t, pos) {
        let d = s_declaration(t, pos);
        match d.res {
            Err(er) => PStmts { res: Err(er), pos: d.pos },
            Ok(st) => s_block_loop(t, bump(t, pos, d.pos), acc.push(st)),
        }
    } else {
        let c = s_consume(t, pos, TokenType::RightBrace);
        match c.res {
            Err(er) => PStmts { res: Err(er), pos: c.pos },
            Ok(_) => PStmts { res: Ok(acc), pos: c.pos },
        }
    }
}

/// `block → "{" declaration* "}"` (after the `{`).
pub open spec fn s_block_statement(t: Seq<TokenS>, pos: int) -> PStmt
    decreases t.len() - pos, 20int when 0 <= pos <= t.len()
{
    let b = s_block_loop(t, pos, Seq::empty());
    match b.res {
        Err(er) => PStmt { res: Err(er), pos: b.pos },
        Ok(sts) => PStmt { res: Ok(StmtS::Block(sts)), pos: b.pos },
    }
}

/// `parameters → IDENT ( "," IDENT )*`.
pub open spec fn s_params_loop(t: Seq<TokenS>, pos: int, acc: Seq<TokenS>) -> PToks
    decreases t.len() - pos, 16int when 0 <= pos <= t.len()
{
    let c = s_consume(t, pos, TokenType::Identifier);
    match c.res {
        Err(er) => PToks { res: Err(er), pos: c.pos },
        Ok(p) => {
            let p1 = bump(t, pos, c.pos);
            if s_check(t, p1, TokenType::Comma) {
                s_params_loop(t, p1 + 1, acc.push(p))
            } else {
                PToks { res: Ok(acc.push(p)), pos: p1 }
            }
        },
    }
}

/// `funDecl → "fun" IDENT "(" parameters? ")" block` (after the keyword).
pub open spec fn s_function_declaration(t: Seq<TokenS>, pos: int) -> PStmt
    decreases t.len() - pos, 20int when 0 <= pos <= t.len()
{
    let c = s_consume(t, pos, TokenType::Identifier);
    match c.res {
        Err(er) => PStmt { res: Err(er), pos: c.pos },
        Ok(name) => {
            let c2 = s_consume(t, bump(t, pos, c.pos), TokenType::LeftParen);
            match c2.res {
                Err(er) => PStmt { res: Err(er), pos: c2.pos },
                Ok(_) => {
                    let p1 = bump(t, pos, c2.pos);
                    let ps = if !s_check(t, p1, TokenType::RightParen) {
                        s_params_loop(t, p1, Seq::empty())
                    } else {
                        PToks { res: Ok(Seq::empty()), pos: p1 }
                    };
                    match ps.res {
                        Err(er) => PStmt { res: Err(er), pos: ps.pos },
                        Ok(params) => {
                            let c3 = s_consume(t, bump(t, pos, ps.pos), TokenType::RightParen);
                            match c3.res {
                                Err(er) => PStmt { res: Err(er), pos: c3.pos },
                                Ok(_) => {
                                    let c4 = s_consume(
                                        t,
                                        bump(t, pos, c3.pos),
                                        TokenType::LeftBrace,
                                    );
                                    match c4.res {
                                        Err(er) => PStmt { res: Err(er), pos: c4.pos },
                                        Ok(_) => {
                                            let b = s_fun_body_loop(
                                                t,
                                                bump(t, pos, c4.pos),
                                                Seq::empty(),
                                            );
                                            match b.res {
                                                Err(er) => PStmt { res: Err(er), pos: b.pos },
                                                Ok(sts) => PStmt {
                                                    res: Ok(
                                                        StmtS::Function {
                                                            name,
                                                            params,
                                                            block: sts,
                                                        },
                                                    ),
                                                    pos: b.pos,
                                                },
                                            }
                                        },
                                    }
                                },
                            }
                        },
                    }
                },
            }
        },
    }
}

/// The statements of a function body, up to the closing `}`.
pub open spec fn s_fun_body_loop(t: Seq<TokenS>, pos: int, acc: Seq<StmtS>) -> PStmts
    decreases t.len() - pos, 19int when 0 <= pos <= t.len()
{
    if !s_check(t, pos, TokenType::RightBrace) && !s_at_end(t, pos) {
        let d = s_declaration(t, pos);
        match d.res {
            Err(er) => PStmts { res: Err(er), pos: d.pos },
            Ok(st) => s_fun_body_loop(t, bump(t, pos, d.pos), acc.push(st)),
        }
    } else {
        let c = s_consume(t, pos, TokenType::RightBrace);
        match c.res {
            Err(er) => PStmts { res: Err(er), pos: c.pos },
            Ok(_) => PStmts { res: Ok(acc), pos: c.pos },
        }
    }
}

/// `statement → ifStmt | printStmt | returnStmt | block | exprStmt`.
pub open spec fn s_statement(t: Seq<TokenS>, pos: int) -> PStmt
    decreases t.len() - pos, 17int when 0 <= pos <= t.len()
{
    if s_check(t, pos, TokenType::If) {
        s_if_statement(t, pos + 1)
    } else if s_check(t, pos, TokenType::Print) {
        s_print_statement(t, pos + 1)
    } else if s_check(t, pos, TokenType::Return) {
        s_return_statement(t, pos + 1, t[pos])
    } else if s_check(t, pos, TokenType::LeftBrace) {
        s_block_statement(t, pos + 1)
    } else {
        s_expr_statement(t, pos)
    }
}

/// `declaration → funDecl | varDecl | statement`.
pub open spec fn s_declaration(t: Seq<TokenS>, pos: int) -> PStmt
    decreases t.len() - pos, 18int when 0 <= pos <= t.len()
{
    if s_check(t, pos, TokenType::Fun) {
        s_function_declaration(t, pos + 1)
    } else if s_check(t, pos, TokenType::Var) {
        s_declaration_statement(t, pos + 1)
    } else {
        s_statement(t, pos)
    }
}

/// `program → declaration* EOF`: statements and errors, in source order.
pub open spec fn s_program_loop(t: Seq<TokenS>, pos: int) -> PProg
    decreases t.len() - pos, 21int when 0 <= pos <= t.len()
{
    if s_at_end(t, pos) {
        PProg { stmts: Seq::empty(), errs: Seq::empty(), pos }
    } else {
        let d = s_declaration(t, pos);
        let rest = s_program_loop(t, bump(t, pos, d.pos));
        match d.res {
            Ok(st) => PProg { stmts: seq![st] + rest.stmts, errs: rest.errs, pos: rest.pos },
            Err(er) => PProg { stmts: rest.stmts, errs: seq![er] + rest.errs, pos: rest.pos },
        }
    }
}

/// What parsing a token vector yields: the statements, or the accumulated
/// errors if there was at least one.
pub open spec fn s_parse(t: Seq<TokenS>) -> Result<Seq<StmtS>, Seq<ParseErrorS>> {
    let p = s_program_loop(t, 0);
    if p.errs.len() == 0 {
        Ok(p.stmts)
    } else {
        Err(p.errs)
    }
}

/// Copy of a byte vector.
pub fn copy_bytes(v: &Vec<u8>) -> (out: Vec<u8>)
    ensures
        out@ == v@,
{
    let mut out: Vec<u8> = Vec::new();
    let mut i: usize = 0;
    while i < v.len()
        invariant
            i <= v@.len(),
            out@ == v@.subrange(0, i as int),
        decreases v@.len() - i,
    {
        out.push(v[i]);
        i = i + 1;
        proof {
            assert(v@.subrange(0, i as int) =~= v@.subrange(0, i - 1) + seq![v@[i - 1]]);
        }
    }
    proof {
        assert(v@.subrange(0, v@.len() as int) =~= v@);
    }
    out
}

/// Copy of a token, image preserved.
pub fn clone_token(t: &Token) -> (r: Token)
    ensures
        token_view(r) == token_view(*t),
{
    let literal = match &t.literal {
        Option::None => Option::None,
        Option::Some(Literal::String(s)) => Option::Some(Literal::String(copy_bytes(s))),
        Option::Some(Literal::Number(x)) => Option::Some(Literal::Number(*x)),
    };
    Token {
        token_type: t.token_type,
        lexeme: copy_bytes(&t.lexeme),
        line: t.line,
        literal,
        column: t.column,
    }
}

/// Copy of a literal value, image preserved.
pub fn clone_literal_value(l: &LiteralValue) -> (r: LiteralValue)
    ensures
        litval_view(r) == litval_view(*l),
{
    match l {
        LiteralValue::Number(x) => LiteralValue::Number(*x),
        LiteralValue::String(s) => LiteralValue::String(copy_bytes(s)),
        LiteralValue::Boolean(b) => LiteralValue::Boolean(*b),
        LiteralValue::Nil => LiteralValue::Nil,
    }
}

/// Copy of an expression, image preserved.
pub fn clone_expr(e: &Expr) -> (r: Expr)
    ensures
        expr_view(r) == expr_view(*e),
    decreases *e,
{
    match e {
        Expr::Binary(l, rr, op) => Expr::Binary(
            Box::new(clone_expr(l)),
            Box::new(clone_expr(rr)),
            *op,
        ),
        Expr::Unary(x, op) => Expr::Unary(Box::new(clone_expr(x)), *op),
        Expr::Literal(l) => Expr::Literal(clone_literal_value(l)),
        Expr::Variable(t) => Expr::Variable(clone_token(t)),
        Expr::Assignment(name, v) => Expr::Assignment(copy_bytes(name), Box::new(clone_expr(v))),
        Expr::Call(f, args) => {
            let cf = Box::new(clone_expr(f));
            let mut cargs: Vec<Expr> = Vec::new();
            proof {
                assert(exprs_view(cargs@) =~= exprs_view(args@.subrange(0, 0)));
            }
            let mut i: usize = 0;
            while i < args.len()
                invariant
                    i <= args@.len(),
                    (*e) matches Expr::Call(_, _),
                    *args == (*e)->Call_1,
                    exprs_view(cargs@) == exprs_view(args@.subrange(0, i as int)),
                decreases args@.len() - i,
            {
                proof {
                    assert(decreases_to!(*e => (*e)->Call_1@[i as int]));
                }
                let a = clone_expr(&args[i]);
                let ghost pre = cargs@;
                cargs.push(a);
                i = i + 1;
                proof {
                    assert(cargs@ =~= pre.push(a));
                    lemma_exprs_view_push(pre, a);
                    assert(args@.subrange(0, i as int) =~= args@.subrange(0, i - 1).push(
                        args@[i - 1],
                    ));
                    lemma_exprs_view_push(args@.subrange(0, i - 1), args@[i - 1]);
                    assert(exprs_view(cargs@) =~= exprs_view(args@.subrange(0, i as int)));
                }
            }
            proof {
                assert(args@.subrange(0, args@.len() as int) =~= args@);
            }
            Expr::Call(cf, cargs)
        },
    }
}

/// Copy of a statement list, image preserved.
pub fn clone_statements(v: &Vec<Statement>) -> (r: Vec<Statement>)
    ensures
        stmts_view(r@) == stmts_view(v@),
    decreases *v,
{
    let mut out: Vec<Statement> = Vec::new();
    proof {
        assert(stmts_view(out@) =~= stmts_view(v@.subrange(0, 0)));
    }
    let mut i: usize = 0;
    while i < v.len()
        invariant
            i <= v@.len(),
            stmts_view(out@) == stmts_view(v@.subrange(0, i as int)),
        decreases v@.len() - i,
    {
        proof {
            assert(decreases_to!(*v => v@));
            assert(decreases_to!(v@ => v@[i as int]));
            assert(decreases_to!(*v => v@[i as int]));
        }
        let s = clone_statement(&v[i]);
        let ghost pre = out@;
        out.push(s);
        i = i + 1;
        proof {
            assert(out@ =~= pre.push(s));
            lemma_stmts_view_push(pre, s);
            assert(v@.subrange(0, i as int) =~= v@.subrange(0, i - 1).push(v@[i - 1]));
            lemma_stmts_view_push(v@.subrange(0, i - 1), v@[i - 1]);
            assert(stmts_view(out@) =~= stmts_view(v@.subrange(0, i as int)));
        }
    }
    proof {
        assert(v@.subrange(0, v@.len() as int) =~= v@);
    }
    out
}

/// Copy of a statement, image preserved.
pub fn clone_statement(s: &Statement) -> (r: Statement)
    ensures
        stmt_view(r) == stmt_view(*s),
    decreases *s,
{
    match s {
        Statement::Expression(e) => Statement::Expression(clone_expr(e)),
        Statement::Print(e) => Statement::Print(clone_expr(e)),
        Statement::Declaration(t, oe) => Statement::Declaration(
            clone_token(t),
            match oe {
                Option::Some(e) => Option::Some(clone_expr(e)),
                Option::None => Option::None,
            },
        ),
        Statement::Block(sts) => Statement::Block(clone_statements(sts)),
        Statement::If { condition, then_branch, else_branch } => Statement::If {
            condition: clone_expr(condition),
            then_branch: Box::new(clone_statement(then_branch)),
            else_branch: match else_branch {
                Option::Some(b) => Option::Some(Box::new(clone_statement(b))),
                Option::None => Option::None,
            },
        },
        Statement::Function { name, params, block } => {
            let mut ps: Vec<Token> = Vec::new();
            let mut i: usize = 0;
            while i < params.len()
                invariant
                    i <= params@.len(),
                    toks_view(ps@) == toks_view(params@.subrange(0, i as int)),
                decreases params@.len() - i,
            {
                let ghost pre = ps@;
                let ct = clone_token(&params[i]);
                ps.push(ct);
                i = i + 1;
                proof {
                    assert(ps@ =~= pre.push(ct));
                    assert(params@.subrange(0, i as int) =~= params@.subrange(0, i - 1).push(
                        params@[i - 1],
                    ));
                    assert(toks_view(pre.push(ct)) =~= toks_view(pre).push(token_view(ct)));
                    assert(toks_view(params@.subrange(0, i as int)) =~= toks_view(
                        params@.subrange(0, i - 1),
                    ).push(token_view(params@[i - 1])));
                    assert(toks_view(ps@) =~= toks_view(params@.subrange(0, i as int)));
                }
            }
            proof {
                assert(params@.subrange(0, params@.len() as int) =~= params@);
            }
            Statement::Function {
                name: clone_token(name),
                params: ps,
                block: clone_statements(block),
            }
        },
        Statement::Return(t, oe) => Statement::Return(
            clone_token(t),
            match oe {
                Option::Some(e) => Option::Some(clone_expr(e)),
                Option::None => Option::None,
            },
        ),
    }
}

/// The identifier a variable token names: its lexeme bytes.
pub fn lexeme_to_name(var_token: &Token) -> (r: Vec<u8>)
    ensures
        r@ == var_token.lexeme@,
{
    copy_bytes(&var_token.lexeme)
}

/// An expression result agrees with its mathematical image.
pub open spec fn eres_match(r: Result<Expr, ParseError>, s: Result<ExprS, ParseErrorS>) -> bool {
    match (r, s) {
        (Ok(e), Ok(es)) => expr_view(e) == es,
        (Err(e), Err(es)) => perr_view(e) == es,
        _ => false,
    }
}

/// A statement result agrees with its mathematical image.
pub open spec fn sres_match(r: Result<Statement, ParseError>, s: Result<StmtS, ParseErrorS>) -> bool {
    match (r, s) {
        (Ok(e), Ok(es)) => stmt_view(e) == es,
        (Err(e), Err(es)) => perr_view(e) == es,
        _ => false,
    }
}

/// A token result agrees with its mathematical image.
pub open spec fn tres_match(r: Result<Token, ParseError>, s: Result<TokenS, ParseErrorS>) -> bool {
    match (r, s) {
        (Ok(e), Ok(es)) => token_view(e) == es,
        (Err(e), Err(es)) => perr_view(e) == es,
        _ => false,
    }
}

/// The parser: the token vector and a cursor into it.
pub struct Parser {
    pub tokens: Vec<Token>,
    pub current: usize,
}

/// Whether a token tag is one of the statement-starting keywords.
fn is_sync_kw_exec(tt: TokenType) -> (r: bool)
    ensures
        r == is_sync_kw(tt),
{
    match tt {
        TokenType::Class => true,
        TokenType::Fun => true,
        TokenType::Var => true,
        TokenType::For => true,
        TokenType::If => true,
        TokenType::While => true,
        TokenType::Print => true,
        TokenType::Return => true,
        _ => false,
    }
}

impl Parser {
    /// The cursor never leaves the token vector.
    pub open spec fn wf(self) -> bool {
        self.current <= self.tokens@.len()
    }

    /// The image of the token vector.
    pub open spec fn tv(self) -> Seq<TokenS> {
        toks_view(self.tokens@)
    }

    pub fn new(tokens: Vec<Token>) -> (p: Self)
        ensures
            p.wf(),
            p.tokens == tokens,
            p.current == 0,
    {
        Parser { tokens, current: 0 }
    }

    fn is_at_end(&self) -> (r: bool)
        requires
            self.wf(),
        ensures
            r == s_at_end(self.tv(), self.current as int),
    {
        let n = self.tokens.len();
        if self.current >= n {
            true
        } else {
            let tt = self.tokens[self.current].token_type;
            tt == TokenType::EOF
        }
    }

    fn check(&self, tt: TokenType) -> (r: bool)
        requires
            self.wf(),
        ensures
            r == s_check(self.tv(), self.current as int, tt),
    {
        if self.is_at_end() {
            false
        } else {
            let t2 = self.tokens[self.current].token_type;
            t2 == tt
        }
    }

    fn advance(&mut self)
        requires
            old(self).wf(),
            old(self).current < old(self).tokens@.len(),
        ensures
            final(self).tokens == old(self).tokens,
            final(self).current == old(self).current + 1,
            final(self).wf(),
    {
        let n = self.tokens.len();
        self.current = self.current + 1;
    }

    /// Consume the next token when it has the given tag.
    fn match_one(&mut self, tt: TokenType) -> (r: bool)
        requires
            old(self).wf(),
        ensures
            final(self).tokens == old(self).tokens,
            final(self).wf(),
            r == s_check(old(self).tv(), old(self).current as int, tt),
            r ==> final(self).current == old(self).current + 1,
            !r ==> final(self).current == old(self).current,
    {
        if self.check(tt) {
            self.advance();
            true
        } else {
            false
        }
    }

    /// Skip tokens after an error, up to a statement boundary.
    fn synchronize(&mut self)
        requires
            old(self).wf(),
            old(self).current < old(self).tokens@.len(),
        ensures
            final(self).tokens == old(self).tokens,
            final(self).wf(),
            final(self).current as int == s_synchronize(old(self).tv(), old(self).current as int),
            old(self).current < final(self).current,
    {
        let ghost t = self.tv();
        let ghost p0 = self.current as int + 1;
        self.advance();
        while !(self.current >= self.tokens.len() || self.tokens[self.current].token_type
            == TokenType::EOF || self.tokens[self.current - 1].token_type == TokenType::Semicolon
            || is_sync_kw_exec(self.tokens[self.current].token_type))
            invariant
                self.wf(),
                self.tokens == old(self).tokens,
                t == self.tv(),
                1 <= self.current,
                p0 <= self.current as int,
                s_sync_loop(t, self.current as int) == s_sync_loop(t, p0),
            decreases self.tokens@.len() - self.current,
        {
            self.advance();
        }
        proof {
            assert(s_sync_loop(t, self.current as int) == self.current as int);
        }
    }

    /// Consume a token of the given tag, or report the mismatch and
    /// synchronise.
    fn consume(&mut self, tt: TokenType) -> (r: Result<Token, ParseError>)
        requires
            old(self).wf(),
        ensures
            final(self).tokens == old(self).tokens,
            final(self).wf(),
            old(self).current <= final(self).current,
            old(self).current < old(self).tokens@.len() ==> old(self).current < final(self).current,
            final(self).current as int == s_consume(
                old(self).tv(),
                old(self).current as int,
                tt,
            ).pos,
            tres_match(r, s_consume(old(self).tv(), old(self).current as int, tt).res),
    {
        let n = self.tokens.len();
        if self.current < n {
            let next_token = clone_token(&self.tokens[self.current]);
            let t2 = self.tokens[self.current].token_type;
            if t2 == tt {
                self.advance();
                Ok(next_token)
            } else {
                self.synchronize();
                Err(ParseError { error_type: ErrorType::UnexpectedCharacter, token: next_token })
            }
        } else {
            Err(
                ParseError {
                    error_type: ErrorType::UnexpectedCharacter,
                    token: Token {
                        token_type: TokenType::EOF,
                        lexeme: Vec::new(),
                        line: 0,
                        literal: Option::None,
                        column: 0,
                    },
                },
            )
        }
    }

    /// `primary → "false" | "true" | "nil" | NUMBER | STRING | IDENT
    /// | "(" expression ")"`.
    fn primary(&mut self) -> (r: Result<Expr, ParseError>)
        requires
            old(self).wf(),
        ensures
            final(self).tokens == old(self).tokens,
            final(self).wf(),
            old(self).current <= final(self).current,
            old(self).current < old(self).tokens@.len() ==> old(self).current < final(self).current,
            final(self).current as int == s_primary(old(self).tv(), old(self).current as int).pos,
            eres_match(r, s_primary(old(self).tv(), old(self).current as int).res),
        decreases old(self).tokens@.len() - old(self).current, 0int,
    {
        if self.match_one(TokenType::False) {
            return Ok(Expr::Literal(LiteralValue::Boolean(false)));
        }
        if self.match_one(TokenType::True) {
            return Ok(Expr::Literal(LiteralValue::Boolean(true)));
        }
        if self.match_one(TokenType::Nil) {
            return Ok(Expr::Literal(LiteralValue::Nil));
        }
        if self.check(TokenType::Identifier) {
            let tok = clone_token(&self.tokens[self.current]);
            self.advance();
            return Ok(Expr::Variable(tok));
        }
        if self.check(TokenType::Number) || self.check(TokenType::String) {
            let lit = match &self.tokens[self.current].literal {
                Option::Some(Literal::Number(x)) => Option::Some(LiteralValue::Number(*x)),
                Option::Some(Literal::String(sv)) => Option::Some(
                    LiteralValue::String(copy_bytes(sv)),
                ),
                Option::None => Option::None,
            };
            match lit {
                Option::Some(v) => {
                    self.advance();
                    return Ok(Expr::Literal(v));
                },
                Option::None => {
                    let tok = clone_token(&self.tokens[self.current]);
                    self.synchronize();
                    return Err(
                        ParseError { error_type: ErrorType::UnexpectedCharacter, token: tok },
                    );
                },
            }
        }
        if self.match_one(TokenType::LeftParen) {
            let e = self.expression();
            match e {
                Err(er) => {
                    return Err(er);
                },
                Ok(x) => {
                    match self.consume(TokenType::RightParen) {
                        Err(er) => {
                            return Err(er);
                        },
                        Ok(_) => {
                            return Ok(x);
                        },
                    }
                },
            }
        }
        if self.current < self.tokens.len() {
            let tok = clone_token(&self.tokens[self.current]);
            self.synchronize();
            Err(ParseError { error_type: ErrorType::UnexpectedCharacter, token: tok })
        } else {
            Err(
                ParseError {
                    error_type: ErrorType::UnexpectedCharacter,
                    token: Token {
                        token_type: TokenType::EOF,
                        lexeme: Vec::new(),
                        line: 0,
                        literal: Option::None,
                        column: 0,
                    },
                },
            )
        }
    }

    /// `call → primary ( "(" arguments? ")" )*`.
    #[verifier::rlimit(60)]
    fn call(&mut self) -> (r: Result<Expr, ParseError>)
        requires
            old(self).wf(),
        ensures
            final(self).tokens == old(self).tokens,
            final(self).wf(),
            old(self).current <= final(self).current,
            old(self).current < old(self).tokens@.len() ==> old(self).current < final(self).current,
            final(self).current as int == s_call(old(self).tv(), old(self).current as int).pos,
            eres_match(r, s_call(old(self).tv(), old(self).current as int).res),
        decreases old(self).tokens@.len() - old(self).current, 2int,
    {
        let ghost t = self.tv();
        let ghost pos0 = self.current as int;
        let ghost target = s_call(t, pos0);
        let p = self.primary();
        let mut e = match p {
            Err(er) => {
                return Err(er);
            },
            Ok(x) => x,
        };
        while self.check(TokenType::LeftParen)
            invariant
                self.wf(),
                self.tokens == old(self).tokens,
                t == self.tv(),
                pos0 == old(self).current as int,
                target == s_call(t, pos0),
                pos0 <= self.current as int,
                pos0 < self.current as int || pos0 >= self.tokens@.len(),
                s_call_loop(t, self.current as int, expr_view(e)) == target,
            decreases self.tokens@.len() - self.current,
        {
            proof {
                assert(self.current < self.tokens@.len());
                assert(pos0 < self.current as int);
            }
            self.advance();
            let f = self.finish_call(e);
            match f {
                Err(er) => {
                    return Err(er);
                },
                Ok(x) => {
                    e = x;
                },
            }
        }
        Ok(e)
    }

    /// `unary → ( "!" | "-" ) unary | call`.
    fn unary(&mut self) -> (r: Result<Expr, ParseError>)
        requires
            old(self).wf(),
        ensures
            final(self).tokens == old(self).tokens,
            final(self).wf(),
            old(self).current <= final(self).current,
            old(self).current < old(self).tokens@.len() ==> old(self).current < final(self).current,
            final(self).current as int == s_unary(old(self).tv(), old(self).current as int).pos,
            eres_match(r, s_unary(old(self).tv(), old(self).current as int).res),
        decreases old(self).tokens@.len() - old(self).current, 3int,
    {
        if self.check(TokenType::Bang) || self.check(TokenType::Minus) {
            let operator_token = clone_token(&self.tokens[self.current]);
            self.advance();
            match self.unary() {
                Ok(expr) => match parse_unary_operator(&operator_token) {
                    Ok(unary_op) => Ok(Expr::Unary(Box::new(expr), unary_op)),
                    Err(_) => vstd::pervasive::unreached(),
                },
                Err(err) => Err(err),
            }
        } else {
            self.call()
        }
    }

    /// Whether the next token is an operator of the given level.
    fn check_level(&self, lvl: u8) -> (r: bool)
        requires
            self.wf(),
            lvl <= 3,
        ensures
            r == (!s_at_end(self.tv(), self.current as int) && level_op(
                lvl as int,
                self.tv()[self.current as int].token_type,
            )),
    {
        if lvl == 0 {
            self.check(TokenType::Slash) || self.check(TokenType::Star)
        } else if lvl == 1 {
            self.check(TokenType::Minus) || self.check(TokenType::Plus)
        } else if lvl == 2 {
            self.check(TokenType::Greater) || self.check(TokenType::GreaterEqual) || self.check(
                TokenType::Less,
            ) || self.check(TokenType::LessEqual)
        } else {
            self.check(TokenType::BangEqual) || self.check(TokenType::EqualEqual)
        }
    }

    /// One binary-precedence level, loosest to tightest as `lvl` falls.
    #[verifier::rlimit(60)]
    fn bin_level(&mut self, lvl: u8) -> (r: Result<Expr, ParseError>)
        requires
            old(self).wf(),
            lvl <= 3,
        ensures
            final(self).tokens == old(self).tokens,
            final(self).wf(),
            old(self).current <= final(self).current,
            old(self).current < old(self).tokens@.len() ==> old(self).current < final(self).current,
            final(self).current as int == s_bin(
                old(self).tv(),
                old(self).current as int,
                lvl as int,
            ).pos,
            eres_match(r, s_bin(old(self).tv(), old(self).current as int, lvl as int).res),
        decreases old(self).tokens@.len() - old(self).current, 5int + 2 * lvl,
    {
        let ghost t = self.tv();
        let ghost pos0 = self.current as int;
        let ghost target = s_bin(t, pos0, lvl as int);
        let first = if lvl == 0 {
            self.unary()
        } else {
            self.bin_level(lvl - 1)
        };
        let mut e = match first {
            Err(er) => {
                return Err(er);
            },
            Ok(x) => x,
        };
        while self.check_level(lvl)
            invariant
                self.wf(),
                self.tokens == old(self).tokens,
                t == self.tv(),
                pos0 == old(self).current as int,
                target == s_bin(t, pos0, lvl as int),
                pos0 <= self.current as int,
                pos0 < self.current as int || pos0 >= self.tokens@.len(),
                lvl <= 3,
                s_bin_loop(t, self.current as int, lvl as int, expr_view(e)) == target,
            decreases self.tokens@.len() - self.current,
        {
            proof {
                assert(self.current < self.tokens@.len());
                assert(pos0 < self.current as int || pos0 >= self.tokens@.len());
            }
            let operator_token = clone_token(&self.tokens[self.current]);
            self.advance();
            let op = match parse_binary_operator(&operator_token) {
                Ok(op) => op,
                Err(_) => vstd::pervasive::unreached(),
            };
            let right = if lvl == 0 {
                self.unary()
            } else {
                self.bin_level(lvl - 1)
            };
            match right {
                Err(er) => {
                    return Err(er);
                },
                Ok(x) => {
                    e = Expr::Binary(Box::new(e), Box::new(x), op);
                },
            }
        }
        Ok(e)
    }

    /// `factor → unary ( ( "/" | "*" ) unary )*`.
    fn factor(&mut self) -> (r: Result<Expr, ParseError>)
        requires
            old(self).wf(),
        ensures
            final(self).tokens == old(self).tokens,
            final(self).wf(),
            old(self).current <= final(self).current,
            old(self).current < old(self).tokens@.len() ==> old(self).current < final(self).current,
            final(self).current as int == s_bin(old(self).tv(), old(self).current as int, 0).pos,
            eres_match(r, s_bin(old(self).tv(), old(self).current as int, 0).res),
    {
        self.bin_level(0)
    }

    /// `term → factor ( ( "-" | "+" ) factor )*`.
    fn term(&mut self) -> (r: Result<Expr, ParseError>)
        requires
            old(self).wf(),
        ensures
            final(self).tokens == old(self).tokens,
            final(self).wf(),
            old(self).current <= final(self).current,
            old(self).current < old(self).tokens@.len() ==> old(self).current < final(self).current,
            final(self).current as int == s_bin(old(self).tv(), old(self).current as int, 1).pos,
            eres_match(r, s_bin(old(self).tv(), old(self).current as int, 1).res),
    {
        self.bin_level(1)
    }

    /// `comparison → term ( ( ">" | ">=" | "<" | "<=" ) term )*`.
    fn comparison(&mut self) -> (r: Result<Expr, ParseError>)
        requires
            old(self).wf(),
        ensures
            final(self).tokens == old(self).tokens,
            final(self).wf(),
            old(self).current <= final(self).current,
            old(self).current < old(self).tokens@.len() ==> old(self).current < final(self).current,
            final(self).current as int == s_bin(old(self).tv(), old(self).current as int, 2).pos,
            eres_match(r, s_bin(old(self).tv(), old(self).current as int, 2).res),
    {
        self.bin_level(2)
    }

    /// `equality → comparison ( ( "!=" | "==" ) comparison )*`.
    fn equality(&mut self) -> (r: Result<Expr, ParseError>)
        requires
            old(self).wf(),
        ensures
            final(self).tokens == old(self).tokens,
            final(self).wf(),
            old(self).current <= final(self).current,
            old(self).current < old(self).tokens@.len() ==> old(self).current < final(self).current,
            final(self).current as int == s_bin(old(self).tv(), old(self).current as int, 3).pos,
            eres_match(r, s_bin(old(self).tv(), old(self).current as int, 3).res),
    {
        self.bin_level(3)
    }

    /// `assignment → equality ( "=" assignment )?`.
    fn assignment(&mut self) -> (r: Result<Expr, ParseError>)
        requires
            old(self).wf(),
        ensures
            final(self).tokens == old(self).tokens,
            final(self).wf(),
            old(self).current <= final(self).current,
            old(self).current < old(self).tokens@.len() ==> old(self).current < final(self).current,
            final(self).current as int == s_assignment(
                old(self).tv(),
                old(self).current as int,
            ).pos,
            eres_match(r, s_assignment(old(self).tv(), old(self).current as int).res),
        decreases old(self).tokens@.len() - old(self).current, 12int,
    {
        let l = self.bin_level(3);
        match l {
            Err(er) => Err(er),
            Ok(lhs) => {
                if self.check(TokenType::Equal) {
                    let equals = clone_token(&self.tokens[self.current]);
                    self.advance();
                    match self.assignment() {
                        Err(er) => Err(er),
                        Ok(rhs) => match lhs {
                            Expr::Variable(var_token) => {
                                let name = lexeme_to_name(&var_token);
                                Ok(Expr::Assignment(name, Box::new(rhs)))
                            },
                            _ => Err(
                                ParseError {
                                    error_type: ErrorType::InvalidAssignmentTarget,
                                    token: equals,
                                },
                            ),
                        },
                    }
                } else {
                    Ok(lhs)
                }
            },
        }
    }

    /// `expression → assignment`.
    fn expression(&mut self) -> (r: Result<Expr, ParseError>)
        requires
            old(self).wf(),
        ensures
            final(self).tokens == old(self).tokens,
            final(self).wf(),
            old(self).current <= final(self).current,
            old(self).current < old(self).tokens@.len() ==> old(self).current < final(self).current,
            final(self).current as int == s_expression(
                old(self).tv(),
                old(self).current as int,
            ).pos,
            eres_match(r, s_expression(old(self).tv(), old(self).current as int).res),
        decreases old(self).tokens@.len() - old(self).current, 13int,
    {
        self.assignment()
    }

    /// `printStmt → "print" expression ";"` (after the keyword).
    fn print_statement(&mut self) -> (r: Result<Statement, ParseError>)
        requires
            old(self).wf(),
        ensures
            final(self).tokens == old(self).tokens,
            final(self).wf(),
            old(self).current <= final(self).current,
            old(self).current < old(self).tokens@.len() ==> old(self).current < final(self).current,
            final(self).current as int == s_print_statement(
                old(self).tv(),
                old(self).current as int,
            ).pos,
            sres_match(r, s_print_statement(old(self).tv(), old(self).current as int).res),
        decreases old(self).tokens@.len() - old(self).current, 16int,
    {
        match self.expression() {
            Err(er) => Err(er),
            Ok(x) => match self.consume(TokenType::Semicolon) {
                Err(er) => Err(er),
                Ok(_) => Ok(Statement::Print(x)),
            },
        }
    }

    /// `exprStmt → expression ";"`.
    fn expr_statement(&mut self) -> (r: Result<Statement, ParseError>)
        requires
            old(self).wf(),
        ensures
            final(self).tokens == old(self).tokens,
            final(self).wf(),
            old(self).current <= final(self).current,
            old(self).current < old(self).tokens@.len() ==> old(self).current < final(self).current,
            final(self).current as int == s_expr_statement(
                old(self).tv(),
                old(self).current as int,
            ).pos,
            sres_match(r, s_expr_statement(old(self).tv(), old(self).current as int).res),
        decreases old(self).tokens@.len() - old(self).current, 16int,
    {
        match self.expression() {
            Err(er) => Err(er),
            Ok(x) => match self.consume(TokenType::Semicolon) {
                Err(er) => Err(er),
                Ok(_) => Ok(Statement::Expression(x)),
            },
        }
    }

    /// `returnStmt → "return" expression? ";"`; the keyword was consumed by
    /// the caller and stands just behind the cursor.
    fn return_statement(&mut self) -> (r: Result<Statement, ParseError>)
        requires
            old(self).wf(),
            1 <= old(self).current,
        ensures
            final(self).tokens == old(self).tokens,
            final(self).wf(),
            old(self).current <= final(self).current,
            old(self).current < old(self).tokens@.len() ==> old(self).current < final(self).current,
            final(self).current as int == s_return_statement(
                old(self).tv(),
                old(self).current as int,
                old(self).tv()[old(self).current - 1],
            ).pos,
            sres_match(
                r,
                s_return_statement(
                    old(self).tv(),
                    old(self).current as int,
                    old(self).tv()[old(self).current - 1],
                ).res,
            ),
        decreases old(self).tokens@.len() - old(self).current, 16int,
    {
        let keyword = clone_token(&self.tokens[self.current - 1]);
        if !self.check(TokenType::Semicolon) {
            match self.expression() {
                Err(er) => Err(er),
                Ok(x) => match self.consume(TokenType::Semicolon) {
                    Err(er) => Err(er),
                    Ok(_) => Ok(Statement::Return(keyword, Option::Some(x))),
                },
            }
        } else {
            match self.consume(TokenType::Semicolon) {
                Err(er) => Err(er),
                Ok(_) => Ok(Statement::Return(keyword, Option::None)),
            }
        }
    }

    /// `varDecl → "var" IDENT ( "=" expression )? ";"` (after the keyword).
    fn declaration_statement(&mut self) -> (r: Result<Statement, ParseError>)
        requires
            old(self).wf(),
        ensures
            final(self).tokens == old(self).tokens,
            final(self).wf(),
            old(self).current <= final(self).current,
            old(self).current < old(self).tokens@.len() ==> old(self).current < final(self).current,
            final(self).current as int == s_declaration_statement(
                old(self).tv(),
                old(self).current as int,
            ).pos,
            sres_match(r, s_declaration_statement(old(self).tv(), old(self).current as int).res),
        decreases old(self).tokens@.len() - old(self).current, 16int,
    {
        match self.consume(TokenType::Identifier) {
            Err(er) => Err(er),
            Ok(name) => {
                if self.match_one(TokenType::Equal) {
                    match self.expression() {
                        Err(er) => Err(er),
                        Ok(x) => match self.consume(TokenType::Semicolon) {
                            Err(er) => Err(er),
                            Ok(_) => Ok(Statement::Declaration(name, Option::Some(x))),
                        },
                    }
                } else {
                    match self.consume(TokenType::Semicolon) {
                        Err(er) => Err(er),
                        Ok(_) => Ok(Statement::Declaration(name, Option::None)),
                    }
                }
            },
        }
    }

    /// `ifStmt → "if" "(" expression ")" statement ( "else" statement )?`
    /// (after the keyword).
    #[verifier::rlimit(60)]
    fn if_statement(&mut self) -> (r: Result<Statement, ParseError>)
        requires
            old(self).wf(),
        ensures
            final(self).tokens == old(self).tokens,
            final(self).wf(),
            old(self).current <= final(self).current,
            old(self).current < old(self).tokens@.len() ==> old(self).current < final(self).current,
            final(self).current as int == s_if_statement(
                old(self).tv(),
                old(self).current as int,
            ).pos,
            sres_match(r, s_if_statement(old(self).tv(), old(self).current as int).res),
        decreases old(self).tokens@.len() - old(self).current, 18int,
    {
        match self.consume(TokenType::LeftParen) {
            Err(er) => Err(er),
            Ok(_) => match self.expression() {
                Err(er) => Err(er),
                Ok(condition) => match self.consume(TokenType::RightParen) {
                    Err(er) => Err(er),
                    Ok(_) => match self.statement() {
                        Err(er) => Err(er),
                        Ok(then_branch) => {
                            if self.match_one(TokenType::Else) {
                                match self.statement() {
                                    Err(er) => Err(er),
                                    Ok(else_branch) => Ok(
                                        Statement::If {
                                            condition,
                                            then_branch: Box::new(then_branch),
                                            else_branch: Option::Some(Box::new(else_branch)),
                                        },
                                    ),
                                }
                            } else {
                                Ok(
                                    Statement::If {
                                        condition,
                                        then_branch: Box::new(then_branch),
                                        else_branch: Option::None,
                                    },
                                )
                            }
                        },
                    },
                },
            },
        }
    }

    /// `block → "{" declaration* "}"` (after the `{`).
    #[verifier::rlimit(60)]
    fn block_statement(&mut self) -> (r: Result<Statement, ParseError>)
        requires
            old(self).wf(),
        ensures
            final(self).tokens == old(self).tokens,
            final(self).wf(),
            old(self).current <= final(self).current,
            old(self).current < old(self).tokens@.len() ==> old(self).current < final(self).current,
            final(self).current as int == s_block_statement(
                old(self).tv(),
                old(self).current as int,
            ).pos,
            sres_match(r, s_block_statement(old(self).tv(), old(self).current as int).res),
        decreases old(self).tokens@.len() - old(self).current, 20int,
    {
        let ghost t = self.tv();
        let ghost pos0 = self.current as int;
        let ghost target = s_block_loop(t, pos0, Seq::empty());
        let mut statements: Vec<Statement> = Vec::new();
        proof {
            assert(stmts_view(statements@) =~= Seq::<StmtS>::empty());
        }
        while !(self.check(TokenType::RightBrace) || self.is_at_end())
            invariant
                self.wf(),
                self.tokens == old(self).tokens,
                t == self.tv(),
                pos0 == old(self).current as int,
                target == s_block_loop(t, pos0, Seq::empty()),
                pos0 <= self.current as int,
                s_block_loop(t, self.current as int, stmts_view(statements@)) == target,
            decreases self.tokens@.len() - self.current,
        {
            let d = self.declaration();
            match d {
                Err(er) => {
                    return Err(er);
                },
                Ok(st) => {
                    proof {
                        lemma_stmts_view_push(statements@, st);
                    }
                    statements.push(st);
                },
            }
        }
        match self.consume(TokenType::RightBrace) {
            Err(er) => Err(er),
            Ok(_) => Ok(Statement::Block(statements)),
        }
    }

    /// `funDecl → "fun" IDENT "(" parameters? ")" "{" declaration* "}"`
    /// (after the keyword).
    #[verifier::rlimit(100)]
    fn function_declaration(&mut self) -> (r: Result<Statement, ParseError>)
        requires
            old(self).wf(),
        ensures
            final(self).tokens == old(self).tokens,
            final(self).wf(),
            old(self).current <= final(self).current,
            old(self).current < old(self).tokens@.len() ==> old(self).current < final(self).current,
            final(self).current as int == s_function_declaration(
                old(self).tv(),
                old(self).current as int,
            ).pos,
            sres_match(r, s_function_declaration(old(self).tv(), old(self).current as int).res),
        decreases old(self).tokens@.len() - old(self).current, 20int,
    {
        let ghost t = self.tv();
        let ghost pos0 = self.current as int;
        let name_token = match self.consume(TokenType::Identifier) {
            Err(er) => {
                return Err(er);
            },
            Ok(tok) => tok,
        };
        match self.consume(TokenType::LeftParen) {
            Err(er) => {
                return Err(er);
            },
            Ok(_) => {},
        }
        let mut params: Vec<Token> = Vec::new();
        proof {
            assert(toks_view(params@) =~= Seq::<TokenS>::empty());
        }
        let ghost p1 = self.current as int;
        let ghost ptarget = s_params_loop(t, p1, Seq::empty());
        if !self.check(TokenType::RightParen) {
            loop
                invariant_except_break
                    self.wf(),
                    self.tokens == old(self).tokens,
                    t == self.tv(),
                    old(self).current <= self.current,
                    (old(self).current as int) < (self.current as int) || old(self).current
                        >= self.tokens@.len(),
                    p1 <= self.current as int,
                    ptarget == s_params_loop(t, p1, Seq::empty()),
                    s_params_loop(t, self.current as int, toks_view(params@)) == ptarget,
                    pos0 == old(self).current as int,
                    (match ptarget.res {
                        Err(er) => s_function_declaration(t, pos0) == (PStmt {
                            res: Err::<StmtS, ParseErrorS>(er),
                            pos: ptarget.pos,
                        }),
                        Ok(_) => true,
                    }),
                ensures
                    self.wf(),
                    self.tokens == old(self).tokens,
                    t == self.tv(),
                    old(self).current <= self.current,
                    (old(self).current as int) < (self.current as int) || old(self).current
                        >= self.tokens@.len(),
                    p1 <= self.current as int,
                    ptarget == s_params_loop(t, p1, Seq::empty()),
                    pos0 == old(self).current as int,
                    (match ptarget.res {
                        Err(er) => s_function_declaration(t, pos0) == (PStmt {
                            res: Err::<StmtS, ParseErrorS>(er),
                            pos: ptarget.pos,
                        }),
                        Ok(_) => true,
                    }),
                    ptarget == (PToks {
                        res: Ok::<Seq<TokenS>, ParseErrorS>(toks_view(params@)),
                        pos: self.current as int,
                    }),
                decreases self.tokens@.len() - self.current,
            {
                match self.consume(TokenType::Identifier) {
                    Err(er) => {
                        return Err(er);
                    },
                    Ok(param) => {
                        proof {
                            assert(toks_view(params@.push(param)) =~= toks_view(params@).push(
                                token_view(param),
                            ));
                        }
                        params.push(param);
                    },
                }
                if !self.match_one(TokenType::Comma) {
                    break ;
                }
            }
        }
        match self.consume(TokenType::RightParen) {
            Err(er) => {
                return Err(er);
            },
            Ok(_) => {},
        }
        match self.consume(TokenType::LeftBrace) {
            Err(er) => {
                return Err(er);
            },
            Ok(_) => {},
        }
        let ghost b0 = self.current as int;
        let ghost btarget = s_fun_body_loop(t, b0, Seq::empty());
        let mut statements: Vec<Statement> = Vec::new();
        proof {
            assert(stmts_view(statements@) =~= Seq::<StmtS>::empty());
        }
        while !(self.check(TokenType::RightBrace) || self.is_at_end())
            invariant
                self.wf(),
                self.tokens == old(self).tokens,
                t == self.tv(),
                old(self).current <= self.current,
                (old(self).current as int) < (self.current as int) || old(self).current
                    >= self.tokens@.len(),
                b0 <= self.current as int,
                btarget == s_fun_body_loop(t, b0, Seq::empty()),
                s_fun_body_loop(t, self.current as int, stmts_view(statements@)) == btarget,
                pos0 == old(self).current as int,
                (match btarget.res {
                    Err(er) => s_function_declaration(t, pos0) == (PStmt {
                        res: Err::<StmtS, ParseErrorS>(er),
                        pos: btarget.pos,
                    }),
                    Ok(_) => true,
                }),
            decreases self.tokens@.len() - self.current,
        {
            let d = self.declaration();
            match d {
                Err(er) => {
                    return Err(er);
                },
                Ok(st) => {
                    proof {
                        lemma_stmts_view_push(statements@, st);
                    }
                    statements.push(st);
                },
            }
        }
        match self.consume(TokenType::RightBrace) {
            Err(er) => Err(er),
            Ok(_) => Ok(Statement::Function { name: name_token, params, block: statements }),
        }
    }

    /// `statement → ifStmt | printStmt | returnStmt | block | exprStmt`.
    fn statement(&mut self) -> (r: Result<Statement, ParseError>)
        requires
            old(self).wf(),
        ensures
            final(self).tokens == old(self).tokens,
            final(self).wf(),
            old(self).current <= final(self).current,
            old(self).current < old(self).tokens@.len() ==> old(self).current < final(self).current,
            final(self).current as int == s_statement(
                old(self).tv(),
                old(self).current as int,
            ).pos,
            sres_match(r, s_statement(old(self).tv(), old(self).current as int).res),
        decreases old(self).tokens@.len() - old(self).current, 17int,
    {
        if self.match_one(TokenType::If) {
            return self.if_statement();
        }
        if self.match_one(TokenType::Print) {
            return self.print_statement();
        }
        if self.match_one(TokenType::Return) {
            return self.return_statement();
        }
        if self.match_one(TokenType::LeftBrace) {
            return self.block_statement();
        }
        self.expr_statement()
    }

    /// `declaration → funDecl | varDecl | statement`.
    fn declaration(&mut self) -> (r: Result<Statement, ParseError>)
        requires
            old(self).wf(),
        ensures
            final(self).tokens == old(self).tokens,
            final(self).wf(),
            old(self).current <= final(self).current,
            old(self).current < old(self).tokens@.len() ==> old(self).current < final(self).current,
            final(self).current as int == s_declaration(
                old(self).tv(),
                old(self).current as int,
            ).pos,
            sres_match(r, s_declaration(old(self).tv(), old(self).current as int).res),
        decreases old(self).tokens@.len() - old(self).current, 18int,
    {
        if self.match_one(TokenType::Fun) {
            return self.function_declaration();
        }
        if self.match_one(TokenType::Var) {
            return self.declaration_statement();
        }
        self.statement()
    }

    /// `program → declaration* EOF`: collect statements and errors; after an
    /// error the cursor has already synchronised.
    #[verifier::rlimit(100)]
    fn parse(&mut self) -> (r: Result<Vec<Statement>, Vec<ParseError>>)
        requires
            old(self).wf(),
        ensures
            final(self).tokens == old(self).tokens,
            final(self).wf(),
            ({
                let p = s_program_loop(old(self).tv(), old(self).current as int);
                &&& final(self).current as int == p.pos
                &&& match r {
                    Ok(sts) => p.errs.len() == 0 && stmts_view(sts@) == p.stmts,
                    Err(es) => p.errs.len() > 0 && perrs_view(es@) == p.errs,
                }
            }),
    {
        let ghost t = self.tv();
        let ghost pos0 = self.current as int;
        let ghost target = s_program_loop(t, pos0);
        let mut statements: Vec<Statement> = Vec::new();
        let mut errors: Vec<ParseError> = Vec::new();
        proof {
            assert(stmts_view(statements@) =~= Seq::<StmtS>::empty());
            assert(perrs_view(errors@) =~= Seq::<ParseErrorS>::empty());
            assert(target.stmts =~= stmts_view(statements@) + s_program_loop(
                t,
                self.current as int,
            ).stmts);
            assert(target.errs =~= perrs_view(errors@) + s_program_loop(
                t,
                self.current as int,
            ).errs);
        }
        while !self.is_at_end()
            invariant
                self.wf(),
                self.tokens == old(self).tokens,
                t == self.tv(),
                pos0 == old(self).current as int,
                target == s_program_loop(t, pos0),
                pos0 <= self.current as int,
                target.stmts == stmts_view(statements@) + s_program_loop(
                    t,
                    self.current as int,
                ).stmts,
                target.errs == perrs_view(errors@) + s_program_loop(t, self.current as int).errs,
                target.pos == s_program_loop(t, self.current as int).pos,
            decreases self.tokens@.len() - self.current,
        {
            let ghost pre = self.current as int;
            let d = self.declaration();
            proof {
                assert(pre < self.current as int);
                assert(bump(t, pre, self.current as int) == self.current as int);
            }
            match d {
                Ok(st) => {
                    proof {
                        lemma_stmts_view_push(statements@, st);
                        assert(target.stmts =~= stmts_view(statements@.push(st)) + s_program_loop(
                            t,
                            self.current as int,
                        ).stmts);
                    }
                    statements.push(st);
                },
                Err(er) => {
                    proof {
                        assert(perrs_view(errors@.push(er)) =~= perrs_view(errors@).push(
                            perr_view(er),
                        ));
                        assert(target.errs =~= perrs_view(errors@.push(er)) + s_program_loop(
                            t,
                            self.current as int,
                        ).errs);
                    }
                    errors.push(er);
                },
            }
        }
        proof {
            assert(target.stmts =~= stmts_view(statements@));
            assert(target.errs =~= perrs_view(errors@));
        }
        if errors.len() == 0 {
            Ok(statements)
        } else {
            Err(errors)
        }
    }

    /// `arguments → expression ( "," expression )*`, closed by `)`.
    #[verifier::rlimit(60)]
    fn finish_call(&mut self, expr: Expr) -> (r: Result<Expr, ParseError>)
        requires
            old(self).wf(),
        ensures
            final(self).tokens == old(self).tokens,
            final(self).wf(),
            old(self).current <= final(self).current,
            final(self).current as int == s_finish_call(
                old(self).tv(),
                old(self).current as int,
                expr_view(expr),
            ).pos,
            eres_match(
                r,
                s_finish_call(old(self).tv(), old(self).current as int, expr_view(expr)).res,
            ),
        decreases old(self).tokens@.len() - old(self).current, 15int,
    {
        let ghost t = self.tv();
        let ghost pos0 = self.current as int;
        let ghost target = s_finish_call(t, pos0, expr_view(expr));
        if self.match_one(TokenType::RightParen) {
            let args: Vec<Expr> = Vec::new();
            proof {
                assert(exprs_view(args@) =~= Seq::<ExprS>::empty());
            }
            return Ok(Expr::Call(Box::new(expr), args));
        }
        let mut arguments: Vec<Expr> = Vec::new();
        let ghost callee = expr_view(expr);
        loop
            invariant_except_break
                self.wf(),
                self.tokens == old(self).tokens,
                t == self.tv(),
                pos0 == old(self).current as int,
                callee == expr_view(expr),
                target == s_finish_call(t, pos0, callee),
                pos0 <= self.current as int,
                s_args_loop(t, self.current as int, callee, exprs_view(arguments@)) == target,
            ensures
                self.wf(),
                self.tokens == old(self).tokens,
                t == self.tv(),
                pos0 == old(self).current as int,
                callee == expr_view(expr),
                target == s_finish_call(t, pos0, callee),
                pos0 <= self.current as int,
                ({
                    let c = s_consume(t, self.current as int, TokenType::RightParen);
                    target == match c.res {
                        Ok(_) => PExpr {
                            res: Ok(ExprS::Call(Box::new(callee), exprs_view(arguments@))),
                            pos: c.pos,
                        },
                        Err(er) => PExpr { res: Err(er), pos: c.pos },
                    }
                }),
            decreases self.tokens@.len() - self.current,
        {
            let ghost pre = self.current as int;
            let e = self.expression();
            match e {
                Err(er) => {
                    return Err(er);
                },
                Ok(a) => {
                    proof {
                        lemma_exprs_view_push(arguments@, a);
                    }
                    arguments.push(a);
                },
            }
            if !self.match_one(TokenType::Comma) {
                break ;
            }
        }
        match self.consume(TokenType::RightParen) {
            Err(er) => Err(er),
            Ok(_) => Ok(Expr::Call(Box::new(expr), arguments)),
        }
    }
}

/// Parse a token vector: the statement list, or the accumulated syntax
/// errors if there was at least one.
pub fn parse(tokens: Vec<Token>) -> (r: Result<Vec<Statement>, Vec<ParseError>>)
    ensures
        match r {
            Ok(sts) => s_parse(toks_view(tokens@)) == Ok::<Seq<StmtS>, Seq<ParseErrorS>>(
                stmts_view(sts@),
            ),
            Err(es) => s_parse(toks_view(tokens@)) == Err::<Seq<StmtS>, Seq<ParseErrorS>>(
                perrs_view(es@),
            ),
        },
{
    let mut parser = Parser::new(tokens);
    parser.parse()
}

/// Law: parsing is a function of the source alone. Two runs over the same
/// bytes — erroneous or not — yield the same statements, the same error
/// list, in the same order. This rests on the functional contracts of
/// `scan` and `parse`, whose results equal `scan_all` and `s_parse` of
/// their inputs.
pub proof fn lemma_parser_deterministic(
    src: Seq<u8>,
    r1: Result<Seq<StmtS>, Seq<ParseErrorS>>,
    r2: Result<Seq<StmtS>, Seq<ParseErrorS>>,
)
    requires
        r1 == s_parse(crate::scanner::scan_all(src, 0, 0).toks),
        r2 == s_parse(crate::scanner::scan_all(src, 0, 0).toks),
    ensures
        r1 == r2,
{
}

/// The symbol of a binary operator.
pub open spec fn binop_str(op: BinaryOperator) -> Seq<u8> {
    match op {
        BinaryOperator::Minus => seq![45u8],
        BinaryOperator::Plus => seq![43u8],
        BinaryOperator::Slash => seq![47u8],
        BinaryOperator::Star => seq![42u8],
        BinaryOperator::BangEqual => seq![33u8, 61u8],
        BinaryOperator::EqualEqual => seq![61u8, 61u8],
        BinaryOperator::Greater => seq![62u8],
        BinaryOperator::GreaterEqual => seq![62u8, 61u8],
        BinaryOperator::Less => seq![60u8],
        BinaryOperator::LessEqual => seq![60u8, 61u8],
        BinaryOperator::And => seq![97u8, 110u8, 100u8],
        BinaryOperator::Or => seq![111u8, 114u8],
    }
}

/// The symbol of a unary operator.
pub open spec fn unop_str(op: UnaryOperator) -> Seq<u8> {
    match op {
        UnaryOperator::Bang => seq![33u8],
        UnaryOperator::Minus => seq![45u8],
    }
}

/// How a number shows: its decimal rendering when well-formed, else nothing.
pub open spec fn num_render(f: (int, int)) -> Seq<u8> {
    if 1 <= f.1 <= crate::num::MAX_DEN as int && -(crate::num::MAX_MAG as int) <= f.0
        <= crate::num::MAX_MAG as int {
        crate::num::num_str(f.0, f.1)
    } else {
        Seq::empty()
    }
}

/// The rendering of an expression in the printer's parenthesised form.
pub open spec fn s_print_expr(e: ExprS) -> Seq<u8>
    decreases e,
{
    match e {
        ExprS::Binary(l, r, op) => seq![40u8] + binop_str(op) + seq![32u8] + s_print_expr(*l)
            + seq![32u8] + s_print_expr(*r) + seq![41u8],
        ExprS::Unary(x, op) => unop_str(op) + s_print_expr(*x),
        ExprS::Literal(lit) => match lit {
            LitVS::Number(f) => num_render(f),
            LitVS::Str(sv) => sv,
            LitVS::Boolean(b) => if b {
                seq![116u8, 114u8, 117u8, 101u8]
            } else {
                seq![102u8, 97u8, 108u8, 115u8, 101u8]
            },
            LitVS::Nil => seq![110u8, 105u8, 108u8],
        },
        ExprS::Variable(t) => t.lexeme,
        ExprS::Assignment(name, v) => name + seq![32u8, 61u8, 32u8] + s_print_expr(*v),
        ExprS::Call(f, args) => s_print_expr(*f) + seq![40u8] + s_print_args(args) + seq![41u8],
    }
}

/// The rendering of an argument list: each argument, comma-separated with a
/// trailing separator.
pub open spec fn s_print_args(args: Seq<ExprS>) -> Seq<u8>
    decreases args,
{
    if args.len() == 0 {
        Seq::empty()
    } else {
        s_print_expr(args[0]) + seq![44u8, 32u8] + s_print_args(
            args.subrange(1, args.len() as int),
        )
    }
}

/// The rendering of a statement.
pub open spec fn s_print_stmt(st: StmtS) -> Seq<u8>
    decreases st,
{
    match st {
        StmtS::Expression(e) => s_print_expr(e),
        StmtS::Print(e) => seq![112u8, 114u8, 105u8, 110u8, 116u8, 32u8] + s_print_expr(e),
        StmtS::Declaration(t, oe) => match oe {
            Option::None => seq![118u8, 97u8, 114u8, 32u8] + t.lexeme + seq![59u8],
            Option::Some(e) => seq![118u8, 97u8, 114u8, 32u8] + t.lexeme + seq![32u8, 61u8, 32u8]
                + s_print_expr(e),
        },
        StmtS::Block(sts) => seq![123u8] + s_print_stmts(sts) + seq![125u8],
        StmtS::If { condition, then_branch, else_branch } => {
            let head = seq![105u8, 102u8, 32u8, 40u8] + s_print_expr(condition) + seq![41u8, 32u8]
                + s_print_stmt(*then_branch);
            match else_branch {
                Option::None => head,
                Option::Some(e) => head + seq![32u8, 101u8, 108u8, 115u8, 101u8, 32u8]
                    + s_print_stmt(*e),
            }
        },
        StmtS::Function { name, params, block } => seq![102u8, 117u8, 110u8, 32u8] + name.lexeme
            + seq![40u8] + s_print_params(params) + seq![41u8, 32u8] + (seq![123u8]
            + s_print_stmts(block) + seq![125u8]),
        StmtS::Return(_, _) => seq![114u8, 101u8, 116u8, 117u8, 114u8, 110u8],
    }
}

/// The rendering of a statement list, each statement closed by `;`.
pub open spec fn s_print_stmts(sts: Seq<StmtS>) -> Seq<u8>
    decreases sts,
{
    if sts.len() == 0 {
        Seq::empty()
    } else {
        s_print_stmt(sts[0]) + seq![59u8] + s_print_stmts(sts.subrange(1, sts.len() as int))
    }
}

/// The rendering of a parameter list, comma-separated with a trailing
/// separator.
pub open spec fn s_print_params(ps: Seq<TokenS>) -> Seq<u8>
    decreases ps,
{
    if ps.len() == 0 {
        Seq::empty()
    } else {
        ps[0].lexeme + seq![44u8, 32u8] + s_print_params(ps.subrange(1, ps.len() as int))
    }
}

/// A statement-sequence view has the same length and elementwise images.
pub proof fn lemma_stmts_view_index(s: Seq<Statement>)
    ensures
        stmts_view(s).len() == s.len(),
        forall|i: int| 0 <= i < s.len() ==> stmts_view(s)[i] == stmt_view(s[i]),
    decreases s.len(),
{
    if s.len() > 0 {
        lemma_stmts_view_index(s.subrange(1, s.len() as int));
        assert forall|i: int| 0 <= i < s.len() implies stmts_view(s)[i] == stmt_view(s[i]) by {
            if i > 0 {
                assert(s.subrange(1, s.len() as int)[i - 1] == s[i]);
            }
        }
    }
}

/// An expression-sequence view has the same length and elementwise images.
pub proof fn lemma_exprs_view_index(s: Seq<Expr>)
    ensures
        exprs_view(s).len() == s.len(),
        forall|i: int| 0 <= i < s.len() ==> exprs_view(s)[i] == expr_view(s[i]),
    decreases s.len(),
{
    if s.len() > 0 {
        lemma_exprs_view_index(s.subrange(1, s.len() as int));
        assert forall|i: int| 0 <= i < s.len() implies exprs_view(s)[i] == expr_view(s[i]) by {
            if i > 0 {
                assert(s.subrange(1, s.len() as int)[i - 1] == s[i]);
            }
        }
    }
}

/// Argument renderings distribute over `push`.
proof fn lemma_print_args_push(s: Seq<ExprS>, x: ExprS)
    ensures
        s_print_args(s.push(x)) == s_print_args(s) + s_print_expr(x) + seq![44u8, 32u8],
    decreases s,
{
    if s.len() == 0 {
        assert(s.push(x).subrange(1, s.push(x).len() as int) =~= Seq::<ExprS>::empty());
        assert(s.push(x)[0] == x);
        assert(s_print_args(s.push(x)) == s_print_expr(x) + seq![44u8, 32u8] + s_print_args(
            s.push(x).subrange(1, s.push(x).len() as int),
        ));
        assert(s_print_args(s.push(x).subrange(1, s.push(x).len() as int)) == Seq::<u8>::empty());
        assert(s_print_args(s) == Seq::<u8>::empty());
        assert(s_print_args(s.push(x)) =~= s_print_args(s) + s_print_expr(x) + seq![44u8, 32u8]);
    } else {
        let sub = s.subrange(1, s.len() as int);
        assert(s.push(x).subrange(1, s.push(x).len() as int) =~= sub.push(x));
        assert(s.push(x)[0] == s[0]);
        lemma_print_args_push(sub, x);
        assert(s_print_args(s.push(x)) == s_print_expr(s[0]) + seq![44u8, 32u8] + (s_print_args(sub)
            + s_print_expr(x) + seq![44u8, 32u8]));
        assert(s_print_args(s) == s_print_expr(s[0]) + seq![44u8, 32u8] + s_print_args(sub));
        assert(s_print_args(s.push(x)) =~= s_print_args(s) + s_print_expr(x) + seq![44u8, 32u8]);
    }
}

/// Statement renderings distribute over `push`.
proof fn lemma_print_stmts_push(s: Seq<StmtS>, x: StmtS)
    ensures
        s_print_stmts(s.push(x)) == s_print_stmts(s) + s_print_stmt(x) + seq![59u8],
    decreases s,
{
    if s.len() == 0 {
        assert(s.push(x).subrange(1, s.push(x).len() as int) =~= Seq::<StmtS>::empty());
        assert(s.push(x)[0] == x);
        assert(s_print_stmts(s.push(x)) == s_print_stmt(x) + seq![59u8] + s_print_stmts(
            s.push(x).subrange(1, s.push(x).len() as int),
        ));
        assert(s_print_stmts(s.push(x).subrange(1, s.push(x).len() as int)) == Seq::<u8>::empty());
        assert(s_print_stmts(s) == Seq::<u8>::empty());
        assert(s_print_stmts(s.push(x)) =~= s_print_stmts(s) + s_print_stmt(x) + seq![59u8]);
    } else {
        let sub = s.subrange(1, s.len() as int);
        assert(s.push(x).subrange(1, s.push(x).len() as int) =~= sub.push(x));
        assert(s.push(x)[0] == s[0]);
        lemma_print_stmts_push(sub, x);
        assert(s_print_stmts(s.push(x)) == s_print_stmt(s[0]) + seq![59u8] + (s_print_stmts(sub)
            + s_print_stmt(x) + seq![59u8]));
        assert(s_print_stmts(s) == s_print_stmt(s[0]) + seq![59u8] + s_print_stmts(sub));
        assert(s_print_stmts(s.push(x)) =~= s_print_stmts(s) + s_print_stmt(x) + seq![59u8]);
    }
}

/// Parameter renderings distribute over `push`.
proof fn lemma_print_params_push(s: Seq<TokenS>, x: TokenS)
    ensures
        s_print_params(s.push(x)) == s_print_params(s) + x.lexeme + seq![44u8, 32u8],
    decreases s,
{
    if s.len() == 0 {
        assert(s.push(x).subrange(1, s.push(x).len() as int) =~= Seq::<TokenS>::empty());
        assert(s.push(x)[0] == x);
        assert(s_print_params(s.push(x)) == x.lexeme + seq![44u8, 32u8] + s_print_params(
            s.push(x).subrange(1, s.push(x).len() as int),
        ));
        assert(s_print_params(s.push(x).subrange(1, s.push(x).len() as int)) == Seq::<
            u8,
        >::empty());
        assert(s_print_params(s) == Seq::<u8>::empty());
        assert(s_print_params(s.push(x)) =~= s_print_params(s) + x.lexeme + seq![44u8, 32u8]);
    } else {
        let sub = s.subrange(1, s.len() as int);
        assert(s.push(x).subrange(1, s.push(x).len() as int) =~= sub.push(x));
        assert(s.push(x)[0] == s[0]);
        lemma_print_params_push(sub, x);
        assert(s_print_params(s.push(x)) == s[0].lexeme + seq![44u8, 32u8] + (s_print_params(sub)
            + x.lexeme + seq![44u8, 32u8]));
        assert(s_print_params(s) == s[0].lexeme + seq![44u8, 32u8] + s_print_params(sub));
        assert(s_print_params(s.push(x)) =~= s_print_params(s) + x.lexeme + seq![44u8, 32u8]);
    }
}

/// Append a copy of `src` to `out`.
pub fn extend_bytes(out: &mut Vec<u8>, src: &Vec<u8>)
    ensures
        final(out)@ == old(out)@ + src@,
{
    let mut i: usize = 0;
    while i < src.len()
        invariant
            i <= src@.len(),
            out@ == old(out)@ + src@.subrange(0, i as int),
        decreases src@.len() - i,
    {
        out.push(src[i]);
        i = i + 1;
        proof {
            assert(src@.subrange(0, i as int) =~= src@.subrange(0, i - 1) + seq![src@[i - 1]]);
            assert(out@ =~= old(out)@ + src@.subrange(0, i as int));
        }
    }
    proof {
        assert(src@.subrange(0, src@.len() as int) =~= src@);
    }
}

/// The symbol of a binary operator, as the AST printer shows it.
pub fn print_binary_op(op: &BinaryOperator) -> (r: Vec<u8>)
    ensures
        r@ == binop_str(*op),
{
    let mut out: Vec<u8> = Vec::new();
    match op {
        BinaryOperator::Minus => out.push(45),
        BinaryOperator::Plus => out.push(43),
        BinaryOperator::Slash => out.push(47),
        BinaryOperator::Star => out.push(42),
        BinaryOperator::BangEqual => {
            out.push(33);
            out.push(61);
        },
        BinaryOperator::EqualEqual => {
            out.push(61);
            out.push(61);
        },
        BinaryOperator::Greater => out.push(62),
        BinaryOperator::GreaterEqual => {
            out.push(62);
            out.push(61);
        },
        BinaryOperator::Less => out.push(60),
        BinaryOperator::LessEqual => {
            out.push(60);
            out.push(61);
        },
        BinaryOperator::And => {
            out.push(97);
            out.push(110);
            out.push(100);
        },
        BinaryOperator::Or => {
            out.push(111);
            out.push(114);
        },
    }
    proof {
        assert(out@ =~= binop_str(*op));
    }
    out
}

/// The symbol of a unary operator, as the AST printer shows it.
pub fn print_unary_op(op: &UnaryOperator) -> (r: Vec<u8>)
    ensures
        r@ == unop_str(*op),
{
    let mut out: Vec<u8> = Vec::new();
    match op {
        UnaryOperator::Bang => out.push(33),
        UnaryOperator::Minus => out.push(45),
    }
    proof {
        assert(out@ =~= unop_str(*op));
    }
    out
}

/// Render an expression in the printer's parenthesised form.
pub fn print_ast_expr(expr: &Expr) -> (r: Vec<u8>)
    ensures
        r@ == s_print_expr(expr_view(*expr)),
    decreases *expr,
{
    let mut out: Vec<u8> = Vec::new();
    match expr {
        Expr::Binary(left, right, op) => {
            let l = print_ast_expr(left);
            let rr = print_ast_expr(right);
            let oper = print_binary_op(op);
            out.push(40);
            extend_bytes(&mut out, &oper);
            out.push(32);
            extend_bytes(&mut out, &l);
            out.push(32);
            extend_bytes(&mut out, &rr);
            out.push(41);
            proof {
                assert(out@ =~= s_print_expr(expr_view(*expr)));
            }
        },
        Expr::Unary(x, op) => {
            let inner = print_ast_expr(x);
            let oper = print_unary_op(op);
            extend_bytes(&mut out, &oper);
            extend_bytes(&mut out, &inner);
            proof {
                assert(out@ =~= s_print_expr(expr_view(*expr)));
            }
        },
        Expr::Literal(lit) => {
            match lit {
                LiteralValue::Number(x) => {
                    if x.d >= 1 && x.n >= -crate::num::MAX_MAG && x.n <= crate::num::MAX_MAG
                        && x.d <= crate::num::MAX_DEN {
                        let s = x.to_bytes();
                        extend_bytes(&mut out, &s);
                    }
                },
                LiteralValue::String(sv) => {
                    extend_bytes(&mut out, sv);
                },
                LiteralValue::Boolean(b) => {
                    if *b {
                        out.push(116);
                        out.push(114);
                        out.push(117);
                        out.push(101);
                    } else {
                        out.push(102);
                        out.push(97);
                        out.push(108);
                        out.push(115);
                        out.push(101);
                    }
                },
                LiteralValue::Nil => {
                    out.push(110);
                    out.push(105);
                    out.push(108);
                },
            }
            proof {
                assert(out@ =~= s_print_expr(expr_view(*expr)));
            }
        },
        Expr::Variable(t) => {
            extend_bytes(&mut out, &t.lexeme);
            proof {
                assert(out@ =~= s_print_expr(expr_view(*expr)));
            }
        },
        Expr::Assignment(name, v) => {
            let inner = print_ast_expr(v);
            extend_bytes(&mut out, name);
            out.push(32);
            out.push(61);
            out.push(32);
            extend_bytes(&mut out, &inner);
            proof {
                assert(out@ =~= s_print_expr(expr_view(*expr)));
            }
        },
        Expr::Call(f, args) => {
            let callee = print_ast_expr(f);
            extend_bytes(&mut out, &callee);
            out.push(40);
            let ghost base = out@;
            let mut i: usize = 0;
            while i < args.len()
                invariant
                    i <= args@.len(),
                    (*expr) matches Expr::Call(_, _),
                    *args == (*expr)->Call_1,
                    out@ == base + s_print_args(exprs_view(args@.subrange(0, i as int))),
                decreases args@.len() - i,
            {
                proof {
                    assert(decreases_to!(*expr => (*expr)->Call_1@[i as int]));
                    assert((*expr)->Call_1 == *args);
                    assert(decreases_to!(*expr => args@[i as int]));
                }
                let a = print_ast_expr(&args[i]);
                extend_bytes(&mut out, &a);
                out.push(44);
                out.push(32);
                i = i + 1;
                proof {
                    assert(args@.subrange(0, i as int) =~= args@.subrange(0, i - 1).push(
                        args@[i - 1],
                    ));
                    lemma_exprs_view_push(args@.subrange(0, i - 1), args@[i - 1]);
                    lemma_print_args_push(
                        exprs_view(args@.subrange(0, i - 1)),
                        expr_view(args@[i - 1]),
                    );
                    assert(out@ =~= base + s_print_args(exprs_view(args@.subrange(0, i as int))));
                }
            }
            out.push(41);
            proof {
                assert(args@.subrange(0, args@.len() as int) =~= args@);
                assert(out@ =~= s_print_expr(expr_view(*expr)));
            }
        },
    }
    out
}

/// Render a statement as the AST printer shows it.
pub fn print_ast(statement: &Statement) -> (r: Vec<u8>)
    ensures
        r@ == s_print_stmt(stmt_view(*statement)),
    decreases *statement,
{
    let mut out: Vec<u8> = Vec::new();
    match statement {
        Statement::Expression(e) => {
            let s = print_ast_expr(e);
            extend_bytes(&mut out, &s);
            proof {
                assert(out@ =~= s_print_stmt(stmt_view(*statement)));
            }
        },
        Statement::Print(e) => {
            let s = print_ast_expr(e);
            out.push(112);
            out.push(114);
            out.push(105);
            out.push(110);
            out.push(116);
            out.push(32);
            extend_bytes(&mut out, &s);
            proof {
                assert(out@ =~= s_print_stmt(stmt_view(*statement)));
            }
        },
        Statement::Declaration(name, oe) => {
            out.push(118);
            out.push(97);
            out.push(114);
            out.push(32);
            extend_bytes(&mut out, &name.lexeme);
            match oe {
                Option::None => {
                    out.push(59);
                },
                Option::Some(e) => {
                    let s = print_ast_expr(e);
                    out.push(32);
                    out.push(61);
                    out.push(32);
                    extend_bytes(&mut out, &s);
                },
            }
            proof {
                assert(out@ =~= s_print_stmt(stmt_view(*statement)));
            }
        },
        Statement::Block(statements) => {
            let s = print_block_ast(statements);
            extend_bytes(&mut out, &s);
            proof {
                assert(out@ =~= s_print_stmt(stmt_view(*statement)));
            }
        },
        Statement::If { condition, then_branch, else_branch } => {
            let c = print_ast_expr(condition);
            let tb = print_ast(then_branch);
            out.push(105);
            out.push(102);
            out.push(32);
            out.push(40);
            extend_bytes(&mut out, &c);
            out.push(41);
            out.push(32);
            extend_bytes(&mut out, &tb);
            match else_branch {
                Option::None => {},
                Option::Some(e) => {
                    let eb = print_ast(e);
                    out.push(32);
                    out.push(101);
                    out.push(108);
                    out.push(115);
                    out.push(101);
                    out.push(32);
                    extend_bytes(&mut out, &eb);
                },
            }
            proof {
                assert(out@ =~= s_print_stmt(stmt_view(*statement)));
            }
        },
        Statement::Function { name, params, block } => {
            out.push(102);
            out.push(117);
            out.push(110);
            out.push(32);
            extend_bytes(&mut out, &name.lexeme);
            out.push(40);
            let ghost base = out@;
            let mut i: usize = 0;
            while i < params.len()
                invariant
                    i <= params@.len(),
                    out@ == base + s_print_params(toks_view(params@.subrange(0, i as int))),
                decreases params@.len() - i,
            {
                extend_bytes(&mut out, &params[i].lexeme);
                out.push(44);
                out.push(32);
                i = i + 1;
                proof {
                    assert(params@.subrange(0, i as int) =~= params@.subrange(0, i - 1).push(
                        params@[i - 1],
                    ));
                    assert(toks_view(params@.subrange(0, i as int)) =~= toks_view(
                        params@.subrange(0, i - 1),
                    ).push(token_view(params@[i - 1])));
                    lemma_print_params_push(
                        toks_view(params@.subrange(0, i - 1)),
                        token_view(params@[i - 1]),
                    );
                    assert(out@ =~= base + s_print_params(
                        toks_view(params@.subrange(0, i as int)),
                    ));
                }
            }
            out.push(41);
            out.push(32);
            let b = print_block_ast(block);
            extend_bytes(&mut out, &b);
            proof {
                assert(params@.subrange(0, params@.len() as int) =~= params@);
                assert(out@ =~= s_print_stmt(stmt_view(*statement)));
            }
        },
        Statement::Return(_, _) => {
            out.push(114);
            out.push(101);
            out.push(116);
            out.push(117);
            out.push(114);
            out.push(110);
            proof {
                assert(out@ =~= s_print_stmt(stmt_view(*statement)));
            }
        },
    }
    out
}

/// Render a statement list in braces, each statement closed by `;`.
pub fn print_block_ast(statements: &Vec<Statement>) -> (r: Vec<u8>)
    ensures
        r@ == seq![123u8] + s_print_stmts(stmts_view(statements@)) + seq![125u8],
    decreases *statements,
{
    let mut out: Vec<u8> = Vec::new();
    out.push(123);
    let ghost base = out@;
    let mut i: usize = 0;
    while i < statements.len()
        invariant
            i <= statements@.len(),
            out@ == base + s_print_stmts(stmts_view(statements@.subrange(0, i as int))),
        decreases statements@.len() - i,
    {
        proof {
            assert(decreases_to!(*statements => statements@));
            assert(decreases_to!(statements@ => statements@[i as int]));
            assert(decreases_to!(*statements => statements@[i as int]));
        }
        let s = print_ast(&statements[i]);
        extend_bytes(&mut out, &s);
        out.push(59);
        i = i + 1;
        proof {
            assert(statements@.subrange(0, i as int) =~= statements@.subrange(0, i - 1).push(
                statements@[i - 1],
            ));
            lemma_stmts_view_push(statements@.subrange(0, i - 1), statements@[i - 1]);
            lemma_print_stmts_push(
                stmts_view(statements@.subrange(0, i - 1)),
                stmt_view(statements@[i - 1]),
            );
            assert(out@ =~= base + s_print_stmts(stmts_view(statements@.subrange(0, i as int))));
        }
    }
    out.push(125);
    proof {
        assert(statements@.subrange(0, statements@.len() as int) =~= statements@);
        assert(out@ =~= seq![123u8] + s_print_stmts(stmts_view(statements@)) + seq![125u8]);
    }
    out
}

} // verus!
