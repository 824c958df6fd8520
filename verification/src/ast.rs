//! The abstract syntax tree: operators, keywords, literals, expressions
//! and statements.

use crate::chars::str_eq;
use crate::token::{KindView, TokenKind};
use vstd::prelude::*;

verus! {

/// The binary operators.
#[derive(Debug, Clone, Copy, PartialEq, Eq, PartialOrd, Ord, Hash, Structural)]
pub enum BinaryOp {
    /// `+`
    Add,
    /// `-`
    Sub,
    /// `*`
    Mul,
    /// `/`
    Div,
    /// `%`
    Mod,
    /// `<<`
    Lsh,
    /// `>>`
    Rsh,
    /// `&`
    And,
    /// `|`
    Or,
    /// `^`
    Xor,
    /// `~`
    Not,
    /// `!`
    LogicalNot,
    /// `&&`
    LogicalAnd,
    /// `||`
    LogicalOr,
    /// `<`
    Lt,
    /// `<=`
    Lte,
    /// `>`
    Gt,
    /// `>=`
    Gte,
    /// `==`
    Eq,
    /// `!=`
    Ne,
    /// `=`
    Assign,
    /// `+=`
    AddEq,
    /// `-=`
    SubEq,
    /// `*=`
    MulEq,
    /// `/=`
    DivEq,
    /// `%=`
    ModEq,
    /// `&=`
    AndEq,
    /// `|=`
    OrEq,
    /// `^=`
    XorEq,
    /// `<<=`
    LshEq,
    /// `>>=`
    RshEq,
    /// `->`, the binding that borrows
    Ref,
    /// `<-`, the binding that moves
    Move,
    /// `::`
    Scope,
    /// `:`
    Is,
}

/// The operators of arithmetic, comparison and logic, by name.
#[derive(Debug, Clone, Copy, PartialEq, Eq, Structural)]
pub enum BinaryOperator {
    Addition,
    Subtraction,
    Multiplication,
    Division,
    Modulus,
    LessThan,
    LessThanOrEqual,
    GreaterThan,
    GreaterThanOrEqual,
    Equal,
    NotEqual,
    And,
    Or,
    AddAssign,
    SubtractAssign,
    MultiplyAssign,
    DivideAssign,
}

/// The operator that a token of one character stands for, if it stands
/// for one.
pub open spec fn operator_of(kind: KindView) -> Option<BinaryOperator> {
    match kind {
        KindView::Star => Some(BinaryOperator::Multiplication),
        KindView::Slash => Some(BinaryOperator::Division),
        KindView::Plus => Some(BinaryOperator::Addition),
        KindView::Minus => Some(BinaryOperator::Subtraction),
        KindView::Percent => Some(BinaryOperator::Modulus),
        KindView::And => Some(BinaryOperator::And),
        KindView::Or => Some(BinaryOperator::Or),
        _ => None,
    }
}

impl BinaryOperator {
    /// The operator that a token of the given kind stands for: one of
    /// `*`, `/`, `+`, `-`, `%`, `&` and `|`; any other kind stands for
    /// none.
    pub fn try_from(token: &TokenKind) -> (r: Option<BinaryOperator>)
        ensures
            r == operator_of(token@),
    {
        match token {
            TokenKind::Star => Some(BinaryOperator::Multiplication),
            TokenKind::Slash => Some(BinaryOperator::Division),
            TokenKind::Plus => Some(BinaryOperator::Addition),
            TokenKind::Minus => Some(BinaryOperator::Subtraction),
            TokenKind::Percent => Some(BinaryOperator::Modulus),
            TokenKind::And => Some(BinaryOperator::And),
            TokenKind::Or => Some(BinaryOperator::Or),
            _ => None,
        }
    }
}

/// How a binding takes its value: by `=`, by `<-` or by `->`.
#[derive(Debug, Clone, Copy, PartialEq, Eq, PartialOrd, Structural)]
pub enum Behaviour {
    Copy,
    Move,
    Ref,
}

/// The reserved words.
#[derive(Debug, Clone, Copy, PartialEq, Eq, Structural)]
pub enum KeyWord {
    LET,
    MUT,
    IF,
    ELSE,
    FOR,
    FN,
    RETURN,
}

/// The keyword that a text spells, if it spells one.
pub open spec fn keyword_of(text: Seq<char>) -> Option<KeyWord> {
    if text == "let"@ {
        Some(KeyWord::LET)
    } else if text == "mut"@ {
        Some(KeyWord::MUT)
    } else if text == "if"@ {
        Some(KeyWord::IF)
    } else if text == "else"@ {
        Some(KeyWord::ELSE)
    } else if text == "for"@ {
        Some(KeyWord::FOR)
    } else if text == "return"@ {
        Some(KeyWord::RETURN)
    } else if text == "fn"@ {
        Some(KeyWord::FN)
    } else {
        None
    }
}

/// The name of a keyword in a message.
pub open spec fn keyword_name(k: KeyWord) -> Seq<char> {
    match k {
        KeyWord::LET => "LET"@,
        KeyWord::MUT => "MUT"@,
        KeyWord::IF => "IF"@,
        KeyWord::ELSE => "ELSE"@,
        KeyWord::FOR => "FOR"@,
        KeyWord::FN => "FN"@,
        KeyWord::RETURN => "RETURN"@,
    }
}

impl KeyWord {
    /// The keyword that `value` spells exactly, if it spells one.
    pub fn try_from(value: &str) -> (r: Option<KeyWord>)
        ensures
            r == keyword_of(value@),
    {
        if str_eq(value, "let") {
            Some(KeyWord::LET)
        } else if str_eq(value, "mut") {
            Some(KeyWord::MUT)
        } else if str_eq(value, "if") {
            Some(KeyWord::IF)
        } else if str_eq(value, "else") {
            Some(KeyWord::ELSE)
        } else if str_eq(value, "for") {
            Some(KeyWord::FOR)
        } else if str_eq(value, "return") {
            Some(KeyWord::RETURN)
        } else if str_eq(value, "fn") {
            Some(KeyWord::FN)
        } else {
            None
        }
    }

    /// The name of the keyword in a message.
    pub fn to_string(&self) -> (s: String)
        ensures
            s@ == keyword_name(*self),
    {
        let text = match self {
            KeyWord::LET => "LET",
            KeyWord::MUT => "MUT",
            KeyWord::IF => "IF",
            KeyWord::ELSE => "ELSE",
            KeyWord::FOR => "FOR",
            KeyWord::FN => "FN",
            KeyWord::RETURN => "RETURN",
        };
        text.to_owned()
    }
}

/// A literal value. `Float` and `Float64` hold the text of the number,
/// as it stands in the source. `Unexpected` holds the diagnosis of a
/// malformed literal; it is a value like the others, and parsing goes on
/// behind it.
#[derive(Debug, Clone, PartialEq, Eq)]
pub enum Literal {
    Byte(i8),
    Int16(i16),
    Int(i32),
    Int64(i64),
    Int128(i128),
    UByte(u8),
    UInt16(u16),
    UInt(u32),
    UInt64(u64),
    UInt128(u128),
    Float(String),
    Float64(String),
    Char(String),
    Boolean(bool),
    Str(String),
    Unexpected(String),
}

/// A literal as a mathematical value.
pub enum LiteralView {
    Byte(i8),
    Int16(i16),
    Int(i32),
    Int64(i64),
    Int128(i128),
    UByte(u8),
    UInt16(u16),
    UInt(u32),
    UInt64(u64),
    UInt128(u128),
    Float(Seq<char>),
    Float64(Seq<char>),
    Char(Seq<char>),
    Boolean(bool),
    Str(Seq<char>),
    Unexpected(Seq<char>),
}

impl View for Literal {
    type V = LiteralView;

    open spec fn view(&self) -> LiteralView {
        match self {
            Literal::Byte(v) => LiteralView::Byte(*v),
            Literal::Int16(v) => LiteralView::Int16(*v),
            Literal::Int(v) => LiteralView::Int(*v),
            Literal::Int64(v) => LiteralView::Int64(*v),
            Literal::Int128(v) => LiteralView::Int128(*v),
            Literal::UByte(v) => LiteralView::UByte(*v),
            Literal::UInt16(v) => LiteralView::UInt16(*v),
            Literal::UInt(v) => LiteralView::UInt(*v),
            Literal::UInt64(v) => LiteralView::UInt64(*v),
            Literal::UInt128(v) => LiteralView::UInt128(*v),
            Literal::Float(s) => LiteralView::Float(s@),
            Literal::Float64(s) => LiteralView::Float64(s@),
            Literal::Char(s) => LiteralView::Char(s@),
            Literal::Boolean(b) => LiteralView::Boolean(*b),
            Literal::Str(s) => LiteralView::Str(s@),
            Literal::Unexpected(s) => LiteralView::Unexpected(s@),
        }
    }
}

/// An expression. Each node owns its children.
#[derive(Debug, PartialEq, Eq)]
pub enum Expression {
    Literal(Literal),
    Binary { lhs: Box<Expression>, op: BinaryOp, rhs: Box<Expression> },
    Ident(String),
    FuncCall { ident: String, args: Vec<Expression> },
}

/// An expression as a mathematical value.
pub enum ExprView {
    Literal(LiteralView),
    Binary { lhs: Box<ExprView>, op: BinaryOp, rhs: Box<ExprView> },
    Ident(Seq<char>),
    FuncCall { ident: Seq<char>, args: Seq<ExprView> },
}

/// The mathematical value of an expression.
pub open spec fn expr_view(e: Expression) -> ExprView
    decreases e,
{
    match e {
        Expression::Literal(l) => ExprView::Literal(l@),
        Expression::Binary { lhs, op, rhs } => ExprView::Binary {
            lhs: Box::new(expr_view(*lhs)),
            op,
            rhs: Box::new(expr_view(*rhs)),
        },
        Expression::Ident(s) => ExprView::Ident(s@),
        Expression::FuncCall { ident, args } => ExprView::FuncCall {
            ident: ident@,
            args: Seq::new(
                args@.len(),
                |i: int|
                    if 0 <= i < args@.len() {
                        expr_view(args@[i])
                    } else {
                        ExprView::Ident(Seq::empty())
                    },
            ),
        },
    }
}

impl View for Expression {
    type V = ExprView;

    open spec fn view(&self) -> ExprView {
        expr_view(*self)
    }
}

/// A sequence of statements, in source order.
#[derive(Debug, PartialEq, Eq)]
pub struct Block {
    pub block: Vec<Statement>,
}

/// A statement.
#[derive(Debug, PartialEq, Eq)]
pub enum Statement {
    /// `{ ... }`
    Block(Block),
    /// `fn name(param <op> type, ...) { ... }`
    FuncDecl { ident: String, params: Vec<(String, Behaviour, String)>, body: Block },
    /// `let [mut] name [: type] <op> value;`; `ty` is empty when no type
    /// is written.
    VariableDecl { ident: String, ty: String, mutable: bool, behaviour: Behaviour, value: Expression },
    /// `return value`
    Return(Expression),
    /// A conditional, with its optional `else` block.
    If { cond: Expression, block: Block, els: Option<Block> },
    /// The end of the input.
    Eof,
}

/// A parameter of a function as a mathematical value: its name, how it
/// is bound, and the name of its type.
pub struct ParamView {
    pub name: Seq<char>,
    pub behaviour: Behaviour,
    pub ty: Seq<char>,
}

/// A statement as a mathematical value.
pub enum StmtView {
    Block(Seq<StmtView>),
    FuncDecl { ident: Seq<char>, params: Seq<ParamView>, body: Seq<StmtView> },
    VariableDecl {
        ident: Seq<char>,
        ty: Seq<char>,
        mutable: bool,
        behaviour: Behaviour,
        value: ExprView,
    },
    Return(ExprView),
    If { cond: ExprView, block: Seq<StmtView>, els: Option<Seq<StmtView>> },
    Eof,
}

/// The mathematical value of a list of parameters.
pub open spec fn params_view(params: Seq<(String, Behaviour, String)>) -> Seq<ParamView> {
    Seq::new(
        params.len(),
        |i: int| ParamView { name: params[i].0@, behaviour: params[i].1, ty: params[i].2@ },
    )
}

/// The mathematical value of a block: that of each statement, in order.
pub open spec fn block_view(b: Block) -> Seq<StmtView>
    decreases b,
{
    Seq::new(
        b.block@.len(),
        |i: int|
            if 0 <= i < b.block@.len() {
                stmt_view(b.block@[i])
            } else {
                StmtView::Eof
            },
    )
}

/// The mathematical value of a statement.
pub open spec fn stmt_view(s: Statement) -> StmtView
    decreases s,
{
    match s {
        Statement::Block(b) => StmtView::Block(block_view(b)),
        Statement::FuncDecl { ident, params, body } => StmtView::FuncDecl {
            ident: ident@,
            params: params_view(params@),
            body: block_view(body),
        },
        Statement::VariableDecl { ident, ty, mutable, behaviour, value } => StmtView::VariableDecl {
            ident: ident@,
            ty: ty@,
            mutable,
            behaviour,
            value: value@,
        },
        Statement::Return(e) => StmtView::Return(e@),
        Statement::If { cond, block, els } => StmtView::If {
            cond: cond@,
            block: block_view(block),
            els: match els {
                Some(b) => Some(block_view(b)),
                None => None,
            },
        },
        Statement::Eof => StmtView::Eof,
    }
}

impl View for Block {
    type V = Seq<StmtView>;

    open spec fn view(&self) -> Seq<StmtView> {
        block_view(*self)
    }
}

impl View for Statement {
    type V = StmtView;

    open spec fn view(&self) -> StmtView {
        stmt_view(*self)
    }
}

} // verus!
