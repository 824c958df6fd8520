//! The parser: from tokens to expressions and statements.

use crate::ast::{
    block_view, keyword_name, params_view, Behaviour, BinaryOp, Block, ExprView, Expression,
    KeyWord, Literal, ParamView, Statement, StmtView,
};
use crate::chars::str_eq;
use crate::grammar::{
    behaviour_of, cons, is_keyword, kind_at, lemma_significant, operator_at, precedence,
    remaining, significant_at, significant_view_at, skipped, spec_args, spec_binary, spec_block,
    spec_block_stmt, spec_expr, spec_func_decl, spec_ident, spec_more_args, spec_params,
    spec_primary, spec_return, spec_stmt, spec_var_decl, text_at, used_by, wrap, OpAt, Parsed,
};
use crate::lexer::{column_at, lemma_token_advances, line_at, Lexer};
use crate::literal::{literal_value, make_ident, make_lit};
use crate::token::{Token, TokenKind};
use vstd::prelude::*;
use vstd::string::StringExecFns;

verus! {

/// How deep parentheses, calls and blocks may nest.
pub const MAX_DEPTH: usize = 256;

/// Why a statement or an expression could not be parsed.
#[derive(Debug, Clone, Copy, PartialEq, Eq, Structural)]
pub enum ParseErrorKind {
    /// The `)` that closes a parenthesis is missing.
    UnclosedParen,
    /// An identifier was expected.
    ExpectedIdentifier,
    /// A keyword stands where an identifier was expected.
    KeywordAsIdentifier(KeyWord),
    /// An argument of a call is no expression.
    InvalidArgument,
    /// Neither `,` nor `)` follows an argument.
    ExpectedComma,
    /// A literal, an identifier or `(` was expected.
    ExpectedPrimary,
    /// No literal, identifier or `(` follows an operator.
    ExpectedOperand,
    /// No `;` follows a variable declaration.
    MissingSemicolon,
    /// A statement was expected.
    ExpectedStatement,
    /// No `(` follows the name of a function.
    ExpectedParamList,
    /// None of `=`, `->` and `<-` follows the name of a parameter.
    ExpectedParamBinding,
    /// No block follows the signature of a function.
    ExpectedFunctionBody,
    /// No identifier follows `let`.
    ExpectedVariableName,
    /// No type name follows the `:` of a variable declaration.
    ExpectedTypeName,
    /// The operator of a variable declaration is none of `=`, `->` and
    /// `<-`.
    InvalidBinding,
    /// The value of a variable is no expression.
    InvalidValue,
    /// A variable is declared without a value.
    MissingInitializer,
    /// No expression follows `return`.
    ExpectedReturnValue,
    /// The input ends inside a block.
    UnclosedBlock,
    /// Parentheses, calls or blocks nest deeper than `MAX_DEPTH`.
    NestingTooDeep,
}

/// A syntax error: what went wrong, and the line and column at which the
/// lexer stood then.
#[derive(Debug, Clone, Copy, PartialEq, Eq, Structural)]
pub struct ParseError {
    pub kind: ParseErrorKind,
    pub line: usize,
    pub column: usize,
}

/// What an error of the given kind says.
pub open spec fn error_text(kind: ParseErrorKind) -> Seq<char> {
    match kind {
        ParseErrorKind::UnclosedParen => "Error: Unclosed '('."@,
        ParseErrorKind::ExpectedIdentifier => "Expected an <identifier>."@,
        ParseErrorKind::KeywordAsIdentifier(k) => "Expected an <identifier>, found keyword "@
            + keyword_name(k),
        ParseErrorKind::InvalidArgument => "Error: arguments for a function must be an expression."@,
        ParseErrorKind::ExpectedComma => "Error: Expected a ',' after the argument"@,
        ParseErrorKind::ExpectedPrimary => "Error: Unexpected token: Expected <literal>, <identifier> or '('."@,
        ParseErrorKind::ExpectedOperand => "Error: Expected <literal>, <identifier> or '(' after operator."@,
        ParseErrorKind::MissingSemicolon => "There must be a ';' after a <statement>."@,
        ParseErrorKind::ExpectedStatement => "Error: Expected <statement>."@,
        ParseErrorKind::ExpectedParamList => "Expected a '(' after the function name."@,
        ParseErrorKind::ExpectedParamBinding => "Expected '=', '->' or '<-' after the parameter name"@,
        ParseErrorKind::ExpectedFunctionBody => "Expected a block as function body after function signature."@,
        ParseErrorKind::ExpectedVariableName => "Expected <identifier> after keyword 'let'."@,
        ParseErrorKind::ExpectedTypeName => "Expected <type-name> after ':' in variable declaring."@,
        ParseErrorKind::InvalidBinding => "The assignment operator must be '=', '->' or '<-' "@,
        ParseErrorKind::InvalidValue => "Error: Value of the variable must be a expression."@,
        ParseErrorKind::MissingInitializer => "Must initialize the variable when declare it."@,
        ParseErrorKind::ExpectedReturnValue => "Error: Expected <expr> after keyword 'return'."@,
        ParseErrorKind::UnclosedBlock => "Error: Unclosed '{'."@,
        ParseErrorKind::NestingTooDeep => "Error: nesting is too deep."@,
    }
}

impl ParseErrorKind {
    /// What an error of this kind says.
    pub fn message(&self) -> (s: String)
        ensures
            s@ == error_text(*self),
    {
        match self {
            ParseErrorKind::UnclosedParen => "Error: Unclosed '('.".to_owned(),
            ParseErrorKind::ExpectedIdentifier => "Expected an <identifier>.".to_owned(),
            ParseErrorKind::KeywordAsIdentifier(k) => {
                let name = k.to_string();
                "Expected an <identifier>, found keyword ".to_owned().concat(name.as_str())
            },
            ParseErrorKind::InvalidArgument => "Error: arguments for a function must be an expression.".to_owned(),
            ParseErrorKind::ExpectedComma => "Error: Expected a ',' after the argument".to_owned(),
            ParseErrorKind::ExpectedPrimary => "Error: Unexpected token: Expected <literal>, <identifier> or '('.".to_owned(),
            ParseErrorKind::ExpectedOperand => "Error: Expected <literal>, <identifier> or '(' after operator.".to_owned(),
            ParseErrorKind::MissingSemicolon => "There must be a ';' after a <statement>.".to_owned(),
            ParseErrorKind::ExpectedStatement => "Error: Expected <statement>.".to_owned(),
            ParseErrorKind::ExpectedParamList => "Expected a '(' after the function name.".to_owned(),
            ParseErrorKind::ExpectedParamBinding => "Expected '=', '->' or '<-' after the parameter name".to_owned(),
            ParseErrorKind::ExpectedFunctionBody => "Expected a block as function body after function signature.".to_owned(),
            ParseErrorKind::ExpectedVariableName => "Expected <identifier> after keyword 'let'.".to_owned(),
            ParseErrorKind::ExpectedTypeName => "Expected <type-name> after ':' in variable declaring.".to_owned(),
            ParseErrorKind::InvalidBinding => "The assignment operator must be '=', '->' or '<-' ".to_owned(),
            ParseErrorKind::InvalidValue => "Error: Value of the variable must be a expression.".to_owned(),
            ParseErrorKind::MissingInitializer => "Must initialize the variable when declare it.".to_owned(),
            ParseErrorKind::ExpectedReturnValue => "Error: Expected <expr> after keyword 'return'.".to_owned(),
            ParseErrorKind::UnclosedBlock => "Error: Unclosed '{'.".to_owned(),
            ParseErrorKind::NestingTooDeep => "Error: nesting is too deep.".to_owned(),
        }
    }
}

/// Whether what a parse returned is what the grammar gives: the tree, or
/// the kind of the error with the line and column reached; and the
/// characters taken, which lie within the source.
pub open spec fn outcome<T: View>(
    r: Result<T, ParseError>,
    p: Parsed<T::V>,
    s: Seq<char>,
    before: int,
    after: int,
) -> bool {
    &&& after == before + p.used
    &&& 0 <= after <= s.len()
    &&& match r {
        Ok(v) => p.result == Ok::<T::V, ParseErrorKind>(v@),
        Err(e) => p.result == Err::<T::V, ParseErrorKind>(e.kind) && e.line == line_at(s, after)
            && e.column == column_at(s, after),
    }
}

/// The parser: a lexer, from which it takes the tokens that are neither
/// whitespace nor comments.
pub struct Parser {
    lex: Lexer,
}

fn is_skipped(kind: &TokenKind) -> (r: bool)
    ensures
        r == skipped(kind@),
{
    match kind {
        TokenKind::Space => true,
        TokenKind::LineComment => true,
        TokenKind::BlockComment { .. } => true,
        _ => false,
    }
}

/// The precedence of an operator, or -1 if it has none.
pub fn precedence_of(op: BinaryOp) -> (p: i32)
    ensures
        p == precedence(op),
        -1 <= p <= 15,
{
    match op {
        BinaryOp::OrEq | BinaryOp::AndEq | BinaryOp::XorEq => 0,
        BinaryOp::LshEq | BinaryOp::RshEq => 1,
        BinaryOp::AddEq | BinaryOp::SubEq => 2,
        BinaryOp::MulEq | BinaryOp::DivEq | BinaryOp::ModEq => 3,
        BinaryOp::Assign => 4,
        BinaryOp::LogicalOr => 5,
        BinaryOp::LogicalAnd | BinaryOp::LogicalNot => 6,
        BinaryOp::Lt | BinaryOp::Lte | BinaryOp::Gt | BinaryOp::Gte => 7,
        BinaryOp::Eq | BinaryOp::Ne => 8,
        BinaryOp::Or => 9,
        BinaryOp::Xor => 10,
        BinaryOp::And | BinaryOp::Not => 11,
        BinaryOp::Lsh | BinaryOp::Rsh => 12,
        BinaryOp::Add | BinaryOp::Sub => 13,
        BinaryOp::Mul | BinaryOp::Div | BinaryOp::Mod => 14,
        BinaryOp::Scope => 15,
        BinaryOp::Ref | BinaryOp::Move | BinaryOp::Is => -1,
    }
}

fn binding(op: BinaryOp) -> (r: Option<Behaviour>)
    ensures
        r == behaviour_of(op),
{
    match op {
        BinaryOp::Assign => Some(Behaviour::Copy),
        BinaryOp::Ref => Some(Behaviour::Ref),
        BinaryOp::Move => Some(Behaviour::Move),
        _ => None,
    }
}

fn wrap_error(inner: ParseError, outer: ParseErrorKind) -> (e: ParseError)
    ensures
        e.kind == wrap(inner.kind, outer),
        e.line == inner.line,
        e.column == inner.column,
{
    match inner.kind {
        ParseErrorKind::NestingTooDeep => inner,
        ParseErrorKind::KeywordAsIdentifier(_) => inner,
        _ => ParseError { kind: outer, line: inner.line, column: inner.column },
    }
}

impl Parser {
    /// The source text.
    pub closed spec fn source(&self) -> Seq<char> {
        self.lex.source()
    }

    /// The index of the next character in the source.
    pub closed spec fn offset(&self) -> int {
        self.lex.offset()
    }

    /// A parser that takes its tokens from `lex`, from where it stands.
    pub fn new(lex: Lexer) -> (parser: Parser)
        ensures
            parser.source() == lex.source(),
            parser.offset() == lex.offset(),
    {
        Parser { lex }
    }

    /// The index of the next character in the source.
    pub fn position(&self) -> (pos: usize)
        ensures
            pos == self.offset(),
            pos <= self.source().len(),
    {
        self.lex.position()
    }

    /// The first token at or behind `from` that is neither whitespace nor
    /// a comment, and its end. The parser stays where it is.
    fn peek_from(&self, from: usize) -> (r: (Token, usize))
        requires
            self.offset() <= from <= self.source().len(),
        ensures
            r.0@ == significant_view_at(self.source(), from as int),
            r.1 == significant_at(self.source(), from as int).end,
            r.1 == from + used_by(self.source(), from as int),
            from <= r.1 <= self.source().len(),
    {
        let mut at: usize = from;
        proof {
            lemma_significant(self.source(), from as int);
        }
        loop
            invariant
                self.offset() <= from <= at <= self.source().len(),
                significant_at(self.source(), from as int) == significant_at(
                    self.source(),
                    at as int,
                ),
            decreases self.source().len() - at,
        {
            let (tok, end) = self.lex.token_from(at);
            if !is_skipped(&tok.kind) {
                return (tok, end);
            }
            proof {
                lemma_token_advances(self.source(), at as int);
            }
            at = end;
        }
    }

    /// The next token, without taking it.
    fn lookahead(&self) -> (tok: Token)
        ensures
            tok@ == significant_view_at(self.source(), self.offset()),
            0 <= self.offset() <= self.source().len(),
    {
        let from = self.position();
        self.peek_from(from).0
    }

    /// Takes the next token. At the end of the input it is `Eof`, again
    /// and again.
    fn next(&mut self) -> (tok: Token)
        ensures
            final(self).source() == old(self).source(),
            0 <= old(self).offset() <= final(self).offset() <= old(self).source().len(),
            tok@ == significant_view_at(old(self).source(), old(self).offset()),
            final(self).offset() == old(self).offset() + used_by(
                old(self).source(),
                old(self).offset(),
            ),
    {
        let from = self.position();
        let (tok, end) = self.peek_from(from);
        self.lex.advance_to(end);
        tok
    }

    /// Takes the next token and drops it.
    fn eat(&mut self)
        ensures
            final(self).source() == old(self).source(),
            0 <= old(self).offset() <= final(self).offset() <= old(self).source().len(),
            final(self).offset() == old(self).offset() + used_by(
                old(self).source(),
                old(self).offset(),
            ),
    {
        let _ = self.next();
    }

    /// Whether the next token is of the given kind.
    fn match_tok(&self, kind: &TokenKind) -> (r: bool)
        ensures
            r == (kind_at(self.source(), self.offset()) == kind@),
            0 <= self.offset() <= self.source().len(),
    {
        self.lookahead().kind.same(kind)
    }

    /// Whether the next token is the given keyword.
    fn match_keyword(&self, k: KeyWord) -> (r: bool)
        ensures
            r == is_keyword(significant_at(self.source(), self.offset()), k),
            0 <= self.offset() <= self.source().len(),
    {
        let tok = self.lookahead();
        match tok.kind {
            TokenKind::Ident => match KeyWord::try_from(tok.content.as_str()) {
                Some(found) => found == k,
                None => false,
            },
            _ => false,
        }
    }

    /// The error of the given kind at the line and column reached.
    fn error(&self, kind: ParseErrorKind) -> (e: ParseError)
        ensures
            e.kind == kind,
            e.line == line_at(self.source(), self.offset()),
            e.column == column_at(self.source(), self.offset()),
    {
        ParseError { kind, line: self.lex.line(), column: self.lex.column() }
    }

    /// Whether anything but whitespace and comments is left.
    pub fn has_content(&self) -> (r: bool)
        ensures
            r == !(kind_at(self.source(), self.offset()) is Eof),
    {
        !self.match_tok(&TokenKind::Eof)
    }

    /// The operator that begins at `from`, and its end.
    fn peek_op(&self, from: usize) -> (r: Option<(BinaryOp, usize)>)
        requires
            self.offset() <= from <= self.source().len(),
        ensures
            match r {
                Some((op, end)) => from < end <= self.source().len() && operator_at(
                    self.source(),
                    from as int,
                ) == Some(OpAt { op, used: (end - from) as nat }),
                None => operator_at(self.source(), from as int) is None,
            },
    {
        let (t1, e1) = self.peek_from(from);
        proof {
            reveal(operator_at);
            lemma_significant(self.source(), from as int);
            lemma_significant(self.source(), e1 as int);
        }
        match t1.kind {
            TokenKind::Plus => {
                let (t2, e2) = self.peek_from(e1);
                match t2.kind {
                    TokenKind::Equal => Some((BinaryOp::AddEq, e2)),
                    _ => Some((BinaryOp::Add, e1)),
                }
            },
            TokenKind::Minus => {
                let (t2, e2) = self.peek_from(e1);
                match t2.kind {
                    TokenKind::Equal => Some((BinaryOp::SubEq, e2)),
                    TokenKind::Ge => Some((BinaryOp::Ref, e2)),
                    _ => Some((BinaryOp::Sub, e1)),
                }
            },
            TokenKind::Star => {
                let (t2, e2) = self.peek_from(e1);
                match t2.kind {
                    TokenKind::Equal => Some((BinaryOp::MulEq, e2)),
                    _ => Some((BinaryOp::Mul, e1)),
                }
            },
            TokenKind::Slash => {
                let (t2, e2) = self.peek_from(e1);
                match t2.kind {
                    TokenKind::Equal => Some((BinaryOp::DivEq, e2)),
                    _ => Some((BinaryOp::Div, e1)),
                }
            },
            TokenKind::Percent => {
                let (t2, e2) = self.peek_from(e1);
                match t2.kind {
                    TokenKind::Equal => Some((BinaryOp::ModEq, e2)),
                    _ => Some((BinaryOp::Mod, e1)),
                }
            },
            TokenKind::And => {
                let (t2, e2) = self.peek_from(e1);
                match t2.kind {
                    TokenKind::And => Some((BinaryOp::LogicalAnd, e2)),
                    TokenKind::Equal => Some((BinaryOp::AndEq, e2)),
                    _ => Some((BinaryOp::And, e1)),
                }
            },
            TokenKind::Or => {
                let (t2, e2) = self.peek_from(e1);
                match t2.kind {
                    TokenKind::Or => Some((BinaryOp::LogicalOr, e2)),
                    TokenKind::Equal => Some((BinaryOp::OrEq, e2)),
                    _ => Some((BinaryOp::Or, e1)),
                }
            },
            TokenKind::Caret => {
                let (t2, e2) = self.peek_from(e1);
                match t2.kind {
                    TokenKind::Equal => Some((BinaryOp::XorEq, e2)),
                    _ => Some((BinaryOp::Xor, e1)),
                }
            },
            TokenKind::Not => Some((BinaryOp::Not, e1)),
            TokenKind::Le => {
                let (t2, e2) = self.peek_from(e1);
                proof {
                    lemma_significant(self.source(), e2 as int);
                }
                match t2.kind {
                    TokenKind::Le => {
                        let (t3, e3) = self.peek_from(e2);
                        match t3.kind {
                            TokenKind::Equal => Some((BinaryOp::LshEq, e3)),
                            _ => Some((BinaryOp::Lsh, e2)),
                        }
                    },
                    TokenKind::Equal => Some((BinaryOp::Lte, e2)),
                    TokenKind::Minus => Some((BinaryOp::Move, e2)),
                    _ => Some((BinaryOp::Lt, e1)),
                }
            },
            TokenKind::Ge => {
                let (t2, e2) = self.peek_from(e1);
                proof {
                    lemma_significant(self.source(), e2 as int);
                }
                match t2.kind {
                    TokenKind::Ge => {
                        let (t3, e3) = self.peek_from(e2);
                        match t3.kind {
                            TokenKind::Equal => Some((BinaryOp::RshEq, e3)),
                            _ => Some((BinaryOp::Rsh, e2)),
                        }
                    },
                    TokenKind::Equal => Some((BinaryOp::Gte, e2)),
                    _ => Some((BinaryOp::Gt, e1)),
                }
            },
            TokenKind::Exclamation => {
                let (t2, e2) = self.peek_from(e1);
                match t2.kind {
                    TokenKind::Equal => Some((BinaryOp::Ne, e2)),
                    _ => Some((BinaryOp::LogicalNot, e1)),
                }
            },
            TokenKind::Equal => Some((BinaryOp::Assign, e1)),
            TokenKind::Colon => {
                let (t2, e2) = self.peek_from(e1);
                match t2.kind {
                    TokenKind::Colon => Some((BinaryOp::Scope, e2)),
                    _ => Some((BinaryOp::Is, e1)),
                }
            },
            _ => None,
        }
    }

    /// Takes the operator that the next tokens spell, if they spell one:
    /// the longest that they spell. Else nothing is taken.
    fn next_tok_is_op(&mut self) -> (r: Option<BinaryOp>)
        ensures
            final(self).source() == old(self).source(),
            0 <= old(self).offset() <= final(self).offset() <= old(self).source().len(),
            match r {
                Some(op) => operator_at(old(self).source(), old(self).offset()) == Some(
                    OpAt { op, used: (final(self).offset() - old(self).offset()) as nat },
                ) && final(self).offset() > old(self).offset(),
                None => final(self).offset() == old(self).offset() && operator_at(
                    old(self).source(),
                    old(self).offset(),
                ) is None,
            },
    {
        let from = self.position();
        match self.peek_op(from) {
            Some((op, end)) => {
                self.lex.advance_to(end);
                Some(op)
            },
            None => None,
        }
    }

    /// Takes the next token, which must be an identifier and no keyword.
    fn parse_ident(&mut self) -> (r: Result<String, ParseError>)
        ensures
            final(self).source() == old(self).source(),
            outcome(
                r,
                spec_ident(old(self).source(), old(self).offset()),
                old(self).source(),
                old(self).offset(),
                final(self).offset(),
            ),
    {
        let tok = self.next();
        match tok.kind {
            TokenKind::Ident => match KeyWord::try_from(tok.content.as_str()) {
                Some(k) => Err(self.error(ParseErrorKind::KeywordAsIdentifier(k))),
                None => Ok(tok.content),
            },
            _ => Err(self.error(ParseErrorKind::ExpectedIdentifier)),
        }
    }
}

/// The mathematical values of a list of expressions.
pub open spec fn exprs_view(v: Seq<Expression>) -> Seq<ExprView> {
    Seq::new(v.len(), |i: int| v[i]@)
}

/// As `outcome`, for a list of expressions.
pub open spec fn outcome_exprs(
    r: Result<Vec<Expression>, ParseError>,
    p: Parsed<Seq<ExprView>>,
    s: Seq<char>,
    before: int,
    after: int,
) -> bool {
    &&& after == before + p.used
    &&& 0 <= after <= s.len()
    &&& match r {
        Ok(v) => p.result == Ok::<Seq<ExprView>, ParseErrorKind>(exprs_view(v@)),
        Err(e) => p.result == Err::<Seq<ExprView>, ParseErrorKind>(e.kind) && e.line == line_at(
            s,
            after,
        ) && e.column == column_at(s, after),
    }
}

/// The items `done`, for which `used` characters were taken, before
/// those that `rest` gives.
pub open spec fn prefixed<T>(done: Seq<T>, used: nat, rest: Parsed<Seq<T>>) -> Parsed<Seq<T>> {
    Parsed {
        result: match rest.result {
            Ok(items) => Ok(done + items),
            Err(e) => Err(e),
        },
        used: used + rest.used,
    }
}

/// What `rest` gives, `used` characters further on.
pub open spec fn shifted<T>(used: nat, rest: Parsed<T>) -> Parsed<T> {
    Parsed { result: rest.result, used: used + rest.used }
}

proof fn lemma_prefixed_cons<T>(done: Seq<T>, used: nat, x: T, n: nat, rest: Parsed<Seq<T>>)
    ensures
        prefixed(done, used, cons(x, n, rest)) == prefixed(done.push(x), used + n, rest),
{
    if let Ok(items) = rest.result {
        assert(done + (seq![x] + items) =~= done.push(x) + items);
    }
}

proof fn lemma_prefixed_start<T>(rest: Parsed<Seq<T>>)
    ensures
        prefixed(Seq::<T>::empty(), 0, rest) == rest,
{
    if let Ok(items) = rest.result {
        assert(Seq::<T>::empty() + items =~= items);
    }
}

proof fn lemma_exprs_push(v: Seq<Expression>, e: Expression)
    ensures
        exprs_view(v.push(e)) == exprs_view(v).push(e@),
{
    assert(exprs_view(v.push(e)) =~= exprs_view(v).push(e@));
}

proof fn lemma_call_view(ident: String, args: Vec<Expression>)
    ensures
        (Expression::FuncCall { ident, args })@ == (ExprView::FuncCall {
            ident: ident@,
            args: exprs_view(args@),
        }),
{
    let e = Expression::FuncCall { ident, args };
    assert(e@->FuncCall_args =~= exprs_view(args@));
}

impl Parser {
    /// Takes the next token, which is a literal, and builds its value.
    fn parse_literal(&mut self) -> (e: Expression)
        requires
            kind_at(old(self).source(), old(self).offset()) is Literal,
        ensures
            final(self).source() == old(self).source(),
            0 <= final(self).offset() <= old(self).source().len(),
            final(self).offset() == old(self).offset() + used_by(
                old(self).source(),
                old(self).offset(),
            ),
            e@ == ExprView::Literal(
                literal_value(
                    kind_at(old(self).source(), old(self).offset()),
                    text_at(old(self).source(), old(self).offset()),
                ),
            ),
    {
        let tok = self.next();
        make_lit(tok)
    }

    /// An expression in parentheses; the next token is the `(`.
    fn parse_paren(&mut self, depth: usize) -> (r: Result<Expression, ParseError>)
        requires
            depth <= MAX_DEPTH,
            kind_at(old(self).source(), old(self).offset()) is LeftParen,
        ensures
            final(self).source() == old(self).source(),
            outcome(
                r,
                spec_primary(old(self).source(), old(self).offset(), depth as nat),
                old(self).source(),
                old(self).offset(),
                final(self).offset(),
            ),
        decreases remaining(old(self).source(), old(self).offset()), 0int,
    {
        proof {
            lemma_significant(self.source(), self.offset());
        }
        self.eat();
        if depth >= MAX_DEPTH {
            return Err(self.error(ParseErrorKind::NestingTooDeep));
        }
        let inner = match self.expr(depth + 1) {
            Err(e) => {
                return Err(e);
            },
            Ok(inner) => inner,
        };
        if self.match_tok(&TokenKind::RightParen) {
            self.eat();
            Ok(inner)
        } else {
            Err(self.error(ParseErrorKind::UnclosedParen))
        }
    }

    /// An identifier, or a call if `(` follows it; the next token is an
    /// identifier.
    fn parse_ident_or_call(&mut self, depth: usize) -> (r: Result<Expression, ParseError>)
        requires
            depth <= MAX_DEPTH,
            kind_at(old(self).source(), old(self).offset()) is Ident,
            text_at(old(self).source(), old(self).offset()) != "true"@,
            text_at(old(self).source(), old(self).offset()) != "false"@,
        ensures
            final(self).source() == old(self).source(),
            outcome(
                r,
                spec_primary(old(self).source(), old(self).offset(), depth as nat),
                old(self).source(),
                old(self).offset(),
                final(self).offset(),
            ),
        decreases remaining(old(self).source(), old(self).offset()), 0int,
    {
        proof {
            lemma_significant(self.source(), self.offset());
        }
        let name = match self.parse_ident() {
            Err(e) => {
                return Err(e);
            },
            Ok(name) => name,
        };
        proof {
            lemma_significant(self.source(), self.offset());
        }
        if !self.match_tok(&TokenKind::LeftParen) {
            return Ok(make_ident(name));
        }
        self.eat();
        if depth >= MAX_DEPTH {
            return Err(self.error(ParseErrorKind::NestingTooDeep));
        }
        let args = match self.call_args(depth + 1) {
            Err(e) => {
                return Err(e);
            },
            Ok(args) => args,
        };
        proof {
            lemma_call_view(name, args);
        }
        Ok(Expression::FuncCall { ident: name, args })
    }

    fn primary(&mut self, depth: usize) -> (r: Result<Expression, ParseError>)
        requires
            depth <= MAX_DEPTH,
        ensures
            final(self).source() == old(self).source(),
            outcome(
                r,
                spec_primary(old(self).source(), old(self).offset(), depth as nat),
                old(self).source(),
                old(self).offset(),
                final(self).offset(),
            ),
        decreases remaining(old(self).source(), old(self).offset()), 1int,
    {
        let tok = self.lookahead();
        match &tok.kind {
            TokenKind::Literal { .. } => Ok(self.parse_literal()),
            TokenKind::Ident => {
                if str_eq(tok.content.as_str(), "true") {
                    self.eat();
                    Ok(Expression::Literal(Literal::Boolean(true)))
                } else if str_eq(tok.content.as_str(), "false") {
                    self.eat();
                    Ok(Expression::Literal(Literal::Boolean(false)))
                } else {
                    self.parse_ident_or_call(depth)
                }
            },
            TokenKind::LeftParen => self.parse_paren(depth),
            _ => Err(self.error(ParseErrorKind::ExpectedPrimary)),
        }
    }

    /// The arguments of a call, from behind its `(` to its `)`.
    fn call_args(&mut self, depth: usize) -> (r: Result<Vec<Expression>, ParseError>)
        requires
            depth <= MAX_DEPTH,
        ensures
            final(self).source() == old(self).source(),
            outcome_exprs(
                r,
                spec_args(old(self).source(), old(self).offset(), depth as nat),
                old(self).source(),
                old(self).offset(),
                final(self).offset(),
            ),
        decreases remaining(old(self).source(), old(self).offset()), 5int,
    {
        let mut args: Vec<Expression> = Vec::new();
        let ghost s = self.source();
        let ghost start = self.offset();
        if self.match_tok(&TokenKind::RightParen) {
            self.eat();
            assert(exprs_view(args@) =~= Seq::<ExprView>::empty());
            return Ok(args);
        }
        proof {
            lemma_prefixed_start(spec_more_args(s, start, depth as nat));
            assert(exprs_view(args@) =~= Seq::<ExprView>::empty());
        }
        loop
            invariant
                depth <= MAX_DEPTH,
                s == old(self).source(),
                start == old(self).offset(),
                !(kind_at(s, start) is RightParen),
                self.source() == s,
                start <= self.offset() <= s.len(),
                spec_more_args(s, start, depth as nat) == prefixed(
                    exprs_view(args@),
                    (self.offset() - start) as nat,
                    spec_more_args(s, self.offset(), depth as nat),
                ),
            decreases remaining(s, self.offset()),
        {
            let ghost here = self.offset();
            let ghost done = args@;
            let arg = match self.expr(depth) {
                Err(e) => {
                    return Err(wrap_error(e, ParseErrorKind::InvalidArgument));
                },
                Ok(arg) => arg,
            };
            let ghost after = self.offset();
            proof {
                lemma_significant(s, after);
                lemma_exprs_push(done, arg);
                lemma_prefixed_cons(
                    exprs_view(done),
                    (here - start) as nat,
                    arg@,
                    (after - here) as nat + used_by(s, after),
                    spec_more_args(s, after + used_by(s, after), depth as nat),
                );
                assert(exprs_view(done) + seq![arg@] =~= exprs_view(done).push(arg@));
            }
            args.push(arg);
                if self.match_tok(&TokenKind::RightParen) {
                self.eat();
                return Ok(args);
            }
            if !self.match_tok(&TokenKind::Comma) {
                return Err(self.error(ParseErrorKind::ExpectedComma));
            }
            self.eat();
            }
    }

    fn expr(&mut self, depth: usize) -> (r: Result<Expression, ParseError>)
        requires
            depth <= MAX_DEPTH,
        ensures
            final(self).source() == old(self).source(),
            outcome(
                r,
                spec_expr(old(self).source(), old(self).offset(), depth as nat),
                old(self).source(),
                old(self).offset(),
                final(self).offset(),
            ),
        decreases remaining(old(self).source(), old(self).offset()), 3int,
    {
        let lhs = match self.primary(depth) {
            Err(e) => {
                return Err(e);
            },
            Ok(lhs) => lhs,
        };
        self.parse_binary_expr(0, lhs, depth)
    }

    /// The operators and operands behind `lhs`, as far as they bind at
    /// least as tightly as `min`.
    fn parse_binary_expr(&mut self, min: i32, lhs: Expression, depth: usize) -> (r: Result<
        Expression,
        ParseError,
    >)
        requires
            depth <= MAX_DEPTH,
            0 <= min <= 16,
        ensures
            final(self).source() == old(self).source(),
            outcome(
                r,
                spec_binary(
                    old(self).source(),
                    old(self).offset(),
                    min as int,
                    lhs@,
                    depth as nat,
                ),
                old(self).source(),
                old(self).offset(),
                final(self).offset(),
            ),
        decreases remaining(old(self).source(), old(self).offset()), 2int,
    {
        let mut left = lhs;
        let ghost s = self.source();
        let ghost start = self.offset();
        let ghost first = left@;
        loop
            invariant
                depth <= MAX_DEPTH,
                0 <= min <= 16,
                s == old(self).source(),
                start == old(self).offset(),
                first == lhs@,
                self.source() == s,
                start <= self.offset(),
                spec_binary(s, start, min as int, first, depth as nat) == shifted(
                    (self.offset() - start) as nat,
                    spec_binary(s, self.offset(), min as int, left@, depth as nat),
                ),
            decreases remaining(s, self.offset()),
        {
            let from = self.position();
            let (op, end) = match self.peek_op(from) {
                None => {
                    return Ok(left);
                },
                Some(found) => found,
            };
            let strength = precedence_of(op);
            if strength < min {
                return Ok(left);
            }
            self.lex.advance_to(end);
            let operand = match self.primary(depth) {
                Err(e) => {
                    return Err(wrap_error(e, ParseErrorKind::ExpectedOperand));
                },
                Ok(operand) => operand,
            };
            let at = self.position();
            let following = match self.peek_op(at) {
                Some((next, _)) => precedence_of(next),
                None => -1,
            };
            let rhs = if strength < following {
                match self.parse_binary_expr(strength + 1, operand, depth) {
                    Err(e) => {
                        return Err(e);
                    },
                    Ok(rhs) => rhs,
                }
            } else {
                operand
            };
            left = Expression::Binary { lhs: Box::new(left), op, rhs: Box::new(rhs) };
            }
    }

    /// Parses a primary expression: a literal; `true` or `false`; an
    /// identifier, or a call if `(` follows it; or an expression in
    /// parentheses. Any other token is an error, and nothing is taken.
    pub fn parse_primary(&mut self) -> (r: Result<Expression, ParseError>)
        ensures
            final(self).source() == old(self).source(),
            outcome(
                r,
                spec_primary(old(self).source(), old(self).offset(), 0),
                old(self).source(),
                old(self).offset(),
                final(self).offset(),
            ),
    {
        self.primary(0)
    }

    /// Parses an expression: a primary expression and the operators and
    /// operands that follow it, tighter operators first and operators
    /// of the same strength from the left.
    pub fn parse_expr(&mut self) -> (r: Result<Expression, ParseError>)
        ensures
            final(self).source() == old(self).source(),
            outcome(
                r,
                spec_expr(old(self).source(), old(self).offset(), 0),
                old(self).source(),
                old(self).offset(),
                final(self).offset(),
            ),
    {
        self.expr(0)
    }
}

/// The mathematical values of a list of statements.
pub open spec fn stmts_view(v: Seq<Statement>) -> Seq<StmtView> {
    Seq::new(v.len(), |i: int| v[i]@)
}

/// As `outcome`, for a list of parameters.
pub open spec fn outcome_params(
    r: Result<Vec<(String, Behaviour, String)>, ParseError>,
    p: Parsed<Seq<ParamView>>,
    s: Seq<char>,
    before: int,
    after: int,
) -> bool {
    &&& after == before + p.used
    &&& 0 <= after <= s.len()
    &&& match r {
        Ok(v) => p.result == Ok::<Seq<ParamView>, ParseErrorKind>(params_view(v@)),
        Err(e) => p.result == Err::<Seq<ParamView>, ParseErrorKind>(e.kind) && e.line == line_at(
            s,
            after,
        ) && e.column == column_at(s, after),
    }
}

proof fn lemma_stmts_push(v: Seq<Statement>, st: Statement)
    ensures
        stmts_view(v.push(st)) == stmts_view(v).push(st@),
{
    assert(stmts_view(v.push(st)) =~= stmts_view(v).push(st@));
}

proof fn lemma_params_push(v: Seq<(String, Behaviour, String)>, p: (String, Behaviour, String))
    ensures
        params_view(v.push(p)) == params_view(v).push(
            ParamView { name: p.0@, behaviour: p.1, ty: p.2@ },
        ),
{
    assert(params_view(v.push(p)) =~= params_view(v).push(
        ParamView { name: p.0@, behaviour: p.1, ty: p.2@ },
    ));
}

proof fn lemma_block_view(b: Block)
    ensures
        b@ == stmts_view(b.block@),
{
    assert(block_view(b) =~= stmts_view(b.block@));
}

impl Parser {
    /// The parameters of a function, from behind the `(` to the `)`.
    fn params(&mut self) -> (r: Result<Vec<(String, Behaviour, String)>, ParseError>)
        ensures
            final(self).source() == old(self).source(),
            outcome_params(
                r,
                spec_params(old(self).source(), old(self).offset()),
                old(self).source(),
                old(self).offset(),
                final(self).offset(),
            ),
    {
        let mut params: Vec<(String, Behaviour, String)> = Vec::new();
        let ghost s = self.source();
        let ghost start = self.offset();
        proof {
            lemma_prefixed_start(spec_params(s, start));
            assert(params_view(params@) =~= Seq::<ParamView>::empty());
        }
        loop
            invariant
                s == old(self).source(),
                start == old(self).offset(),
                self.source() == s,
                start <= self.offset(),
                spec_params(s, start) == prefixed(
                    params_view(params@),
                    (self.offset() - start) as nat,
                    spec_params(s, self.offset()),
                ),
            decreases remaining(s, self.offset()),
        {
            let ghost here = self.offset();
            let ghost done = params@;
            if self.match_tok(&TokenKind::RightParen) {
                self.eat();
                assert(params_view(done) + Seq::<ParamView>::empty() =~= params_view(done));
                return Ok(params);
            }
            if self.match_tok(&TokenKind::Comma) {
                self.eat();
            }
            proof {
                lemma_significant(s, self.offset());
            }
            let name = match self.parse_ident() {
                Err(e) => {
                    return Err(e);
                },
                Ok(name) => name,
            };
            let op = match self.next_tok_is_op() {
                None => {
                    return Err(self.error(ParseErrorKind::ExpectedParamBinding));
                },
                Some(op) => op,
            };
            let behaviour = match binding(op) {
                None => {
                    return Err(self.error(ParseErrorKind::ExpectedParamBinding));
                },
                Some(b) => b,
            };
            let ty = match self.parse_ident() {
                Err(e) => {
                    return Err(e);
                },
                Ok(ty) => ty,
            };
            let ghost after = self.offset();
            proof {
                lemma_params_push(done, (name, behaviour, ty));
                lemma_prefixed_cons(
                    params_view(done),
                    (here - start) as nat,
                    ParamView { name: name@, behaviour, ty: ty@ },
                    (after - here) as nat,
                    spec_params(s, after),
                );
            }
            params.push((name, behaviour, ty));
            }
    }

    fn var_decl(&mut self, depth: usize) -> (r: Result<Statement, ParseError>)
        requires
            depth <= MAX_DEPTH,
        ensures
            final(self).source() == old(self).source(),
            outcome(
                r,
                spec_var_decl(old(self).source(), old(self).offset(), depth as nat),
                old(self).source(),
                old(self).offset(),
                final(self).offset(),
            ),
    {
        let mutable = self.match_keyword(KeyWord::MUT);
        if mutable {
            self.eat();
        }
        let ident = match self.parse_ident() {
            Err(e) => {
                return Err(wrap_error(e, ParseErrorKind::ExpectedVariableName));
            },
            Ok(ident) => ident,
        };
        let mut ty = String::new();
        if self.match_tok(&TokenKind::Colon) {
            self.eat();
            ty =
            match self.parse_ident() {
                Err(e) => {
                    return Err(wrap_error(e, ParseErrorKind::ExpectedTypeName));
                },
                Ok(ty) => ty,
            };
        }
        let op = match self.next_tok_is_op() {
            None => {
                return Err(self.error(ParseErrorKind::MissingInitializer));
            },
            Some(op) => op,
        };
        let behaviour = match binding(op) {
            None => {
                return Err(self.error(ParseErrorKind::InvalidBinding));
            },
            Some(b) => b,
        };
        let value = match self.expr(depth) {
            Err(e) => {
                return Err(wrap_error(e, ParseErrorKind::InvalidValue));
            },
            Ok(value) => value,
        };
        Ok(Statement::VariableDecl { ident, ty, mutable, behaviour, value })
    }

    fn ret(&mut self, depth: usize) -> (r: Result<Statement, ParseError>)
        requires
            depth <= MAX_DEPTH,
        ensures
            final(self).source() == old(self).source(),
            outcome(
                r,
                spec_return(old(self).source(), old(self).offset(), depth as nat),
                old(self).source(),
                old(self).offset(),
                final(self).offset(),
            ),
    {
        match self.expr(depth) {
            Err(e) => Err(wrap_error(e, ParseErrorKind::ExpectedReturnValue)),
            Ok(value) => Ok(Statement::Return(value)),
        }
    }

    fn func_decl(&mut self, depth: usize) -> (r: Result<Statement, ParseError>)
        requires
            depth <= MAX_DEPTH,
        ensures
            final(self).source() == old(self).source(),
            outcome(
                r,
                spec_func_decl(old(self).source(), old(self).offset(), depth as nat),
                old(self).source(),
                old(self).offset(),
                final(self).offset(),
            ),
        decreases remaining(old(self).source(), old(self).offset()), 0int,
    {
        proof {
            lemma_significant(self.source(), self.offset());
        }
        let ident = match self.parse_ident() {
            Err(e) => {
                return Err(e);
            },
            Ok(ident) => ident,
        };
        if !self.match_tok(&TokenKind::LeftParen) {
            return Err(self.error(ParseErrorKind::ExpectedParamList));
        }
        self.eat();
        let params = match self.params() {
            Err(e) => {
                return Err(e);
            },
            Ok(params) => params,
        };
        if !self.match_tok(&TokenKind::LeftBrace) {
            return Err(self.error(ParseErrorKind::ExpectedFunctionBody));
        }
        self.eat();
        if depth >= MAX_DEPTH {
            return Err(self.error(ParseErrorKind::NestingTooDeep));
        }
        let body = match self.block(depth + 1) {
            Err(e) => {
                return Err(wrap_error(e, ParseErrorKind::ExpectedFunctionBody));
            },
            Ok(body) => body,
        };
        Ok(Statement::FuncDecl { ident, params, body })
    }

    fn block(&mut self, depth: usize) -> (r: Result<Block, ParseError>)
        requires
            depth <= MAX_DEPTH,
        ensures
            final(self).source() == old(self).source(),
            outcome(
                r,
                spec_block(old(self).source(), old(self).offset(), depth as nat),
                old(self).source(),
                old(self).offset(),
                final(self).offset(),
            ),
        decreases remaining(old(self).source(), old(self).offset()), 1int,
    {
        let mut items: Vec<Statement> = Vec::new();
        let ghost s = self.source();
        let ghost start = self.offset();
        proof {
            lemma_prefixed_start(spec_block(s, start, depth as nat));
            assert(stmts_view(items@) =~= Seq::<StmtView>::empty());
        }
        loop
            invariant
                depth <= MAX_DEPTH,
                s == old(self).source(),
                start == old(self).offset(),
                self.source() == s,
                start <= self.offset(),
                spec_block(s, start, depth as nat) == prefixed(
                    stmts_view(items@),
                    (self.offset() - start) as nat,
                    spec_block(s, self.offset(), depth as nat),
                ),
            decreases remaining(s, self.offset()),
        {
            let ghost done = items@;
            proof {
                lemma_significant(s, self.offset());
            }
            if self.match_tok(&TokenKind::RightBrace) {
                self.eat();
                let b = Block { block: items };
                proof {
                    lemma_block_view(b);
                    assert(stmts_view(done) + Seq::<StmtView>::empty() =~= stmts_view(done));
                }
                return Ok(b);
            }
            if self.match_tok(&TokenKind::Eof) {
                return Err(self.error(ParseErrorKind::UnclosedBlock));
            }
            let before = self.position();
            let st = match self.stmt(depth) {
                Err(e) => {
                    return Err(e);
                },
                Ok(st) => st,
            };
            let after = self.position();
            if after == before {
                return Err(self.error(ParseErrorKind::UnclosedBlock));
            }
            proof {
                lemma_stmts_push(done, st);
                lemma_prefixed_cons(
                    stmts_view(done),
                    (before - start) as nat,
                    st@,
                    (after - before) as nat,
                    spec_block(s, after as int, depth as nat),
                );
            }
            items.push(st);
        }
    }

    fn stmt(&mut self, depth: usize) -> (r: Result<Statement, ParseError>)
        requires
            depth <= MAX_DEPTH,
        ensures
            final(self).source() == old(self).source(),
            outcome(
                r,
                spec_stmt(old(self).source(), old(self).offset(), depth as nat),
                old(self).source(),
                old(self).offset(),
                final(self).offset(),
            ),
        decreases remaining(old(self).source(), old(self).offset()), 0int,
    {
        proof {
            lemma_significant(self.source(), self.offset());
        }
        let tok = self.lookahead();
        let keyword = match &tok.kind {
            TokenKind::Ident => KeyWord::try_from(tok.content.as_str()),
            _ => None,
        };
        let is_ident = tok.kind.same(&TokenKind::Ident);
        if is_ident && keyword == Some(KeyWord::FN) {
            self.eat();
            self.func_decl(depth)
        } else if is_ident && keyword == Some(KeyWord::LET) {
            self.eat();
            let st = match self.var_decl(depth) {
                Err(e) => {
                    return Err(e);
                },
                Ok(st) => st,
            };
            if self.match_tok(&TokenKind::Semicolon) {
                self.eat();
                Ok(st)
            } else {
                Err(self.error(ParseErrorKind::MissingSemicolon))
            }
        } else if tok.kind.same(&TokenKind::LeftBrace) {
            self.eat();
            if depth >= MAX_DEPTH {
                return Err(self.error(ParseErrorKind::NestingTooDeep));
            }
            match self.block(depth + 1) {
                Err(e) => Err(e),
                Ok(b) => Ok(Statement::Block(b)),
            }
        } else if is_ident && keyword == Some(KeyWord::RETURN) {
            self.eat();
            let st = match self.ret(depth) {
                Err(e) => {
                    return Err(e);
                },
                Ok(st) => st,
            };
            self.eat();
            Ok(st)
        } else if tok.kind.same(&TokenKind::Eof) {
            Ok(Statement::Eof)
        } else {
            Err(self.error(ParseErrorKind::ExpectedStatement))
        }
    }

    /// Parses one statement and takes its tokens; callers repeat until
    /// the statement is `Eof` or an error comes back. After an error the
    /// parser stands where the error was found.
    pub fn parse(&mut self) -> (r: Result<Statement, ParseError>)
        ensures
            final(self).source() == old(self).source(),
            outcome(
                r,
                spec_stmt(old(self).source(), old(self).offset(), 0),
                old(self).source(),
                old(self).offset(),
                final(self).offset(),
            ),
    {
        self.stmt(0)
    }

    /// Parses one statement: a function declaration, a variable
    /// declaration, a block or a return statement; `Eof` at the end of
    /// the input.
    pub fn parse_stmt(&mut self) -> (r: Result<Statement, ParseError>)
        ensures
            final(self).source() == old(self).source(),
            outcome(
                r,
                spec_stmt(old(self).source(), old(self).offset(), 0),
                old(self).source(),
                old(self).offset(),
                final(self).offset(),
            ),
    {
        self.stmt(0)
    }

    /// Parses a function declaration, from behind `fn`.
    pub fn parse_func_decl(&mut self) -> (r: Result<Statement, ParseError>)
        ensures
            final(self).source() == old(self).source(),
            outcome(
                r,
                spec_func_decl(old(self).source(), old(self).offset(), 0),
                old(self).source(),
                old(self).offset(),
                final(self).offset(),
            ),
    {
        self.func_decl(0)
    }

    /// Parses a variable declaration, from behind `let` and up to its
    /// value; the `;` is left.
    pub fn parse_var_decl(&mut self) -> (r: Result<Statement, ParseError>)
        ensures
            final(self).source() == old(self).source(),
            outcome(
                r,
                spec_var_decl(old(self).source(), old(self).offset(), 0),
                old(self).source(),
                old(self).offset(),
                final(self).offset(),
            ),
    {
        self.var_decl(0)
    }

    /// Parses a return statement, from behind `return`.
    pub fn parse_return(&mut self) -> (r: Result<Statement, ParseError>)
        ensures
            final(self).source() == old(self).source(),
            outcome(
                r,
                spec_return(old(self).source(), old(self).offset(), 0),
                old(self).source(),
                old(self).offset(),
                final(self).offset(),
            ),
    {
        self.ret(0)
    }

    /// Parses the statements of a block, from behind its `{` to its `}`.
    pub fn parse_block(&mut self) -> (r: Result<Statement, ParseError>)
        ensures
            final(self).source() == old(self).source(),
            outcome(
                r,
                spec_block_stmt(old(self).source(), old(self).offset(), 0),
                old(self).source(),
                old(self).offset(),
                final(self).offset(),
            ),
    {
        match self.block(0) {
            Err(e) => Err(e),
            Ok(b) => Ok(Statement::Block(b)),
        }
    }
}

} // verus!
