//! The grammar: what the tokens of a source stand for, as expressions and
//! statements.

use crate::ast::{
    keyword_of, Behaviour, BinaryOp, ExprView, KeyWord, LiteralView, ParamView, StmtView,
};
use crate::lexer::{column_at, lemma_token_advances, line_at, token_at, Lexeme};
use crate::literal::literal_value;
use crate::parser::{ParseErrorKind, MAX_DEPTH};
use crate::token::{KindView, TokenView};
use vstd::prelude::*;

verus! {

/// What a parse gives, as a mathematical value: the tree or the kind of
/// the error, and the number of characters taken.
pub struct Parsed<T> {
    pub result: Result<T, ParseErrorKind>,
    pub used: nat,
}

/// The characters left from `pos` on.
pub open spec fn remaining(s: Seq<char>, pos: int) -> nat {
    if pos < s.len() {
        (s.len() - pos) as nat
    } else {
        0
    }
}

/// The kinds of token that the parser passes over: whitespace and
/// comments.
pub open spec fn skipped(kind: KindView) -> bool {
    kind is Space || kind is LineComment || kind is BlockComment
}

/// The first token at or behind `pos` that is neither whitespace nor a
/// comment.
pub open spec fn significant_at(s: Seq<char>, pos: int) -> Lexeme
    decreases remaining(s, pos),
{
    if skipped(token_at(s, pos).kind) {
        proof {
            lemma_token_advances(s, pos);
        }
        significant_at(s, token_at(s, pos).end)
    } else {
        token_at(s, pos)
    }
}

/// The kind of the next significant token.
pub open spec fn kind_at(s: Seq<char>, pos: int) -> KindView {
    significant_at(s, pos).kind
}

/// The text of the next significant token.
pub open spec fn text_at(s: Seq<char>, pos: int) -> Seq<char> {
    significant_at(s, pos).content
}

/// The number of characters up to the end of the next significant token.
pub open spec fn used_by(s: Seq<char>, pos: int) -> nat {
    if significant_at(s, pos).end >= pos {
        (significant_at(s, pos).end - pos) as nat
    } else {
        0
    }
}

/// The next significant token, with the line and column behind it.
pub open spec fn significant_view_at(s: Seq<char>, pos: int) -> TokenView {
    TokenView {
        kind: significant_at(s, pos).kind,
        content: significant_at(s, pos).content,
        line: line_at(s, significant_at(s, pos).end) as usize,
        column: column_at(s, significant_at(s, pos).end) as usize,
    }
}

/// The next significant token ends within the source and is neither
/// whitespace nor a comment; unless it is `Eof`, it ends behind `pos`,
/// which then lies before the end of the source.
pub proof fn lemma_significant(s: Seq<char>, pos: int)
    ensures
        pos <= significant_at(s, pos).end,
        0 <= pos <= s.len() ==> significant_at(s, pos).end <= s.len(),
        !skipped(kind_at(s, pos)),
        !(kind_at(s, pos) is Eof) ==> 0 <= pos < s.len() && used_by(s, pos) >= 1,
        pos + used_by(s, pos) == significant_at(s, pos).end,
        0 <= pos <= s.len() && kind_at(s, pos) is Eof ==> significant_at(s, pos).end == s.len(),
    decreases remaining(s, pos),
{
    lemma_token_advances(s, pos);
    if skipped(token_at(s, pos).kind) {
        lemma_significant(s, token_at(s, pos).end);
    }
}

/// An operator and the number of characters that it takes.
pub struct OpAt {
    pub op: BinaryOp,
    pub used: nat,
}

/// The operator that begins at `pos`, assembled from up to three tokens:
/// the longest of the operators that the tokens spell.
#[verifier::opaque]
pub open spec fn operator_at(s: Seq<char>, pos: int) -> Option<OpAt> {
    let k1 = kind_at(s, pos);
    let n1 = used_by(s, pos);
    let k2 = kind_at(s, pos + n1);
    let n2 = n1 + used_by(s, pos + n1);
    let k3 = kind_at(s, pos + n2);
    let n3 = n2 + used_by(s, pos + n2);
    match k1 {
        KindView::Plus => if k2 is Equal {
            Some(OpAt { op: BinaryOp::AddEq, used: n2 })
        } else {
            Some(OpAt { op: BinaryOp::Add, used: n1 })
        },
        KindView::Minus => if k2 is Equal {
            Some(OpAt { op: BinaryOp::SubEq, used: n2 })
        } else if k2 is Ge {
            Some(OpAt { op: BinaryOp::Ref, used: n2 })
        } else {
            Some(OpAt { op: BinaryOp::Sub, used: n1 })
        },
        KindView::Star => if k2 is Equal {
            Some(OpAt { op: BinaryOp::MulEq, used: n2 })
        } else {
            Some(OpAt { op: BinaryOp::Mul, used: n1 })
        },
        KindView::Slash => if k2 is Equal {
            Some(OpAt { op: BinaryOp::DivEq, used: n2 })
        } else {
            Some(OpAt { op: BinaryOp::Div, used: n1 })
        },
        KindView::Percent => if k2 is Equal {
            Some(OpAt { op: BinaryOp::ModEq, used: n2 })
        } else {
            Some(OpAt { op: BinaryOp::Mod, used: n1 })
        },
        KindView::And => if k2 is And {
            Some(OpAt { op: BinaryOp::LogicalAnd, used: n2 })
        } else if k2 is Equal {
            Some(OpAt { op: BinaryOp::AndEq, used: n2 })
        } else {
            Some(OpAt { op: BinaryOp::And, used: n1 })
        },
        KindView::Or => if k2 is Or {
            Some(OpAt { op: BinaryOp::LogicalOr, used: n2 })
        } else if k2 is Equal {
            Some(OpAt { op: BinaryOp::OrEq, used: n2 })
        } else {
            Some(OpAt { op: BinaryOp::Or, used: n1 })
        },
        KindView::Caret => if k2 is Equal {
            Some(OpAt { op: BinaryOp::XorEq, used: n2 })
        } else {
            Some(OpAt { op: BinaryOp::Xor, used: n1 })
        },
        KindView::Not => Some(OpAt { op: BinaryOp::Not, used: n1 }),
        KindView::Le => if k2 is Le {
            if k3 is Equal {
                Some(OpAt { op: BinaryOp::LshEq, used: n3 })
            } else {
                Some(OpAt { op: BinaryOp::Lsh, used: n2 })
            }
        } else if k2 is Equal {
            Some(OpAt { op: BinaryOp::Lte, used: n2 })
        } else if k2 is Minus {
            Some(OpAt { op: BinaryOp::Move, used: n2 })
        } else {
            Some(OpAt { op: BinaryOp::Lt, used: n1 })
        },
        KindView::Ge => if k2 is Ge {
            if k3 is Equal {
                Some(OpAt { op: BinaryOp::RshEq, used: n3 })
            } else {
                Some(OpAt { op: BinaryOp::Rsh, used: n2 })
            }
        } else if k2 is Equal {
            Some(OpAt { op: BinaryOp::Gte, used: n2 })
        } else {
            Some(OpAt { op: BinaryOp::Gt, used: n1 })
        },
        KindView::Exclamation => if k2 is Equal {
            Some(OpAt { op: BinaryOp::Ne, used: n2 })
        } else {
            Some(OpAt { op: BinaryOp::LogicalNot, used: n1 })
        },
        KindView::Equal => Some(OpAt { op: BinaryOp::Assign, used: n1 }),
        KindView::Colon => if k2 is Colon {
            Some(OpAt { op: BinaryOp::Scope, used: n2 })
        } else {
            Some(OpAt { op: BinaryOp::Is, used: n1 })
        },
        _ => None,
    }
}

/// An operator begins before the end of the source, takes at least one
/// character and ends within the source.
pub proof fn lemma_operator(s: Seq<char>, pos: int)
    ensures
        operator_at(s, pos) matches Some(o) ==> 0 <= pos < s.len() && 1 <= o.used && pos + o.used
            <= s.len(),
{
    reveal(operator_at);
    lemma_significant(s, pos);
    let n1 = used_by(s, pos);
    lemma_significant(s, pos + n1);
    let n2 = n1 + used_by(s, pos + n1);
    lemma_significant(s, pos + n2);
}

/// How tightly an operator binds: a larger number binds tighter. The
/// operators that only bind a name (`->`, `<-`, `:`) have none, which is
/// written -1.
pub open spec fn precedence(op: BinaryOp) -> int {
    match op {
        BinaryOp::OrEq | BinaryOp::AndEq | BinaryOp::XorEq => 0,
        BinaryOp::LshEq | BinaryOp::RshEq => 1,
        BinaryOp::AddEq | BinaryOp::SubEq => 2,
        BinaryOp::MulEq | BinaryOp::DivEq | BinaryOp::ModEq => 3,
        BinaryOp::Assign => 4,
        BinaryOp::LogicalOr => 5,
        BinaryOp::LogicalAnd | BinaryOp::LogicalNot => 6,
        BinaryOp::Lt | BinaryOp::Lte | BinaryOp::Gt | BinaryOp::Gte => 7,
        BinaryOp::Eq | BinaryOp::Ne => 8,
        BinaryOp::Or => 9,
        BinaryOp::Xor => 10,
        BinaryOp::And | BinaryOp::Not => 11,
        BinaryOp::Lsh | BinaryOp::Rsh => 12,
        BinaryOp::Add | BinaryOp::Sub => 13,
        BinaryOp::Mul | BinaryOp::Div | BinaryOp::Mod => 14,
        BinaryOp::Scope => 15,
        BinaryOp::Ref | BinaryOp::Move | BinaryOp::Is => -1,
    }
}

/// The precedence of the operator that begins at `pos`, or -1 if none
/// does.
pub open spec fn precedence_at(s: Seq<char>, pos: int) -> int {
    match operator_at(s, pos) {
        Some(o) => precedence(o.op),
        None => -1,
    }
}

/// How an operator binds a name, if it is one that does.
pub open spec fn behaviour_of(op: BinaryOp) -> Option<Behaviour> {
    match op {
        BinaryOp::Assign => Some(Behaviour::Copy),
        BinaryOp::Ref => Some(Behaviour::Ref),
        BinaryOp::Move => Some(Behaviour::Move),
        _ => None,
    }
}

/// The error that a construct reports when a part of it fails with
/// `inner`: its own kind, unless the part failed for nesting too deep or
/// for a keyword in the place of an identifier, which are reported as
/// they are.
pub open spec fn wrap(inner: ParseErrorKind, outer: ParseErrorKind) -> ParseErrorKind {
    match inner {
        ParseErrorKind::NestingTooDeep => inner,
        ParseErrorKind::KeywordAsIdentifier(_) => inner,
        _ => outer,
    }
}

/// Whether the token is the given keyword.
pub open spec fn is_keyword(t: Lexeme, k: KeyWord) -> bool {
    t.kind is Ident && keyword_of(t.content) == Some(k)
}

/// An identifier: the next token, which is taken whatever it is. A
/// keyword is none.
pub open spec fn spec_ident(s: Seq<char>, pos: int) -> Parsed<Seq<char>> {
    let t = significant_at(s, pos);
    if !(t.kind is Ident) {
        Parsed { result: Err(ParseErrorKind::ExpectedIdentifier), used: used_by(s, pos) }
    } else {
        match keyword_of(t.content) {
            Some(k) => Parsed {
                result: Err(ParseErrorKind::KeywordAsIdentifier(k)),
                used: used_by(s, pos),
            },
            None => Parsed { result: Ok(t.content), used: used_by(s, pos) },
        }
    }
}

/// `first` before the items that `rest` gives, or the error of `rest`;
/// `used` characters were taken before `rest`.
pub open spec fn cons<T>(first: T, used: nat, rest: Parsed<Seq<T>>) -> Parsed<Seq<T>> {
    Parsed {
        result: match rest.result {
            Ok(items) => Ok(seq![first] + items),
            Err(e) => Err(e),
        },
        used: used + rest.used,
    }
}

/// A primary expression: a literal; `true` or `false`; an identifier, or
/// a call if `(` follows it; or an expression in parentheses.
pub open spec fn spec_primary(s: Seq<char>, pos: int, depth: nat) -> Parsed<ExprView>
    decreases remaining(s, pos), 0int,
{
    let t = significant_at(s, pos);
    let n = used_by(s, pos);
    let open = kind_at(s, pos + n);
    let n2 = n + used_by(s, pos + n);
    if t.kind is Literal {
        Parsed { result: Ok(ExprView::Literal(literal_value(t.kind, t.content))), used: n }
    } else if t.kind is Ident && t.content == "true"@ {
        Parsed { result: Ok(ExprView::Literal(LiteralView::Boolean(true))), used: n }
    } else if t.kind is Ident && t.content == "false"@ {
        Parsed { result: Ok(ExprView::Literal(LiteralView::Boolean(false))), used: n }
    } else if t.kind is Ident {
        match spec_ident(s, pos).result {
            Err(e) => Parsed { result: Err(e), used: n },
            Ok(name) => {
                if !(open is LeftParen) {
                    Parsed { result: Ok(ExprView::Ident(name)), used: n }
                } else if depth >= MAX_DEPTH {
                    Parsed { result: Err(ParseErrorKind::NestingTooDeep), used: n2 }
                } else {
                    proof {
                        lemma_significant(s, pos);
                        lemma_significant(s, pos + n);
                    }
                    let args = spec_args(s, pos + n2, depth + 1);
                    Parsed {
                        result: match args.result {
                            Ok(a) => Ok(ExprView::FuncCall { ident: name, args: a }),
                            Err(e) => Err(e),
                        },
                        used: n2 + args.used,
                    }
                }
            },
        }
    } else if t.kind is LeftParen {
        if depth >= MAX_DEPTH {
            Parsed { result: Err(ParseErrorKind::NestingTooDeep), used: n }
        } else {
            proof {
                lemma_significant(s, pos);
            }
            let inner = spec_expr(s, pos + n, depth + 1);
            match inner.result {
                Err(e) => Parsed { result: Err(e), used: n + inner.used },
                Ok(e) => {
                    if kind_at(s, pos + n + inner.used) is RightParen {
                        Parsed {
                            result: Ok(e),
                            used: n + inner.used + used_by(s, pos + n + inner.used),
                        }
                    } else {
                        Parsed { result: Err(ParseErrorKind::UnclosedParen), used: n + inner.used }
                    }
                },
            }
        }
    } else {
        Parsed { result: Err(ParseErrorKind::ExpectedPrimary), used: 0 }
    }
}

/// The arguments of a call, from behind its `(` to its `)`: none if `)`
/// comes first.
pub open spec fn spec_args(s: Seq<char>, pos: int, depth: nat) -> Parsed<Seq<ExprView>>
    decreases remaining(s, pos), 4int,
{
    if kind_at(s, pos) is RightParen {
        Parsed { result: Ok(Seq::empty()), used: used_by(s, pos) }
    } else {
        spec_more_args(s, pos, depth)
    }
}

/// One argument and those behind it, up to the `)` of the call: each is
/// an expression, and `,` stands between two.
pub open spec fn spec_more_args(s: Seq<char>, pos: int, depth: nat) -> Parsed<Seq<ExprView>>
    decreases remaining(s, pos), 3int,
{
    let arg = spec_expr(s, pos, depth);
    let pos1 = pos + arg.used;
    match arg.result {
        Err(e) => Parsed { result: Err(wrap(e, ParseErrorKind::InvalidArgument)), used: arg.used },
        Ok(a) => {
            if kind_at(s, pos1) is RightParen {
                Parsed { result: Ok(seq![a]), used: arg.used + used_by(s, pos1) }
            } else if !(kind_at(s, pos1) is Comma) {
                Parsed { result: Err(ParseErrorKind::ExpectedComma), used: arg.used }
            } else {
                proof {
                    lemma_significant(s, pos1);
                }
                cons(a, arg.used + used_by(s, pos1), spec_more_args(s, pos1 + used_by(s, pos1), depth))
            }
        },
    }
}

/// An expression: a primary expression and the operators and operands
/// that follow it.
pub open spec fn spec_expr(s: Seq<char>, pos: int, depth: nat) -> Parsed<ExprView>
    decreases remaining(s, pos), 2int,
{
    let first = spec_primary(s, pos, depth);
    match first.result {
        Err(e) => Parsed { result: Err(e), used: first.used },
        Ok(lhs) => {
            let tail = spec_binary(s, pos + first.used, 0, lhs, depth);
            Parsed { result: tail.result, used: first.used + tail.used }
        },
    }
}

/// The operators and operands behind the expression `lhs`, as far as
/// they bind at least as tightly as `min`.
///
/// An operator that binds less tightly than `min`, or no operator, ends
/// the expression, and nothing is taken. Else the operator and a primary
/// expression are taken. If the operator behind that binds tighter than
/// this one, it and what follows at that strength belong to the right
/// operand. The two operands are joined under the operator, and the
/// result is the left operand of what follows.
pub open spec fn spec_binary(s: Seq<char>, pos: int, min: int, lhs: ExprView, depth: nat) -> Parsed<
    ExprView,
>
    decreases remaining(s, pos), 1int,
{
    match operator_at(s, pos) {
        None => Parsed { result: Ok(lhs), used: 0 },
        Some(o) => {
            if precedence(o.op) < min {
                Parsed { result: Ok(lhs), used: 0 }
            } else {
                proof {
                    lemma_operator(s, pos);
                }
                let operand = spec_primary(s, pos + o.used, depth);
                let pos2 = pos + o.used + operand.used;
                match operand.result {
                    Err(e) => Parsed {
                        result: Err(wrap(e, ParseErrorKind::ExpectedOperand)),
                        used: o.used + operand.used,
                    },
                    Ok(r) => {
                        if precedence(o.op) < precedence_at(s, pos2) {
                            let tighter = spec_binary(s, pos2, precedence(o.op) + 1, r, depth);
                            match tighter.result {
                                Err(e) => Parsed {
                                    result: Err(e),
                                    used: o.used + operand.used + tighter.used,
                                },
                                Ok(rhs) => {
                                    let rest = spec_binary(
                                        s,
                                        pos2 + tighter.used,
                                        min,
                                        ExprView::Binary {
                                            lhs: Box::new(lhs),
                                            op: o.op,
                                            rhs: Box::new(rhs),
                                        },
                                        depth,
                                    );
                                    Parsed {
                                        result: rest.result,
                                        used: o.used + operand.used + tighter.used + rest.used,
                                    }
                                },
                            }
                        } else {
                            let rest = spec_binary(
                                s,
                                pos2,
                                min,
                                ExprView::Binary { lhs: Box::new(lhs), op: o.op, rhs: Box::new(r) },
                                depth,
                            );
                            Parsed { result: rest.result, used: o.used + operand.used + rest.used }
                        }
                    },
                }
            }
        },
    }
}

/// The parameters of a function, from behind the `(` to the `)`: each
/// is a name, one of `=`, `->` and `<-`, and the name of a type; a `,`
/// may stand before each.
pub open spec fn spec_params(s: Seq<char>, pos: int) -> Parsed<Seq<ParamView>>
    decreases remaining(s, pos),
{
    let comma: nat = if kind_at(s, pos) is Comma {
        used_by(s, pos)
    } else {
        0
    };
    let name = spec_ident(s, pos + comma);
    let pos1 = pos + comma + name.used;
    if kind_at(s, pos) is RightParen {
        Parsed { result: Ok(Seq::empty()), used: used_by(s, pos) }
    } else {
        match name.result {
            Err(e) => Parsed { result: Err(e), used: comma + name.used },
            Ok(n) => match operator_at(s, pos1) {
                None => Parsed {
                    result: Err(ParseErrorKind::ExpectedParamBinding),
                    used: comma + name.used,
                },
                Some(o) => match behaviour_of(o.op) {
                    None => Parsed {
                        result: Err(ParseErrorKind::ExpectedParamBinding),
                        used: comma + name.used + o.used,
                    },
                    Some(b) => {
                        let ty = spec_ident(s, pos1 + o.used);
                        match ty.result {
                            Err(e) => Parsed { result: Err(e), used: comma + name.used + o.used + ty.used },
                            Ok(t) => {
                                proof {
                                    lemma_significant(s, pos + comma);
                                }
                                cons(
                                    ParamView { name: n, behaviour: b, ty: t },
                                    comma + name.used + o.used + ty.used,
                                    spec_params(s, pos1 + o.used + ty.used),
                                )
                            },
                        }
                    },
                },
            },
        }
    }
}

/// The head of a variable declaration: whether it is mutable, the name,
/// and the name of the type, which is empty where none is written.
pub struct VarHead {
    pub mutable: bool,
    pub ident: Seq<char>,
    pub ty: Seq<char>,
}

/// The head of a variable declaration, from behind `let`: optionally
/// `mut`, a name, and optionally `:` and the name of a type.
pub open spec fn spec_var_head(s: Seq<char>, pos: int) -> Parsed<VarHead> {
    let mutable = is_keyword(significant_at(s, pos), KeyWord::MUT);
    let n0: nat = if mutable {
        used_by(s, pos)
    } else {
        0
    };
    let name = spec_ident(s, pos + n0);
    let n1 = n0 + name.used;
    let typed = kind_at(s, pos + n1) is Colon;
    let n2 = n1 + used_by(s, pos + n1);
    let ty = spec_ident(s, pos + n2);
    match name.result {
        Err(e) => Parsed { result: Err(wrap(e, ParseErrorKind::ExpectedVariableName)), used: n1 },
        Ok(ident) => {
            if !typed {
                Parsed { result: Ok(VarHead { mutable, ident, ty: Seq::empty() }), used: n1 }
            } else {
                Parsed {
                    result: match ty.result {
                        Err(e) => Err(wrap(e, ParseErrorKind::ExpectedTypeName)),
                        Ok(t) => Ok(VarHead { mutable, ident, ty: t }),
                    },
                    used: n2 + ty.used,
                }
            }
        },
    }
}

/// A variable declaration, from behind `let`: its head, then one of `=`,
/// `->` and `<-` and the value. Without an operator behind the head the
/// declaration lacks its value, which is an error.
pub open spec fn spec_var_decl(s: Seq<char>, pos: int, depth: nat) -> Parsed<StmtView> {
    let head = spec_var_head(s, pos);
    match head.result {
        Err(e) => Parsed { result: Err(e), used: head.used },
        Ok(h) => match operator_at(s, pos + head.used) {
            None => Parsed { result: Err(ParseErrorKind::MissingInitializer), used: head.used },
            Some(o) => match behaviour_of(o.op) {
                None => Parsed {
                    result: Err(ParseErrorKind::InvalidBinding),
                    used: head.used + o.used,
                },
                Some(behaviour) => {
                    let value = spec_expr(s, pos + head.used + o.used, depth);
                    Parsed {
                        result: match value.result {
                            Err(e) => Err(wrap(e, ParseErrorKind::InvalidValue)),
                            Ok(v) => Ok(
                                StmtView::VariableDecl {
                                    ident: h.ident,
                                    ty: h.ty,
                                    mutable: h.mutable,
                                    behaviour,
                                    value: v,
                                },
                            ),
                        },
                        used: head.used + o.used + value.used,
                    }
                },
            },
        },
    }
}

/// A return statement, from behind `return`: the expression returned.
pub open spec fn spec_return(s: Seq<char>, pos: int, depth: nat) -> Parsed<StmtView> {
    let value = spec_expr(s, pos, depth);
    Parsed {
        result: match value.result {
            Err(e) => Err(wrap(e, ParseErrorKind::ExpectedReturnValue)),
            Ok(v) => Ok(StmtView::Return(v)),
        },
        used: value.used,
    }
}

/// A function declaration, from behind `fn`: the name, the parameters
/// in parentheses, and the body in braces.
pub open spec fn spec_func_decl(s: Seq<char>, pos: int, depth: nat) -> Parsed<StmtView>
    decreases remaining(s, pos), 0int,
{
    let name = spec_ident(s, pos);
    let pos1 = pos + name.used;
    let n2 = name.used + used_by(s, pos1);
    let params = spec_params(s, pos + n2);
    let n3 = n2 + params.used;
    let n4 = n3 + used_by(s, pos + n3);
    match name.result {
        Err(e) => Parsed { result: Err(e), used: name.used },
        Ok(ident) => {
            if !(kind_at(s, pos1) is LeftParen) {
                Parsed { result: Err(ParseErrorKind::ExpectedParamList), used: name.used }
            } else {
                match params.result {
                    Err(e) => Parsed { result: Err(e), used: n3 },
                    Ok(ps) => {
                        if !(kind_at(s, pos + n3) is LeftBrace) {
                            Parsed { result: Err(ParseErrorKind::ExpectedFunctionBody), used: n3 }
                        } else if depth >= MAX_DEPTH {
                            Parsed { result: Err(ParseErrorKind::NestingTooDeep), used: n4 }
                        } else {
                            proof {
                                lemma_significant(s, pos);
                            }
                            let body = spec_block(s, pos + n4, depth + 1);
                            Parsed {
                                result: match body.result {
                                    Err(e) => Err(wrap(e, ParseErrorKind::ExpectedFunctionBody)),
                                    Ok(b) => Ok(StmtView::FuncDecl { ident, params: ps, body: b }),
                                },
                                used: n4 + body.used,
                            }
                        }
                    },
                }
            }
        },
    }
}

/// The statements of a block, from behind its `{` to its `}`. A
/// statement takes at least one character: where the input ends, so
/// that none can be taken, the block is unclosed.
pub open spec fn spec_block(s: Seq<char>, pos: int, depth: nat) -> Parsed<Seq<StmtView>>
    decreases remaining(s, pos), 1int,
{
    if kind_at(s, pos) is RightBrace {
        Parsed { result: Ok(Seq::empty()), used: used_by(s, pos) }
    } else if kind_at(s, pos) is Eof {
        Parsed { result: Err(ParseErrorKind::UnclosedBlock), used: 0 }
    } else {
        let first = spec_stmt(s, pos, depth);
        match first.result {
            Err(e) => Parsed { result: Err(e), used: first.used },
            Ok(st) => {
                if first.used == 0 {
                    Parsed { result: Err(ParseErrorKind::UnclosedBlock), used: 0 }
                } else {
                    proof {
                        lemma_significant(s, pos);
                    }
                    cons(st, first.used, spec_block(s, pos + first.used, depth))
                }
            },
        }
    }
}

/// One statement. The first token decides: `fn` begins a function
/// declaration, `let` a variable declaration, `{` a block, `return` a
/// return statement; at the end of the input the statement is `Eof`, and
/// nothing is taken. A function declaration and a block end with their
/// `}`. Behind a variable declaration the terminator is taken, which
/// must be `;`; behind a return statement one more token is taken as the
/// terminator, whatever it is.
pub open spec fn spec_stmt(s: Seq<char>, pos: int, depth: nat) -> Parsed<StmtView>
    decreases remaining(s, pos), 0int,
{
    let t = significant_at(s, pos);
    let n = used_by(s, pos);
    if is_keyword(t, KeyWord::FN) {
        proof {
            lemma_significant(s, pos);
        }
        let f = spec_func_decl(s, pos + n, depth);
        Parsed { result: f.result, used: n + f.used }
    } else if is_keyword(t, KeyWord::LET) {
        let v = spec_var_decl(s, pos + n, depth);
        match v.result {
            Err(e) => Parsed { result: Err(e), used: n + v.used },
            Ok(st) => {
                if kind_at(s, pos + n + v.used) is Semicolon {
                    Parsed { result: Ok(st), used: n + v.used + used_by(s, pos + n + v.used) }
                } else {
                    Parsed { result: Err(ParseErrorKind::MissingSemicolon), used: n + v.used }
                }
            },
        }
    } else if t.kind is LeftBrace {
        if depth >= MAX_DEPTH {
            Parsed { result: Err(ParseErrorKind::NestingTooDeep), used: n }
        } else {
            proof {
                lemma_significant(s, pos);
            }
            let b = spec_block(s, pos + n, depth + 1);
            Parsed {
                result: match b.result {
                    Err(e) => Err(e),
                    Ok(items) => Ok(StmtView::Block(items)),
                },
                used: n + b.used,
            }
        }
    } else if is_keyword(t, KeyWord::RETURN) {
        let r = spec_return(s, pos + n, depth);
        match r.result {
            Err(e) => Parsed { result: Err(e), used: n + r.used },
            Ok(st) => Parsed { result: Ok(st), used: n + r.used + used_by(s, pos + n + r.used) },
        }
    } else if t.kind is Eof {
        Parsed { result: Ok(StmtView::Eof), used: 0 }
    } else {
        Parsed { result: Err(ParseErrorKind::ExpectedStatement), used: 0 }
    }
}

/// A block as a statement.
pub open spec fn spec_block_stmt(s: Seq<char>, pos: int, depth: nat) -> Parsed<StmtView> {
    Parsed {
        result: match spec_block(s, pos, depth).result {
            Err(e) => Err(e),
            Ok(items) => Ok(StmtView::Block(items)),
        },
        used: spec_block(s, pos, depth).used,
    }
}

/// A `let` whose head no operator follows is an error: the statement
/// never stands for a variable without a value.
pub proof fn lemma_let_without_initializer(s: Seq<char>, pos: int, depth: nat)
    requires
        is_keyword(significant_at(s, pos), KeyWord::LET),
        spec_var_head(s, pos + used_by(s, pos)).result is Ok,
        operator_at(
            s,
            pos + used_by(s, pos) + spec_var_head(s, pos + used_by(s, pos)).used,
        ) is None,
    ensures
        spec_stmt(s, pos, depth).result == Err::<StmtView, ParseErrorKind>(
            ParseErrorKind::MissingInitializer,
        ),
{
}

/// `let`, a name and `;` are an error: the variable lacks its value.
pub proof fn lemma_let_name_semicolon(s: Seq<char>, pos: int, depth: nat)
    requires
        is_keyword(significant_at(s, pos), KeyWord::LET),
        kind_at(s, pos + used_by(s, pos)) is Ident,
        keyword_of(text_at(s, pos + used_by(s, pos))) is None,
        kind_at(
            s,
            pos + used_by(s, pos) + used_by(s, pos + used_by(s, pos)),
        ) is Semicolon,
    ensures
        spec_stmt(s, pos, depth).result == Err::<StmtView, ParseErrorKind>(
            ParseErrorKind::MissingInitializer,
        ),
{
    reveal(operator_at);
}

/// The statement is `Eof` exactly where no token is left but whitespace
/// and comments, and there nothing is taken: at the end of the input
/// `Eof` comes again and again.
pub proof fn lemma_eof_statement(s: Seq<char>, pos: int, depth: nat)
    ensures
        spec_stmt(s, pos, depth).result == Ok::<StmtView, ParseErrorKind>(StmtView::Eof)
            <==> kind_at(s, pos) is Eof,
        kind_at(s, pos) is Eof ==> spec_stmt(s, pos, depth).used == 0,
{
}

/// Every statement but `Eof` takes at least one character, so that the
/// statements of a source come one after the other and the source runs
/// out.
pub proof fn lemma_statement_takes_tokens(s: Seq<char>, pos: int, depth: nat)
    requires
        spec_stmt(s, pos, depth).result is Ok,
        !(kind_at(s, pos) is Eof),
    ensures
        spec_stmt(s, pos, depth).used >= used_by(s, pos) >= 1,
{
    lemma_significant(s, pos);
}

/// A primary expression ends within the source.
pub proof fn lemma_primary_within(s: Seq<char>, pos: int, depth: nat)
    requires
        0 <= pos <= s.len(),
    ensures
        pos + spec_primary(s, pos, depth).used <= s.len(),
    decreases remaining(s, pos), 0int,
{
    let t = significant_at(s, pos);
    let n = used_by(s, pos);
    lemma_significant(s, pos);
    lemma_significant(s, pos + n);
    let n2 = n + used_by(s, pos + n);
    if t.kind is Ident && t.content != "true"@ && t.content != "false"@ {
        if spec_ident(s, pos).result is Ok && kind_at(s, pos + n) is LeftParen && depth
            < MAX_DEPTH {
            lemma_args_within(s, pos + n2, depth + 1);
        }
    } else if t.kind is LeftParen && depth < MAX_DEPTH {
        lemma_expr_within(s, pos + n, depth + 1);
        lemma_significant(s, pos + n + spec_expr(s, pos + n, depth + 1).used);
    }
}

/// The arguments of a call end within the source.
pub proof fn lemma_args_within(s: Seq<char>, pos: int, depth: nat)
    requires
        0 <= pos <= s.len(),
    ensures
        pos + spec_args(s, pos, depth).used <= s.len(),
    decreases remaining(s, pos), 4int,
{
    lemma_significant(s, pos);
    if !(kind_at(s, pos) is RightParen) {
        lemma_more_args_within(s, pos, depth);
    }
}

proof fn lemma_more_args_within(s: Seq<char>, pos: int, depth: nat)
    requires
        0 <= pos <= s.len(),
    ensures
        pos + spec_more_args(s, pos, depth).used <= s.len(),
    decreases remaining(s, pos), 3int,
{
    lemma_expr_within(s, pos, depth);
    let arg = spec_expr(s, pos, depth);
    let next = pos + arg.used;
    lemma_significant(s, next);
    if arg.result is Ok && kind_at(s, next) is Comma {
        lemma_more_args_within(s, next + used_by(s, next), depth);
    }
}

/// An expression ends within the source.
pub proof fn lemma_expr_within(s: Seq<char>, pos: int, depth: nat)
    requires
        0 <= pos <= s.len(),
    ensures
        pos + spec_expr(s, pos, depth).used <= s.len(),
    decreases remaining(s, pos), 2int,
{
    lemma_primary_within(s, pos, depth);
    let first = spec_primary(s, pos, depth);
    if let Ok(lhs) = first.result {
        lemma_binary_within(s, pos + first.used, 0, lhs, depth);
    }
}

proof fn lemma_binary_within(s: Seq<char>, pos: int, min: int, lhs: ExprView, depth: nat)
    requires
        0 <= pos <= s.len(),
    ensures
        pos + spec_binary(s, pos, min, lhs, depth).used <= s.len(),
    decreases remaining(s, pos), 1int,
{
    lemma_operator(s, pos);
    if let Some(o) = operator_at(s, pos) {
        if precedence(o.op) >= min {
            lemma_primary_within(s, pos + o.used, depth);
            let operand = spec_primary(s, pos + o.used, depth);
            let next = pos + o.used + operand.used;
            if let Ok(r) = operand.result {
                if precedence(o.op) < precedence_at(s, next) {
                    lemma_binary_within(s, next, precedence(o.op) + 1, r, depth);
                    let tighter = spec_binary(s, next, precedence(o.op) + 1, r, depth);
                    if let Ok(rhs) = tighter.result {
                        lemma_binary_within(
                            s,
                            next + tighter.used,
                            min,
                            ExprView::Binary { lhs: Box::new(lhs), op: o.op, rhs: Box::new(rhs) },
                            depth,
                        );
                    }
                } else {
                    lemma_binary_within(
                        s,
                        next,
                        min,
                        ExprView::Binary { lhs: Box::new(lhs), op: o.op, rhs: Box::new(r) },
                        depth,
                    );
                }
            }
        }
    }
}

proof fn lemma_ident_within(s: Seq<char>, pos: int)
    requires
        0 <= pos <= s.len(),
    ensures
        pos + spec_ident(s, pos).used <= s.len(),
        spec_ident(s, pos).used == used_by(s, pos),
        spec_ident(s, pos).result is Ok ==> spec_ident(s, pos).used >= 1 && pos < s.len(),
{
    lemma_significant(s, pos);
}

proof fn lemma_params_within(s: Seq<char>, pos: int)
    requires
        0 <= pos <= s.len(),
    ensures
        pos + spec_params(s, pos).used <= s.len(),
    decreases remaining(s, pos),
{
    lemma_significant(s, pos);
    let comma: nat = if kind_at(s, pos) is Comma {
        used_by(s, pos)
    } else {
        0
    };
    lemma_ident_within(s, pos + comma);
    let name = spec_ident(s, pos + comma);
    let next = pos + comma + name.used;
    lemma_operator(s, next);
    if !(kind_at(s, pos) is RightParen) && name.result is Ok {
        if let Some(o) = operator_at(s, next) {
            lemma_ident_within(s, next + o.used);
            let ty = spec_ident(s, next + o.used);
            if behaviour_of(o.op) is Some && ty.result is Ok {
                lemma_params_within(s, next + o.used + ty.used);
            }
        }
    }
}

proof fn lemma_var_head_within(s: Seq<char>, pos: int)
    requires
        0 <= pos <= s.len(),
    ensures
        pos + spec_var_head(s, pos).used <= s.len(),
{
    lemma_significant(s, pos);
    let n0: nat = if is_keyword(significant_at(s, pos), KeyWord::MUT) {
        used_by(s, pos)
    } else {
        0
    };
    lemma_ident_within(s, pos + n0);
    let n1 = n0 + spec_ident(s, pos + n0).used;
    lemma_significant(s, pos + n1);
    let n2 = n1 + used_by(s, pos + n1);
    lemma_ident_within(s, pos + n2);
}

/// A variable declaration ends within the source.
pub proof fn lemma_var_decl_within(s: Seq<char>, pos: int, depth: nat)
    requires
        0 <= pos <= s.len(),
    ensures
        pos + spec_var_decl(s, pos, depth).used <= s.len(),
{
    lemma_var_head_within(s, pos);
    let head = spec_var_head(s, pos);
    lemma_operator(s, pos + head.used);
    if let Some(o) = operator_at(s, pos + head.used) {
        lemma_expr_within(s, pos + head.used + o.used, depth);
    }
}

/// A function declaration ends within the source.
pub proof fn lemma_func_decl_within(s: Seq<char>, pos: int, depth: nat)
    requires
        0 <= pos <= s.len(),
    ensures
        pos + spec_func_decl(s, pos, depth).used <= s.len(),
    decreases remaining(s, pos), 0int,
{
    lemma_ident_within(s, pos);
    let name = spec_ident(s, pos);
    let next = pos + name.used;
    lemma_significant(s, next);
    let n2 = name.used + used_by(s, next);
    lemma_params_within(s, pos + n2);
    let params = spec_params(s, pos + n2);
    let n3 = n2 + params.used;
    lemma_significant(s, pos + n3);
    let n4 = n3 + used_by(s, pos + n3);
    if name.result is Ok && kind_at(s, next) is LeftParen && params.result is Ok && kind_at(
        s,
        pos + n3,
    ) is LeftBrace && depth < MAX_DEPTH {
        lemma_block_within(s, pos + n4, depth + 1);
    }
}

/// The statements of a block end within the source.
pub proof fn lemma_block_within(s: Seq<char>, pos: int, depth: nat)
    requires
        0 <= pos <= s.len(),
    ensures
        pos + spec_block(s, pos, depth).used <= s.len(),
    decreases remaining(s, pos), 1int,
{
    lemma_significant(s, pos);
    if !(kind_at(s, pos) is RightBrace) && !(kind_at(s, pos) is Eof) {
        lemma_stmt_within(s, pos, depth);
        let first = spec_stmt(s, pos, depth);
        if first.result is Ok && first.used != 0 {
            lemma_block_within(s, pos + first.used, depth);
        }
    }
}

/// A statement ends within the source: no parse takes more than the
/// source holds.
pub proof fn lemma_stmt_within(s: Seq<char>, pos: int, depth: nat)
    requires
        0 <= pos <= s.len(),
    ensures
        pos + spec_stmt(s, pos, depth).used <= s.len(),
    decreases remaining(s, pos), 0int,
{
    let t = significant_at(s, pos);
    let n = used_by(s, pos);
    lemma_significant(s, pos);
    if is_keyword(t, KeyWord::FN) {
        lemma_func_decl_within(s, pos + n, depth);
    } else if is_keyword(t, KeyWord::LET) {
        lemma_var_decl_within(s, pos + n, depth);
        lemma_significant(s, pos + n + spec_var_decl(s, pos + n, depth).used);
    } else if t.kind is LeftBrace {
        if depth < MAX_DEPTH {
            lemma_block_within(s, pos + n, depth + 1);
        }
    } else if is_keyword(t, KeyWord::RETURN) {
        lemma_expr_within(s, pos + n, depth);
        lemma_significant(s, pos + n + spec_return(s, pos + n, depth).used);
    }
}

/// The tree of `lhs`, `op` and `rhs`.
pub open spec fn binary(lhs: ExprView, op: BinaryOp, rhs: ExprView) -> ExprView {
    ExprView::Binary { lhs: Box::new(lhs), op, rhs: Box::new(rhs) }
}

/// Three operands with two operators between them, and no operator
/// behind: where the second operator binds tighter than the first, it
/// joins the second and third operand into the right operand of the
/// first; else the first operator joins the first two operands into the
/// left operand of the second. Operators of the same strength so group
/// from the left.
pub proof fn lemma_two_operators(s: Seq<char>, pos: int, depth: nat)
    requires
        spec_primary(s, pos, depth).result is Ok,
        operator_at(s, first_operator(s, pos, depth)) is Some,
        precedence(operator_at(s, first_operator(s, pos, depth))->Some_0.op) >= 0,
        spec_primary(s, second_operand(s, pos, depth), depth).result is Ok,
        operator_at(s, second_operator(s, pos, depth)) is Some,
        precedence(operator_at(s, second_operator(s, pos, depth))->Some_0.op) >= 0,
        spec_primary(s, third_operand(s, pos, depth), depth).result is Ok,
        operator_at(
            s,
            third_operand(s, pos, depth) + spec_primary(s, third_operand(s, pos, depth), depth).used,
        ) is None,
    ensures
        spec_expr(s, pos, depth).result == Ok::<ExprView, ParseErrorKind>(
            {
                let x = spec_primary(s, pos, depth).result->Ok_0;
                let y = spec_primary(s, second_operand(s, pos, depth), depth).result->Ok_0;
                let z = spec_primary(s, third_operand(s, pos, depth), depth).result->Ok_0;
                let op1 = operator_at(s, first_operator(s, pos, depth))->Some_0.op;
                let op2 = operator_at(s, second_operator(s, pos, depth))->Some_0.op;
                if precedence(op1) < precedence(op2) {
                    binary(x, op1, binary(y, op2, z))
                } else {
                    binary(binary(x, op1, y), op2, z)
                }
            },
        ),
{
    let x = spec_primary(s, pos, depth).result->Ok_0;
    let at1 = first_operator(s, pos, depth);
    let o1 = operator_at(s, at1)->Some_0;
    let at2 = second_operand(s, pos, depth);
    let second = spec_primary(s, at2, depth);
    let y = second.result->Ok_0;
    let at3 = second_operator(s, pos, depth);
    let o2 = operator_at(s, at3)->Some_0;
    let at4 = third_operand(s, pos, depth);
    let third = spec_primary(s, at4, depth);
    let z = third.result->Ok_0;
    let end = at4 + third.used;
    assert(precedence_at(s, end) == -1);
    assert(precedence_at(s, at3) == precedence(o2.op));
    if precedence(o1.op) < precedence(o2.op) {
        let inner = binary(y, o2.op, z);
        let min = precedence(o1.op) + 1;
        assert(spec_binary(s, end, min, inner, depth) == Parsed::<ExprView> {
            result: Ok(inner),
            used: 0,
        });
        let tighter = spec_binary(s, at3, min, y, depth);
        assert(tighter.result == Ok::<ExprView, ParseErrorKind>(inner) && at3 + tighter.used
            == end);
        let whole = binary(x, o1.op, inner);
        assert(spec_binary(s, end, 0, whole, depth) == Parsed::<ExprView> {
            result: Ok(whole),
            used: 0,
        });
        assert(spec_binary(s, at1, 0, x, depth).result == Ok::<ExprView, ParseErrorKind>(whole));
    } else {
        let left = binary(x, o1.op, y);
        let whole = binary(left, o2.op, z);
        assert(spec_binary(s, end, 0, whole, depth) == Parsed::<ExprView> {
            result: Ok(whole),
            used: 0,
        });
        let rest = spec_binary(s, at3, 0, left, depth);
        assert(rest.result == Ok::<ExprView, ParseErrorKind>(whole));
        assert(spec_binary(s, at1, 0, x, depth).result == Ok::<ExprView, ParseErrorKind>(whole));
    }
}

/// Where the operator behind the first operand of an expression begins.
pub open spec fn first_operator(s: Seq<char>, pos: int, depth: nat) -> int {
    pos + spec_primary(s, pos, depth).used
}

/// Where the second operand of an expression begins.
pub open spec fn second_operand(s: Seq<char>, pos: int, depth: nat) -> int {
    first_operator(s, pos, depth) + operator_at(s, first_operator(s, pos, depth))->Some_0.used
}

/// Where the operator behind the second operand of an expression begins.
pub open spec fn second_operator(s: Seq<char>, pos: int, depth: nat) -> int {
    second_operand(s, pos, depth) + spec_primary(s, second_operand(s, pos, depth), depth).used
}

/// Where the third operand of an expression begins.
pub open spec fn third_operand(s: Seq<char>, pos: int, depth: nat) -> int {
    second_operator(s, pos, depth) + operator_at(s, second_operator(s, pos, depth))->Some_0.used
}

} // verus!
