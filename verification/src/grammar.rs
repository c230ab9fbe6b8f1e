//! The grammar, as functions on streams of tokens.
//!
//! A parser is seen as its lookahead token and the tokens it has not pulled
//! yet. Each rule of the grammar is a function from such a parser to the
//! rule's result and the parser after it. The parser is proved against
//! these.
use crate::chars::ascii_digit;
use crate::lexer::{TokenKind, TokenView};
use crate::lexical::{number_char, run_end, tokens};
use crate::parser::{BaseTypeView, ExprView, ParseErrorView, ValueView};
use vstd::prelude::*;

verus! {

/// The mathematical value of a parser.
pub struct ParserView {
    /// The lookahead: the token that was pulled last, unless it is used up.
    pub current: Option<TokenView>,
    /// The tokens that are still to be pulled, in order.
    pub rest: Seq<TokenView>,
}

/// What a rule comes to: its result, and the parser after it.
pub struct Outcome<T> {
    pub result: Result<T, ParseErrorView>,
    pub parser: ParserView,
}

/// The parser that has pulled nothing of the text `s` yet.
pub open spec fn initial(s: Seq<char>) -> ParserView {
    ParserView { current: None, rest: tokens(s) }
}

/// Pulls one token: the first of the rest becomes the lookahead. Where
/// there is none left, the lookahead becomes empty.
pub open spec fn advance(p: ParserView) -> ParserView {
    if p.rest.len() > 0 {
        ParserView { current: Some(p.rest[0]), rest: p.rest.drop_first() }
    } else {
        ParserView { current: None, rest: p.rest }
    }
}

/// The texts that spell a number: digits and `.` only, at least one digit,
/// and at most one `.`. Of the texts that the tokenizer gives a number
/// literal, these are the ones that denote a 64-bit float.
pub open spec fn float_literal(text: Seq<char>) -> bool {
    &&& forall|i: int| 0 <= i < text.len() ==> number_char(#[trigger] text[i])
    &&& exists|i: int| 0 <= i < text.len() && ascii_digit(#[trigger] text[i])
    &&& forall|i: int, j: int|
        0 <= i < j < text.len() ==> !(#[trigger] text[i] == '.' && #[trigger] text[j] == '.')
}

/// An expression: a declaration, which starts with an identifier. A token
/// is pulled first if the lookahead is empty.
pub open spec fn expression(p: ParserView) -> Outcome<ExprView>
    decreases p.rest.len(), 4int,
{
    let p = if p.current is None {
        advance(p)
    } else {
        p
    };
    match p.current {
        None => Outcome { result: Err(ParseErrorView::NoMoreTokens), parser: p },
        Some(token) => if token.kind == TokenKind::Identifier {
            declaration(p)
        } else {
            Outcome { result: Err(ParseErrorView::UnexpectedToken(token)), parser: p }
        },
    }
}

/// A declaration: the identifier in the lookahead, `:=`, a value, and after
/// a value that is no function a `;`, which is used up.
pub open spec fn declaration(p: ParserView) -> Outcome<ExprView>
    decreases p.rest.len(), 3int,
{
    let identifier = p.current->0;
    let at_assign = advance(p);
    match at_assign.current {
        None => Outcome {
            result: Err(ParseErrorView::MissingTokenAfter(identifier)),
            parser: at_assign,
        },
        Some(assign) => if assign.kind != TokenKind::DeclAssign {
            Outcome { result: Err(ParseErrorView::UnexpectedToken(assign)), parser: at_assign }
        } else {
            let at_value = advance(at_assign);
            if at_value.current is None {
                Outcome {
                    result: Err(ParseErrorView::MissingTokenAfter(assign)),
                    parser: at_value,
                }
            } else {
                let parsed = value(at_value);
                let after = parsed.parser;
                match parsed.result {
                    Err(error) => Outcome { result: Err(error), parser: after },
                    Ok(value) => {
                        let declared = ExprView::Declaration { identifier: identifier.text, value };
                        if value is Function {
                            Outcome { result: Ok(declared), parser: after }
                        } else {
                            match after.current {
                                None => Outcome {
                                    result: Err(ParseErrorView::MissingTokenAfter(assign)),
                                    parser: after,
                                },
                                Some(end) => if end.kind != TokenKind::Semi {
                                    Outcome {
                                        result: Err(ParseErrorView::UnexpectedToken(end)),
                                        parser: after,
                                    }
                                } else {
                                    Outcome {
                                        result: Ok(declared),
                                        parser: ParserView { current: None, rest: after.rest },
                                    }
                                },
                            }
                        }
                    },
                }
            }
        },
    }
}

/// A value: the number or string literal in the lookahead, or the function
/// that starts with the `fn` in the lookahead.
pub open spec fn value(p: ParserView) -> Outcome<ValueView>
    decreases p.rest.len(), 2int,
{
    let token = p.current->0;
    if token.kind == TokenKind::Integer || token.kind == TokenKind::Float {
        if float_literal(token.text) {
            Outcome { result: Ok(ValueView::Number(token.text)), parser: advance(p) }
        } else {
            Outcome { result: Err(ParseErrorView::InvalidNumber(token)), parser: p }
        }
    } else if token.kind == TokenKind::String {
        Outcome { result: Ok(ValueView::String(token.text)), parser: advance(p) }
    } else if token.kind == TokenKind::Fn {
        function(p)
    } else {
        Outcome { result: Err(ParseErrorView::UnexpectedToken(token)), parser: p }
    }
}

/// A function: everything up to the first `{` is passed over, then comes
/// the body. Where there is no `{`, the error names the last token of the
/// input.
pub open spec fn function(p: ParserView) -> Outcome<ValueView>
    decreases p.rest.len(), 1int,
{
    let brace = run_end(p.rest, 0, |token: TokenView| token.kind != TokenKind::LeftCurly);
    let before = if brace == 0 {
        p.current->0
    } else {
        p.rest[brace - 1]
    };
    if 0 <= brace < p.rest.len() {
        body(
            ParserView { current: Some(p.rest[brace]), rest: p.rest.skip(brace + 1) },
            before,
            Seq::empty(),
        )
    } else {
        Outcome {
            result: Err(ParseErrorView::MissingTokenAfter(before)),
            parser: ParserView { current: None, rest: Seq::empty() },
        }
    }
}

/// The rest of a function's body, after the expressions `items`: either a
/// `}`, which ends the function and after which one more token is pulled,
/// or a token that is taken for the start of one more expression.
/// `previous` is the token that the error names where the input ends here:
/// the one before the `{` at first, then the one that started the last
/// expression.
pub open spec fn body(p: ParserView, previous: TokenView, items: Seq<ExprView>) -> Outcome<
    ValueView,
>
    decreases p.rest.len(), 0int,
{
    if p.rest.len() == 0 {
        Outcome { result: Err(ParseErrorView::MissingTokenAfter(previous)), parser: advance(p) }
    } else if p.rest[0].kind == TokenKind::RightCurly {
        Outcome {
            result: Ok(
                ValueView::Function {
                    params: Seq::empty(),
                    return_type: BaseTypeView::Void,
                    body: items,
                },
            ),
            parser: advance(advance(p)),
        }
    } else {
        let item = expression(advance(p));
        match item.result {
            Err(error) => Outcome { result: Err(error), parser: item.parser },
            Ok(expr) => if item.parser.rest.len() < p.rest.len() {
                body(item.parser, p.rest[0], items.push(expr))
            } else {
                // not reached, see `lemma_body_continues`: no rule gives tokens back
                Outcome { result: Err(ParseErrorView::NoMoreTokens), parser: item.parser }
            },
        }
    }
}

/// No rule gives tokens back: after an expression the parser has at most
/// as many tokens left to pull as before it.
pub proof fn lemma_expression_consumes(p: ParserView)
    ensures
        expression(p).parser.rest.len() <= p.rest.len(),
    decreases p.rest.len(), 4int,
{
    let q = if p.current is None {
        advance(p)
    } else {
        p
    };
    if q.current matches Some(token) && token.kind == TokenKind::Identifier {
        lemma_declaration_consumes(q);
    }
}

/// After a declaration the parser has at most as many tokens left to pull
/// as before it.
pub proof fn lemma_declaration_consumes(p: ParserView)
    ensures
        declaration(p).parser.rest.len() <= p.rest.len(),
    decreases p.rest.len(), 3int,
{
    let at_assign = advance(p);
    if at_assign.current matches Some(assign) && assign.kind == TokenKind::DeclAssign {
        let at_value = advance(at_assign);
        if at_value.current is Some {
            lemma_value_consumes(at_value);
        }
    }
}

/// After a value the parser has at most as many tokens left to pull as
/// before it.
pub proof fn lemma_value_consumes(p: ParserView)
    ensures
        value(p).parser.rest.len() <= p.rest.len(),
    decreases p.rest.len(), 2int,
{
    if (p.current->0).kind == TokenKind::Fn {
        lemma_function_consumes(p);
    }
}

/// After a function the parser has at most as many tokens left to pull as
/// before it.
pub proof fn lemma_function_consumes(p: ParserView)
    ensures
        function(p).parser.rest.len() <= p.rest.len(),
    decreases p.rest.len(), 1int,
{
    let brace = run_end(p.rest, 0, |token: TokenView| token.kind != TokenKind::LeftCurly);
    if 0 <= brace < p.rest.len() {
        let before = if brace == 0 {
            p.current->0
        } else {
            p.rest[brace - 1]
        };
        lemma_body_consumes(
            ParserView { current: Some(p.rest[brace]), rest: p.rest.skip(brace + 1) },
            before,
            Seq::empty(),
        );
    }
}

/// After the rest of a body the parser has at most as many tokens left to
/// pull as before it.
pub proof fn lemma_body_consumes(p: ParserView, previous: TokenView, items: Seq<ExprView>)
    ensures
        body(p, previous, items).parser.rest.len() <= p.rest.len(),
    decreases p.rest.len(), 0int,
{
    if p.rest.len() > 0 && p.rest[0].kind != TokenKind::RightCurly {
        let item = expression(advance(p));
        lemma_expression_consumes(advance(p));
        match item.result {
            Ok(expr) => {
                lemma_body_consumes(item.parser, p.rest[0], items.push(expr));
            },
            Err(_) => {},
        }
    }
}

/// The rest of a body goes on after each expression: the test in `body`
/// that the expression has left fewer tokens never fails.
pub proof fn lemma_body_continues(p: ParserView, previous: TokenView, items: Seq<ExprView>)
    requires
        p.rest.len() > 0,
        p.rest[0].kind != TokenKind::RightCurly,
    ensures
        expression(advance(p)).parser.rest.len() < p.rest.len(),
        body(p, previous, items) == match expression(advance(p)).result {
            Ok(expr) => body(expression(advance(p)).parser, p.rest[0], items.push(expr)),
            Err(error) => Outcome { result: Err(error), parser: expression(advance(p)).parser },
        },
{
    lemma_expression_consumes(advance(p));
}

/// The trees that the parser builds: declarations of numbers that spell a
/// float, of strings, and of functions without parameters, of return type
/// `Void`, whose bodies hold such declarations again.
pub open spec fn built_expr(expr: ExprView) -> bool
    decreases expr,
{
    match expr {
        ExprView::Declaration { identifier, value } => built_value(value),
        ExprView::Binary { .. } => false,
        ExprView::Block { .. } => false,
    }
}

/// The values that the parser builds.
pub open spec fn built_value(value: ValueView) -> bool
    decreases value,
{
    match value {
        ValueView::Number(text) => float_literal(text),
        ValueView::String(text) => true,
        ValueView::Function { params, return_type, body } => {
            &&& params.len() == 0
            &&& return_type == BaseTypeView::Void
            &&& forall|i: int| 0 <= i < body.len() ==> built_expr(#[trigger] body[i])
        },
    }
}

/// Whatever the text, an expression that the parser returns is a
/// declaration, every number in it spells a float, no function in it has a
/// parameter or a return type other than `Void`, and there is neither a
/// `Binary` nor a `Block` in it.
pub proof fn law_expression_is_built(p: ParserView)
    ensures
        expression(p).result matches Ok(expr) ==> built_expr(expr),
    decreases p.rest.len(), 4int,
{
    let q = if p.current is None {
        advance(p)
    } else {
        p
    };
    if q.current matches Some(token) && token.kind == TokenKind::Identifier {
        lemma_declaration_is_built(q);
    }
}

/// A declaration that the parser returns is one that it builds.
pub proof fn lemma_declaration_is_built(p: ParserView)
    ensures
        declaration(p).result matches Ok(expr) ==> built_expr(expr),
    decreases p.rest.len(), 3int,
{
    let at_assign = advance(p);
    if at_assign.current matches Some(assign) && assign.kind == TokenKind::DeclAssign {
        let at_value = advance(at_assign);
        if at_value.current is Some {
            lemma_value_is_built(at_value);
        }
    }
}

/// A value that the parser returns is one that it builds.
pub proof fn lemma_value_is_built(p: ParserView)
    ensures
        value(p).result matches Ok(value) ==> built_value(value),
    decreases p.rest.len(), 2int,
{
    if (p.current->0).kind == TokenKind::Fn {
        let brace = run_end(p.rest, 0, |token: TokenView| token.kind != TokenKind::LeftCurly);
        if 0 <= brace < p.rest.len() {
            let before = if brace == 0 {
                p.current->0
            } else {
                p.rest[brace - 1]
            };
            lemma_body_is_built(
                ParserView { current: Some(p.rest[brace]), rest: p.rest.skip(brace + 1) },
                before,
                Seq::empty(),
            );
        }
    }
}

/// A function that the parser returns is one that it builds, if the
/// expressions that its body starts with are.
pub proof fn lemma_body_is_built(p: ParserView, previous: TokenView, items: Seq<ExprView>)
    requires
        forall|i: int| 0 <= i < items.len() ==> built_expr(#[trigger] items[i]),
    ensures
        body(p, previous, items).result matches Ok(value) ==> built_value(value),
    decreases p.rest.len(), 0int,
{
    if p.rest.len() > 0 && p.rest[0].kind != TokenKind::RightCurly {
        let item = expression(advance(p));
        law_expression_is_built(advance(p));
        lemma_expression_consumes(advance(p));
        match item.result {
            Ok(expr) => {
                lemma_body_is_built(item.parser, p.rest[0], items.push(expr));
            },
            Err(_) => {},
        }
    }
}

/// At the end of the input, with nothing in the lookahead, the parser
/// reports `NoMoreTokens` and stays as it is: it reports the same again.
pub proof fn law_end_of_input_is_final(p: ParserView)
    requires
        p.current is None,
        p.rest.len() == 0,
    ensures
        expression(p).result == Err::<ExprView, ParseErrorView>(ParseErrorView::NoMoreTokens),
        expression(p).parser == p,
{
}

} // verus!
