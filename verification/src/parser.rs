//! The parser: the syntax tree, the errors, and the recursive-descent
//! parser that builds the one or reports the other.
use crate::chars::{ascii_digit, is_ascii_digit};
use crate::grammar::{self, float_literal, lemma_body_continues, ParserView};
use crate::lexer::{Lexer, Token, TokenKind, TokenView};
use crate::lexical::{
    lemma_next_token_advances, lemma_run_end_unique, next_token, number_char, tokens_from,
};
use vstd::prelude::*;

verus! {

/// Why parsing stopped.
#[derive(Debug, PartialEq, Eq)]
pub enum ParseError {
    /// The input ended where an expression could have started. This is how
    /// the end of the input shows, and no fault in it.
    NoMoreTokens,
    /// The input ended where the grammar asks for one more token; the token
    /// is one that was read before the end.
    MissingTokenAfter(Token),
    /// The token is not of a kind that the grammar accepts where it stands.
    UnexpectedToken(Token),
    /// The token is a number literal whose text denotes no number.
    InvalidNumber(Token),
}

/// The mathematical value of a [`ParseError`].
pub enum ParseErrorView {
    NoMoreTokens,
    MissingTokenAfter(TokenView),
    UnexpectedToken(TokenView),
    InvalidNumber(TokenView),
}

impl View for ParseError {
    type V = ParseErrorView;

    open spec fn view(&self) -> ParseErrorView {
        match self {
            ParseError::NoMoreTokens => ParseErrorView::NoMoreTokens,
            ParseError::MissingTokenAfter(token) => ParseErrorView::MissingTokenAfter(token@),
            ParseError::UnexpectedToken(token) => ParseErrorView::UnexpectedToken(token@),
            ParseError::InvalidNumber(token) => ParseErrorView::InvalidNumber(token@),
        }
    }
}

/// A parameter of a function.
#[derive(Debug, PartialEq, Eq)]
pub struct Param {
    pub identifier: String,
    pub basetype: BaseType,
}

/// A type of the language.
#[derive(Debug, PartialEq, Eq)]
pub enum BaseType {
    Void,
    Number,
    String,
    Function { params: Vec<Param>, return_type: Box<BaseType> },
}

/// The right-hand side of a declaration.
#[derive(Debug, PartialEq, Eq)]
pub enum ValueExpr {
    /// A number, held as the literal that spells it: decimal digits with at
    /// most one `.` among them, and at least one digit. It stands for the
    /// 64-bit float that the literal denotes.
    Number(String),
    /// A string, without its quotes.
    String(String),
    /// A function. The parser reads neither parameters nor a return type:
    /// in what it builds, `params` is empty and `return_type` is `Void`.
    Function { params: Vec<Param>, return_type: BaseType, body: Vec<Expr> },
}

/// An expression.
#[derive(Debug, PartialEq, Eq)]
pub enum Expr {
    /// An operator between two expressions. The parser builds none.
    Binary { left: Box<Expr>, right: Box<Expr>, operator: TokenKind },
    /// A name bound to a value.
    Declaration { identifier: String, value: Box<ValueExpr> },
    /// Expressions in sequence.
    Block { body: Vec<Expr> },
}

/// The mathematical value of a [`Param`].
pub struct ParamView {
    pub identifier: Seq<char>,
    pub basetype: BaseTypeView,
}

/// The mathematical value of a [`BaseType`].
pub enum BaseTypeView {
    Void,
    Number,
    String,
    Function { params: Seq<ParamView>, return_type: Box<BaseTypeView> },
}

/// The mathematical value of a [`ValueExpr`].
pub enum ValueView {
    Number(Seq<char>),
    String(Seq<char>),
    Function { params: Seq<ParamView>, return_type: BaseTypeView, body: Seq<ExprView> },
}

/// The mathematical value of an [`Expr`].
pub enum ExprView {
    Binary { left: Box<ExprView>, right: Box<ExprView>, operator: TokenKind },
    Declaration { identifier: Seq<char>, value: ValueView },
    Block { body: Seq<ExprView> },
}

/// The value of a parameter.
pub open spec fn param_view(param: Param) -> ParamView
    decreases param,
{
    ParamView { identifier: param.identifier@, basetype: base_type_view(param.basetype) }
}

/// The values of the parameters in a list.
pub open spec fn params_view(params: Vec<Param>) -> Seq<ParamView>
    decreases params,
{
    Seq::new(
        params@.len(),
        |i: int|
            if 0 <= i < params@.len() {
                param_view(params[i])
            } else {
                arbitrary()
            },
    )
}

/// The value of a type.
pub open spec fn base_type_view(basetype: BaseType) -> BaseTypeView
    decreases basetype,
{
    match basetype {
        BaseType::Void => BaseTypeView::Void,
        BaseType::Number => BaseTypeView::Number,
        BaseType::String => BaseTypeView::String,
        BaseType::Function { params, return_type } => BaseTypeView::Function {
            params: params_view(params),
            return_type: Box::new(base_type_view(*return_type)),
        },
    }
}

/// The values of the expressions in a list.
pub open spec fn exprs_view(exprs: Vec<Expr>) -> Seq<ExprView>
    decreases exprs,
{
    Seq::new(
        exprs@.len(),
        |i: int|
            if 0 <= i < exprs@.len() {
                expr_view(exprs[i])
            } else {
                arbitrary()
            },
    )
}

/// The value of a right-hand side.
pub open spec fn value_view(value: ValueExpr) -> ValueView
    decreases value,
{
    match value {
        ValueExpr::Number(text) => ValueView::Number(text@),
        ValueExpr::String(text) => ValueView::String(text@),
        ValueExpr::Function { params, return_type, body } => ValueView::Function {
            params: params_view(params),
            return_type: base_type_view(return_type),
            body: exprs_view(body),
        },
    }
}

/// The value of an expression.
pub open spec fn expr_view(expr: Expr) -> ExprView
    decreases expr,
{
    match expr {
        Expr::Binary { left, right, operator } => ExprView::Binary {
            left: Box::new(expr_view(*left)),
            right: Box::new(expr_view(*right)),
            operator,
        },
        Expr::Declaration { identifier, value } => ExprView::Declaration {
            identifier: identifier@,
            value: value_view(*value),
        },
        Expr::Block { body } => ExprView::Block { body: exprs_view(body) },
    }
}

impl View for Param {
    type V = ParamView;

    open spec fn view(&self) -> ParamView {
        param_view(*self)
    }
}

impl View for BaseType {
    type V = BaseTypeView;

    open spec fn view(&self) -> BaseTypeView {
        base_type_view(*self)
    }
}

impl View for ValueExpr {
    type V = ValueView;

    open spec fn view(&self) -> ValueView {
        value_view(*self)
    }
}

impl View for Expr {
    type V = ExprView;

    open spec fn view(&self) -> ExprView {
        expr_view(*self)
    }
}

/// The value of a rule's result: that of the tree, or that of the error.
pub open spec fn result_view<T: View>(result: Result<T, ParseError>) -> Result<
    T::V,
    ParseErrorView,
> {
    match result {
        Ok(tree) => Ok(tree@),
        Err(error) => Err(error@),
    }
}

/// Whether `text` spells a number.
fn is_number(text: &str) -> (valid: bool)
    ensures
        valid == float_literal(text@),
{
    let mut all_fit = true;
    let mut digit = false;
    let mut dot = false;
    let mut second_dot = false;
    for c in it: text.chars()
        invariant
            it.seq() == text@,
            all_fit == (forall|i: int| 0 <= i < it.index() ==> number_char(#[trigger] text@[i])),
            digit == (exists|i: int| 0 <= i < it.index() && ascii_digit(#[trigger] text@[i])),
            dot == (exists|i: int| 0 <= i < it.index() && #[trigger] text@[i] == '.'),
            second_dot == (exists|i: int, j: int|
                0 <= i < j < it.index() && #[trigger] text@[i] == '.' && #[trigger] text@[j]
                    == '.'),
    {
        if !(is_ascii_digit(c) || c == '.') {
            all_fit = false;
        }
        if is_ascii_digit(c) {
            digit = true;
        }
        if c == '.' {
            if dot {
                second_dot = true;
            }
            dot = true;
        }
    }
    all_fit && digit && !second_dot
}

/// A parser over one source text. It owns the tokenizer of the text and
/// one token of lookahead.
pub struct Parser {
    current: Option<Token>,
    lexer: Lexer,
}

impl View for Parser {
    type V = ParserView;

    closed spec fn view(&self) -> ParserView {
        ParserView {
            current: match self.current {
                Some(token) => Some(token@),
                None => None,
            },
            rest: tokens_from(self.lexer.source(), self.lexer.cursor()),
        }
    }
}

impl Parser {
    /// A parser at the start of `content`, with no token pulled yet.
    pub fn new(content: &str) -> (parser: Parser)
        ensures
            parser@ == grammar::initial(content@),
    {
        Parser { lexer: Lexer::new(content), current: None }
    }

    /// The lookahead.
    fn current(&self) -> (token: &Option<Token>)
        ensures
            *token == self.current,
    {
        &self.current
    }

    /// Pulls the next token into the lookahead, and returns the lookahead.
    fn advance(&mut self) -> (token: &Option<Token>)
        ensures
            final(self)@ == grammar::advance(old(self)@),
            *token == final(self).current,
    {
        let ghost s = self.lexer.source();
        let ghost pos = self.lexer.cursor();
        self.current = self.lexer.tokenize();
        proof {
            lemma_next_token_advances(s, pos);
            match next_token(s, pos) {
                Some(scanned) => {
                    assert(tokens_from(s, pos).drop_first() =~= tokens_from(s, scanned.next));
                },
                None => {
                    assert(next_token(s, s.len() as int) is None);
                },
            }
        }
        &self.current
    }

    /// Parses the function that starts with the `fn` in the lookahead.
    fn parse_function(&mut self) -> (result: Result<ValueExpr, ParseError>)
        requires
            old(self)@.current is Some,
        ensures
            final(self)@ == grammar::function(old(self)@).parser,
            result_view(result) == grammar::function(old(self)@).result,
        decreases old(self)@.rest.len(), 1int,
    {
        let ghost entry = self@;
        let ghost mut skipped: int = 0;
        // the parameters and the return type are not read yet
        let mut body: Vec<Expr> = Vec::new();

        // pass over everything up to the left curly
        let mut previous = self.current().as_ref().unwrap().clone();
        assert(entry.rest.skip(0) =~= entry.rest);
        loop
            invariant_except_break
                self@.rest == entry.rest.skip(skipped),
            invariant
                entry == old(self)@,
                0 <= skipped <= entry.rest.len(),
                forall|i: int|
                    0 <= i < skipped ==> (#[trigger] entry.rest[i]).kind != TokenKind::LeftCurly,
                previous@ == if skipped == 0 {
                    entry.current->0
                } else {
                    entry.rest[skipped - 1]
                },
            ensures
                skipped < entry.rest.len(),
                entry.rest[skipped].kind == TokenKind::LeftCurly,
                self@.current == Some(entry.rest[skipped]),
                self@.rest == entry.rest.skip(skipped + 1),
            decreases entry.rest.len() - skipped,
        {
            proof {
                if skipped < entry.rest.len() {
                    assert(entry.rest.skip(skipped).drop_first() =~= entry.rest.skip(skipped + 1));
                }
            }
            match self.advance() {
                Some(token) => {
                    if token.kind == TokenKind::LeftCurly {
                        break ;
                    }
                    previous = token.clone();
                },
                None => {
                    proof {
                        lemma_run_end_unique(
                            entry.rest,
                            0,
                            skipped,
                            |token: TokenView| token.kind != TokenKind::LeftCurly,
                        );
                        assert(self@.rest =~= Seq::empty());
                    }
                    return Err(ParseError::MissingTokenAfter(previous));
                },
            }
            proof {
                skipped = skipped + 1;
            }
        }
        proof {
            lemma_run_end_unique(
                entry.rest,
                0,
                skipped,
                |token: TokenView| token.kind != TokenKind::LeftCurly,
            );
            assert(exprs_view(body) =~= Seq::empty());
        }

        // take expressions until the right curly
        loop
            invariant_except_break
                self@.rest.len() < entry.rest.len(),
                grammar::body(self@, previous@, exprs_view(body)) == grammar::function(entry),
            invariant
                entry == old(self)@,
            ensures
                self@ == grammar::function(entry).parser,
                grammar::function(entry).result == Ok::<ValueView, ParseErrorView>(
                    ValueView::Function {
                        params: Seq::empty(),
                        return_type: BaseTypeView::Void,
                        body: exprs_view(body),
                    },
                ),
            decreases self@.rest.len(),
        {
            let ghost before = self@;
            let ghost items = exprs_view(body);
            let token = match self.advance() {
                Some(token) => token,
                None => {
                    return Err(ParseError::MissingTokenAfter(previous));
                },
            };
            if token.kind == TokenKind::RightCurly {
                self.advance();
                break ;
            }
            previous = token.clone();
            proof {
                lemma_body_continues(before, previous@, items);
            }
            let expr = match self.parse() {
                Ok(expr) => expr,
                Err(error) => {
                    return Err(error);
                },
            };
            body.push(expr);
            assert(exprs_view(body) =~= items.push(expr@));
        }

        let params: Vec<Param> = Vec::new();
        assert(params_view(params) =~= Seq::empty());
        Ok(ValueExpr::Function { params, return_type: BaseType::Void, body })
    }

    /// Parses the value that starts with the lookahead.
    fn parse_value(&mut self) -> (result: Result<ValueExpr, ParseError>)
        requires
            old(self)@.current is Some,
        ensures
            final(self)@ == grammar::value(old(self)@).parser,
            result_view(result) == grammar::value(old(self)@).result,
        decreases old(self)@.rest.len(), 2int,
    {
        let token = self.current().as_ref().unwrap().clone();
        match token.kind {
            // for now all numbers are of one type
            TokenKind::Integer | TokenKind::Float => {
                if !is_number(token.value.as_str()) {
                    return Err(ParseError::InvalidNumber(token));
                }
                self.advance();
                Ok(ValueExpr::Number(token.value))
            },
            TokenKind::String => {
                self.advance();
                Ok(ValueExpr::String(token.value))
            },
            TokenKind::Fn => self.parse_function(),
            _ => Err(ParseError::UnexpectedToken(token)),
        }
    }

    /// Parses the declaration that starts with the identifier in the
    /// lookahead.
    fn parse_identifier(&mut self) -> (result: Result<Expr, ParseError>)
        requires
            old(self)@.current is Some,
        ensures
            final(self)@ == grammar::declaration(old(self)@).parser,
            result_view(result) == grammar::declaration(old(self)@).result,
        decreases old(self)@.rest.len(), 3int,
    {
        let ident = self.current().as_ref().unwrap().clone();
        let next = match self.advance() {
            Some(token) => token.clone(),
            None => {
                return Err(ParseError::MissingTokenAfter(ident));
            },
        };
        match next.kind {
            TokenKind::DeclAssign => {
                if self.advance().is_none() {
                    return Err(ParseError::MissingTokenAfter(next));
                }
                let value_expr = match self.parse_value() {
                    Ok(value_expr) => value_expr,
                    Err(error) => {
                        return Err(error);
                    },
                };
                match value_expr {
                    ValueExpr::Function { .. } => {},
                    _ => {
                        match self.current() {
                            Some(token) => {
                                if token.kind != TokenKind::Semi {
                                    return Err(ParseError::UnexpectedToken(token.clone()));
                                }
                            },
                            None => {
                                return Err(ParseError::MissingTokenAfter(next));
                            },
                        }
                        // the semicolon ends the declaration and is used up
                        self.current = None;
                    },
                }
                Ok(Expr::Declaration { identifier: ident.value, value: Box::new(value_expr) })
            },
            _ => Err(ParseError::UnexpectedToken(next)),
        }
    }

    /// Parses the next expression. `Err(NoMoreTokens)` says that the input
    /// has ended; every other error is a fault in the input.
    pub fn parse(&mut self) -> (result: Result<Expr, ParseError>)
        ensures
            final(self)@ == grammar::expression(old(self)@).parser,
            result_view(result) == grammar::expression(old(self)@).result,
        decreases old(self)@.rest.len(), 4int,
    {
        if self.current().is_none() {
            self.advance();
        }
        let token = match self.current() {
            Some(token) => token,
            None => {
                return Err(ParseError::NoMoreTokens);
            },
        };
        match token.kind {
            TokenKind::Identifier => self.parse_identifier(),
            _ => Err(ParseError::UnexpectedToken(token.clone())),
        }
    }
}

} // verus!
