//! The lexical grammar, as functions on sequences of characters.
//!
//! [`next_token`] says which token starts at a cursor and where the cursor
//! stands after it; [`tokens_from`] is the whole stream of tokens from a
//! cursor on. The tokenizer is proved against these.
use crate::chars::{ascii_alphabetic, ascii_alphanumeric, ascii_digit, white_space};
use crate::lexer::{TokenKind, TokenView};
use vstd::prelude::*;

verus! {

/// The end of the longest run of members of a class that starts at `from`:
/// the first index at or after `from` that holds no member, or the length
/// of `s` if there is none.
pub open spec fn run_end<A>(s: Seq<A>, from: int, member: spec_fn(A) -> bool) -> int
    decreases s.len() - from,
{
    if 0 <= from < s.len() && member(s[from]) {
        run_end(s, from + 1, member)
    } else {
        from
    }
}

/// A run ends within the sequence, holds only members, and cannot be
/// extended.
pub proof fn lemma_run_end_is_maximal<A>(s: Seq<A>, from: int, member: spec_fn(A) -> bool)
    requires
        0 <= from <= s.len(),
    ensures
        from <= run_end(s, from, member) <= s.len(),
        forall|i: int| from <= i < run_end(s, from, member) ==> member(#[trigger] s[i]),
        run_end(s, from, member) < s.len() ==> !member(s[run_end(s, from, member)]),
    decreases s.len() - from,
{
    if from < s.len() && member(s[from]) {
        lemma_run_end_is_maximal(s, from + 1, member);
    }
}

/// The end of a run is the one index `end` such that all of `from..end`
/// are members and `end` is not.
pub proof fn lemma_run_end_unique<A>(s: Seq<A>, from: int, end: int, member: spec_fn(A) -> bool)
    requires
        0 <= from <= end <= s.len(),
        forall|i: int| from <= i < end ==> member(#[trigger] s[i]),
        end < s.len() ==> !member(s[end]),
    ensures
        run_end(s, from, member) == end,
    decreases end - from,
{
    if from < end {
        lemma_run_end_unique(s, from + 1, end, member);
    }
}

/// The characters of a number literal: the ASCII digits and `.`.
pub open spec fn number_char(c: char) -> bool {
    ascii_digit(c) || c == '.'
}

/// The characters that may start an identifier or a keyword.
pub open spec fn identifier_start(c: char) -> bool {
    ascii_alphabetic(c) || c == '_'
}

/// The symbol table, part one: the kind of each one-character symbol.
pub open spec fn symbol_kind(c: char) -> Option<TokenKind> {
    if c == '{' {
        Some(TokenKind::LeftCurly)
    } else if c == '}' {
        Some(TokenKind::RightCurly)
    } else if c == '(' {
        Some(TokenKind::LeftParen)
    } else if c == ')' {
        Some(TokenKind::RightParen)
    } else if c == '[' {
        Some(TokenKind::LeftBracket)
    } else if c == ']' {
        Some(TokenKind::RightBracket)
    } else if c == '.' {
        Some(TokenKind::Dot)
    } else if c == ',' {
        Some(TokenKind::Comma)
    } else if c == ':' {
        Some(TokenKind::Colon)
    } else if c == ';' {
        Some(TokenKind::Semi)
    } else if c == '=' {
        Some(TokenKind::Assign)
    } else if c == '+' {
        Some(TokenKind::Plus)
    } else if c == '-' {
        Some(TokenKind::Minus)
    } else if c == '*' {
        Some(TokenKind::Times)
    } else if c == '/' {
        Some(TokenKind::DividedBy)
    } else if c == '!' {
        Some(TokenKind::Not)
    } else if c == '>' {
        Some(TokenKind::GreaterThan)
    } else if c == '<' {
        Some(TokenKind::LowerThan)
    } else if c == '&' {
        Some(TokenKind::BitAnd)
    } else if c == '|' {
        Some(TokenKind::BitOr)
    } else if c == '^' {
        Some(TokenKind::BitXor)
    } else if c == '~' {
        Some(TokenKind::BitNot)
    } else {
        None
    }
}

/// The symbol table, part two: the kind of each two-character symbol.
/// `:`, `=`, `!`, `>` and `<` widen with a following `=`; `&` and `|` widen
/// when doubled.
pub open spec fn widened_kind(c: char, next: char) -> Option<TokenKind> {
    if c == ':' && next == '=' {
        Some(TokenKind::DeclAssign)
    } else if c == '=' && next == '=' {
        Some(TokenKind::Equals)
    } else if c == '!' && next == '=' {
        Some(TokenKind::NotEquals)
    } else if c == '>' && next == '=' {
        Some(TokenKind::GreaterOrEquals)
    } else if c == '<' && next == '=' {
        Some(TokenKind::LowerOrEquals)
    } else if c == '&' && next == '&' {
        Some(TokenKind::And)
    } else if c == '|' && next == '|' {
        Some(TokenKind::Or)
    } else {
        None
    }
}

/// The spelling made of `first` and, where there is one, `second`.
pub open spec fn spelling(first: char, second: Option<char>) -> Seq<char> {
    match second {
        Some(next) => seq![first, next],
        None => seq![first],
    }
}

/// The symbol table as a whole: the kind that a spelling stands for, if the
/// spelling is a symbol.
pub open spec fn symbol_table(spelling: Seq<char>) -> Option<TokenKind> {
    if spelling.len() == 1 {
        symbol_kind(spelling[0])
    } else if spelling.len() == 2 {
        widened_kind(spelling[0], spelling[1])
    } else {
        None
    }
}

/// The characters that start a symbol.
pub open spec fn symbol_char(c: char) -> bool {
    symbol_kind(c) is Some
}

/// The kind of a scanned word: that of the keyword it spells, or
/// `Identifier`.
pub open spec fn keyword_kind(text: Seq<char>) -> TokenKind {
    if text == "fn"@ {
        TokenKind::Fn
    } else if text == "mut"@ {
        TokenKind::Mut
    } else if text == "if"@ {
        TokenKind::If
    } else if text == "else"@ {
        TokenKind::Else
    } else {
        TokenKind::Identifier
    }
}

/// What `keyword_kind` says, character by character.
pub proof fn lemma_keyword_kind(text: Seq<char>)
    ensures
        keyword_kind(text) == TokenKind::Fn <==> text.len() == 2 && text[0] == 'f' && text[1]
            == 'n',
        keyword_kind(text) == TokenKind::Mut <==> text.len() == 3 && text[0] == 'm' && text[1]
            == 'u' && text[2] == 't',
        keyword_kind(text) == TokenKind::If <==> text.len() == 2 && text[0] == 'i' && text[1]
            == 'f',
        keyword_kind(text) == TokenKind::Else <==> text.len() == 4 && text[0] == 'e' && text[1]
            == 'l' && text[2] == 's' && text[3] == 'e',
{
    reveal_strlit("fn");
    reveal_strlit("mut");
    reveal_strlit("if");
    reveal_strlit("else");
    let (word_fn, word_mut, word_if, word_else) = ("fn"@, "mut"@, "if"@, "else"@);
    if text.len() == 2 && text[0] == 'f' && text[1] == 'n' {
        assert(text =~= word_fn);
    }
    if text.len() == 3 && text[0] == 'm' && text[1] == 'u' && text[2] == 't' {
        assert(text =~= word_mut);
    }
    if text.len() == 2 && text[0] == 'i' && text[1] == 'f' {
        assert(text =~= word_if);
    }
    if text.len() == 4 && text[0] == 'e' && text[1] == 'l' && text[2] == 's' && text[3] == 'e' {
        assert(text =~= word_else);
    }
    assert(word_fn[0] == 'f' && word_fn[1] == 'n');
    assert(word_mut[0] == 'm' && word_mut[1] == 'u' && word_mut[2] == 't');
    assert(word_if[0] == 'i' && word_if[1] == 'f');
    assert(word_else[0] == 'e' && word_else[1] == 'l' && word_else[2] == 's' && word_else[3]
        == 'e');
}

/// A scanned token, and the cursor after it.
pub struct Scanned {
    pub token: TokenView,
    pub next: int,
}

/// The kind of a number literal: `Float` if its text holds a `.`, and
/// `Integer` if not. How many `.` it holds is not examined.
pub open spec fn number_kind(text: Seq<char>) -> TokenKind {
    if text.contains('.') {
        TokenKind::Float
    } else {
        TokenKind::Integer
    }
}

/// The number literal that starts at `start`: the longest run of digits and
/// `.`.
pub open spec fn scan_number(s: Seq<char>, start: int) -> Scanned {
    let end = run_end(s, start, |c: char| number_char(c));
    let text = s.subrange(start, end);
    Scanned { token: TokenView { kind: number_kind(text), text }, next: end }
}

/// The identifier or keyword that starts at `start`: the first character,
/// then the longest run of ASCII letters and digits. A `_` can only stand
/// first: anywhere else it ends the word and starts the next one.
pub open spec fn scan_identifier(s: Seq<char>, start: int) -> Scanned {
    let end = run_end(s, start + 1, |c: char| ascii_alphanumeric(c));
    let text = s.subrange(start, end);
    Scanned { token: TokenView { kind: keyword_kind(text), text }, next: end }
}

/// The string literal whose opening quote stands at `start`. Its text is
/// what stands between the quotes; there are no escapes. Where the input
/// ends before a closing quote, the token is `Unknown` and its text is what
/// follows the opening quote.
pub open spec fn scan_string(s: Seq<char>, start: int) -> Scanned {
    let close = run_end(s, start + 1, |c: char| c != '"');
    let text = s.subrange(start + 1, close);
    if close < s.len() {
        Scanned { token: TokenView { kind: TokenKind::String, text }, next: close + 1 }
    } else {
        Scanned { token: TokenView { kind: TokenKind::Unknown, text }, next: close }
    }
}

/// The symbol that starts at `start`: the two-character symbol if the
/// character at `start` and the one after it spell one, else the
/// one-character symbol.
pub open spec fn scan_symbol(s: Seq<char>, start: int) -> Scanned {
    if start + 1 < s.len() && widened_kind(s[start], s[start + 1]) is Some {
        Scanned {
            token: TokenView {
                kind: widened_kind(s[start], s[start + 1])->0,
                text: s.subrange(start, start + 2),
            },
            next: start + 2,
        }
    } else {
        Scanned {
            token: TokenView {
                kind: match symbol_kind(s[start]) {
                    Some(kind) => kind,
                    None => TokenKind::Unknown,
                },
                text: s.subrange(start, start + 1),
            },
            next: start + 1,
        }
    }
}

/// The unrecognized text that starts at `start`: the first character, then
/// everything up to the next white space.
pub open spec fn scan_unknown(s: Seq<char>, start: int) -> Scanned {
    let end = run_end(s, start + 1, |c: char| !white_space(c));
    Scanned {
        token: TokenView { kind: TokenKind::Unknown, text: s.subrange(start, end) },
        next: end,
    }
}

/// Where the next token starts: the first index at or after `pos` that
/// holds no white space, or the length of `s`.
pub open spec fn token_start(s: Seq<char>, pos: int) -> int {
    run_end(s, pos, |c: char| white_space(c))
}

/// The token that follows the cursor `pos`, and the cursor after it; `None`
/// where only white space is left. The first character after the white
/// space picks the rule, and the first rule that fits wins: number, word,
/// string, symbol, unrecognized text.
pub open spec fn next_token(s: Seq<char>, pos: int) -> Option<Scanned> {
    let start = token_start(s, pos);
    if 0 <= start < s.len() {
        let c = s[start];
        Some(
            if number_char(c) {
                scan_number(s, start)
            } else if identifier_start(c) {
                scan_identifier(s, start)
            } else if c == '"' {
                scan_string(s, start)
            } else if symbol_char(c) {
                scan_symbol(s, start)
            } else {
                scan_unknown(s, start)
            },
        )
    } else {
        None
    }
}

/// Every token takes at least one character, and ends within the text.
pub proof fn lemma_next_token_advances(s: Seq<char>, pos: int)
    requires
        0 <= pos <= s.len(),
    ensures
        next_token(s, pos) matches Some(scanned) ==> pos < scanned.next <= s.len(),
{
    let start = token_start(s, pos);
    lemma_run_end_is_maximal(s, pos, |c: char| white_space(c));
    if start < s.len() {
        lemma_run_end_is_maximal(s, start, |c: char| number_char(c));
        lemma_run_end_is_maximal(s, start + 1, |c: char| ascii_alphanumeric(c));
        lemma_run_end_is_maximal(s, start + 1, |c: char| c != '"');
        lemma_run_end_is_maximal(s, start + 1, |c: char| !white_space(c));
    }
}

/// The tokens of `s` from the cursor `pos` on, in order.
pub open spec fn tokens_from(s: Seq<char>, pos: int) -> Seq<TokenView>
    decreases s.len() - pos,
    via tokens_from_terminates
{
    if 0 <= pos <= s.len() {
        match next_token(s, pos) {
            Some(scanned) => seq![scanned.token] + tokens_from(s, scanned.next),
            None => Seq::empty(),
        }
    } else {
        Seq::empty()
    }
}

#[via_fn]
proof fn tokens_from_terminates(s: Seq<char>, pos: int) {
    if 0 <= pos <= s.len() {
        lemma_next_token_advances(s, pos);
    }
}

/// The tokens of a whole text.
pub open spec fn tokens(s: Seq<char>) -> Seq<TokenView> {
    tokens_from(s, 0)
}

/// Where nothing but white space is left, there is no token: of a text
/// that is all white space the tokenizer returns `None` at once.
pub proof fn law_white_space_holds_no_token(s: Seq<char>, pos: int)
    requires
        0 <= pos <= s.len(),
        forall|i: int| pos <= i < s.len() ==> white_space(#[trigger] s[i]),
    ensures
        next_token(s, pos) is None,
        tokens_from(s, pos) == Seq::<TokenView>::empty(),
{
    lemma_run_end_unique(s, pos, s.len() as int, |c: char| white_space(c));
}

/// Once the tokenizer has returned `None`, its cursor stands at the end of
/// the text, and from there it returns `None` again.
pub proof fn law_end_is_final(s: Seq<char>)
    ensures
        next_token(s, s.len() as int) is None,
{
}

/// A run of digits and `.` that no digit and no `.` follows is one token:
/// its text is the run, and it is a `Float` if a `.` is in the run and an
/// `Integer` if none is.
pub proof fn law_number_is_its_run(s: Seq<char>, start: int, end: int)
    requires
        0 <= start < end <= s.len(),
        forall|i: int| start <= i < end ==> number_char(#[trigger] s[i]),
        end < s.len() ==> !number_char(s[end]),
    ensures
        next_token(s, start) matches Some(scanned) && scanned.next == end && scanned.token.text
            == s.subrange(start, end) && (scanned.token.kind == TokenKind::Float
            || scanned.token.kind == TokenKind::Integer) && (scanned.token.kind
            == TokenKind::Float <==> exists|i: int| start <= i < end && #[trigger] s[i] == '.'),
{
    assert(!white_space(s[start]));
    lemma_run_end_unique(s, start, start, |c: char| white_space(c));
    lemma_run_end_unique(s, start, end, |c: char| number_char(c));
    let text = s.subrange(start, end);
    if text.contains('.') {
        let i = choose|i: int| 0 <= i < text.len() && text[i] == '.';
        assert(s[start + i] == '.');
    }
    if exists|i: int| start <= i < end && #[trigger] s[i] == '.' {
        let i = choose|i: int| start <= i < end && #[trigger] s[i] == '.';
        assert(text[i - start] == '.');
    }
}

/// A run of ASCII letters that no letter or digit follows is one token, and
/// its text is the run. It is the keyword `Fn`, `Mut`, `If` or `Else` if it
/// spells `fn`, `mut`, `if` or `else`, and an `Identifier` if it spells
/// anything else.
pub proof fn law_word_is_keyword_or_identifier(s: Seq<char>, start: int, end: int)
    requires
        0 <= start < end <= s.len(),
        forall|i: int| start <= i < end ==> ascii_alphabetic(#[trigger] s[i]),
        end < s.len() ==> !ascii_alphanumeric(s[end]),
    ensures
        next_token(s, start) matches Some(scanned) && scanned.next == end && scanned.token.text
            == s.subrange(start, end),
        ({
            let word = s.subrange(start, end);
            let kind = next_token(s, start)->0.token.kind;
            &&& word == "fn"@ ==> kind == TokenKind::Fn
            &&& word == "mut"@ ==> kind == TokenKind::Mut
            &&& word == "if"@ ==> kind == TokenKind::If
            &&& word == "else"@ ==> kind == TokenKind::Else
            &&& word != "fn"@ && word != "mut"@ && word != "if"@ && word != "else"@ ==> kind
                == TokenKind::Identifier
        }),
{
    assert(ascii_alphabetic(s[start]));
    lemma_run_end_unique(s, start, start, |c: char| white_space(c));
    assert forall|i: int| start + 1 <= i < end implies ascii_alphanumeric(#[trigger] s[i]) by {
        assert(ascii_alphabetic(s[i]));
    }
    lemma_run_end_unique(s, start + 1, end, |c: char| ascii_alphanumeric(c));
    reveal_strlit("fn");
    reveal_strlit("mut");
    reveal_strlit("if");
    reveal_strlit("else");
    lemma_keyword_kind(s.subrange(start, end));
}

/// White space before a token changes nothing: the tokens from a cursor on
/// are those from the end of a run of white space that starts there.
pub proof fn law_white_space_is_skipped(s: Seq<char>, pos: int, end: int)
    requires
        0 <= pos <= end <= s.len(),
        forall|i: int| pos <= i < end ==> white_space(#[trigger] s[i]),
    ensures
        next_token(s, pos) == next_token(s, end),
        tokens_from(s, pos) == tokens_from(s, end),
{
    let start = token_start(s, end);
    lemma_run_end_is_maximal(s, end, |c: char| white_space(c));
    lemma_run_end_unique(s, pos, start, |c: char| white_space(c));
}

/// The end of a run does not depend on what stands before the run.
pub proof fn lemma_run_end_of_suffix<A>(
    before: Seq<A>,
    s: Seq<A>,
    from: int,
    member: spec_fn(A) -> bool,
)
    requires
        0 <= from <= s.len(),
    ensures
        run_end(before + s, before.len() + from, member) == before.len() + run_end(s, from, member),
    decreases s.len() - from,
{
    if from < s.len() {
        assert((before + s)[before.len() + from] == s[from]);
        if member(s[from]) {
            lemma_run_end_of_suffix(before, s, from + 1, member);
        }
    }
}

/// The next token does not depend on what stands before the cursor.
pub proof fn lemma_next_token_of_suffix(before: Seq<char>, s: Seq<char>, pos: int)
    requires
        0 <= pos <= s.len(),
    ensures
        next_token(before + s, before.len() + pos) == match next_token(s, pos) {
            Some(scanned) => Some(
                Scanned { token: scanned.token, next: before.len() + scanned.next },
            ),
            None => None,
        },
{
    let whole = before + s;
    let shift = before.len() as int;
    lemma_run_end_of_suffix(before, s, pos, |c: char| white_space(c));
    lemma_run_end_is_maximal(s, pos, |c: char| white_space(c));
    let start = token_start(s, pos);
    if start < s.len() {
        let c = s[start];
        assert(whole[shift + start] == c);
        if number_char(c) {
            let end = run_end(s, start, |c: char| number_char(c));
            lemma_run_end_of_suffix(before, s, start, |c: char| number_char(c));
            lemma_run_end_is_maximal(s, start, |c: char| number_char(c));
            assert(whole.subrange(shift + start, shift + end) =~= s.subrange(start, end));
        } else if identifier_start(c) {
            let end = run_end(s, start + 1, |c: char| ascii_alphanumeric(c));
            lemma_run_end_of_suffix(before, s, start + 1, |c: char| ascii_alphanumeric(c));
            lemma_run_end_is_maximal(s, start + 1, |c: char| ascii_alphanumeric(c));
            assert(whole.subrange(shift + start, shift + end) =~= s.subrange(start, end));
        } else if c == '"' {
            let close = run_end(s, start + 1, |c: char| c != '"');
            lemma_run_end_of_suffix(before, s, start + 1, |c: char| c != '"');
            lemma_run_end_is_maximal(s, start + 1, |c: char| c != '"');
            assert(whole.subrange(shift + start + 1, shift + close) =~= s.subrange(
                start + 1,
                close,
            ));
        } else if symbol_char(c) {
            if start + 1 < s.len() {
                assert(whole[shift + start + 1] == s[start + 1]);
                assert(whole.subrange(shift + start, shift + start + 2) =~= s.subrange(
                    start,
                    start + 2,
                ));
            }
            assert(whole.subrange(shift + start, shift + start + 1) =~= s.subrange(
                start,
                start + 1,
            ));
        } else {
            let end = run_end(s, start + 1, |c: char| !white_space(c));
            lemma_run_end_of_suffix(before, s, start + 1, |c: char| !white_space(c));
            lemma_run_end_is_maximal(s, start + 1, |c: char| !white_space(c));
            assert(whole.subrange(shift + start, shift + end) =~= s.subrange(start, end));
        }
    }
}

/// The tokens from a cursor on do not depend on what stands before the
/// cursor.
pub proof fn lemma_tokens_of_suffix(before: Seq<char>, s: Seq<char>, pos: int)
    requires
        0 <= pos <= s.len(),
    ensures
        tokens_from(before + s, before.len() + pos) == tokens_from(s, pos),
    decreases s.len() - pos,
{
    lemma_next_token_of_suffix(before, s, pos);
    lemma_next_token_advances(s, pos);
    match next_token(s, pos) {
        Some(scanned) => {
            lemma_tokens_of_suffix(before, s, scanned.next);
        },
        None => {},
    }
}

/// The tokens from a cursor on are the tokens of the text that is left:
/// the tokenizer never looks back.
pub proof fn law_tokens_are_those_of_the_rest(s: Seq<char>, pos: int)
    requires
        0 <= pos <= s.len(),
    ensures
        tokens_from(s, pos) == tokens(s.skip(pos)),
{
    assert(s.take(pos) + s.skip(pos) =~= s);
    lemma_tokens_of_suffix(s.take(pos), s.skip(pos), 0);
}

/// No two spellings of the symbol table stand for one kind, and none
/// stands for `Unknown`.
pub proof fn law_symbol_kinds_are_distinct(one: Seq<char>, other: Seq<char>)
    requires
        symbol_table(one) is Some,
        symbol_table(one) == symbol_table(other),
    ensures
        one == other,
        symbol_table(one) != Some(TokenKind::Unknown),
{
    assert(one =~= other);
}

/// The token that a symbol of the table is read as.
pub open spec fn symbol_token(symbol: Seq<char>) -> TokenView {
    TokenView { kind: symbol_table(symbol)->0, text: symbol }
}

/// A symbol of the table other than `.`, with white space or the end of
/// the text after it, is read as one token: that symbol. (A `.` starts a
/// number: the rule for numbers comes first.)
pub proof fn law_symbol_is_read_back(s: Seq<char>, pos: int, symbol: Seq<char>)
    requires
        symbol_table(symbol) is Some,
        symbol != seq!['.'],
        0 <= pos,
        pos + symbol.len() <= s.len(),
        s.subrange(pos, pos + symbol.len()) == symbol,
        pos + symbol.len() < s.len() ==> white_space(s[pos + symbol.len()]),
    ensures
        next_token(s, pos) == Some(
            Scanned { token: symbol_token(symbol), next: pos + symbol.len() },
        ),
{
    assert(s[pos] == symbol[0]);
    if symbol.len() == 1 {
        assert(symbol[0] != '.') by {
            if symbol[0] == '.' {
                assert(symbol =~= seq!['.']);
            }
        }
    } else {
        assert(s[pos + 1] == symbol[1]);
    }
    lemma_run_end_unique(s, pos, pos, |c: char| white_space(c));
}

/// The text that spells the symbols in order, with `gap` after each.
pub open spec fn spelled_out(symbols: Seq<Seq<char>>, gap: Seq<char>) -> Seq<char>
    decreases symbols.len(),
{
    if symbols.len() == 0 {
        Seq::empty()
    } else {
        symbols[0] + gap + spelled_out(symbols.drop_first(), gap)
    }
}

/// Symbols that are spelled out with white space between them are read
/// back as they were written: one token for each, of its kind and with its
/// spelling, in order. This holds of every symbol of the table but `.`.
pub proof fn law_symbols_are_read_back(symbols: Seq<Seq<char>>, gap: Seq<char>)
    requires
        forall|i: int|
            0 <= i < symbols.len() ==> symbol_table(#[trigger] symbols[i]) is Some && symbols[i]
                != seq!['.'],
        gap.len() > 0,
        forall|i: int| 0 <= i < gap.len() ==> white_space(#[trigger] gap[i]),
    ensures
        tokens(spelled_out(symbols, gap)) == symbols.map_values(
            |symbol: Seq<char>| symbol_token(symbol),
        ),
    decreases symbols.len(),
{
    let read = symbols.map_values(|symbol: Seq<char>| symbol_token(symbol));
    if symbols.len() == 0 {
        assert(tokens(spelled_out(symbols, gap)) =~= read);
    } else {
        let first = symbols[0];
        let others = symbols.drop_first();
        let tail = spelled_out(others, gap);
        let s = spelled_out(symbols, gap);
        let after_first = first.len() as int;
        let after_gap = after_first + gap.len();
        assert(s =~= (first + gap) + tail);
        assert(s.subrange(0, after_first) =~= first);
        assert(s[after_first] == gap[0]);
        law_symbol_is_read_back(s, 0, first);
        assert forall|i: int| after_first <= i < after_gap implies white_space(#[trigger] s[i]) by {
            assert(s[i] == gap[i - after_first]);
        }
        law_white_space_is_skipped(s, after_first, after_gap);
        lemma_tokens_of_suffix(first + gap, tail, 0);
        law_symbols_are_read_back(others, gap);
        assert(tokens(s) =~= seq![symbol_token(first)] + tokens(tail));
        assert(tokens(s) =~= read);
    }
}

} // verus!
