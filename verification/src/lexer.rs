//! The tokenizer: tokens, their kinds, and the scanner that produces them
//! one at a time from a source text.
use crate::chars::{
    ascii_alphanumeric, is_ascii_alphabetic, is_ascii_alphanumeric, is_ascii_digit, is_whitespace,
    white_space,
};
use crate::lexical::{
    keyword_kind, lemma_keyword_kind, lemma_next_token_advances, lemma_run_end_unique, next_token,
    number_char, number_kind, scan_identifier, scan_number, scan_string, scan_symbol,
    scan_unknown, spelling, symbol_char, symbol_table,
};
use vstd::prelude::*;

verus! {

/// The kind of a token.
#[derive(Debug, Clone, Copy, PartialEq, Eq, Structural)]
pub enum TokenKind {
    /// Text that no lexical rule recognizes, or a string literal that the
    /// input ends before closing.
    Unknown,
    Identifier,
    // Keywords
    Fn,
    Mut,
    If,
    Else,
    // Literals
    Integer,
    Float,
    String,
    // Brackets and punctuation
    LeftCurly,
    RightCurly,
    LeftParen,
    RightParen,
    LeftBracket,
    RightBracket,
    Dot,
    Comma,
    Colon,
    Semi,
    DeclAssign,
    Assign,
    // Arithmetic operators
    Plus,
    Minus,
    Times,
    DividedBy,
    // Comparison and logical operators
    Equals,
    Not,
    NotEquals,
    GreaterThan,
    GreaterOrEquals,
    LowerThan,
    LowerOrEquals,
    Or,
    And,
    // Bitwise operators
    BitAnd,
    BitOr,
    BitXor,
    BitNot,
}

/// A token: its kind and its lexeme. For a string literal the lexeme is the
/// text between the quotes; for every other token it is the spelling as it
/// stands in the source.
#[derive(Debug, PartialEq, Eq)]
pub struct Token {
    pub kind: TokenKind,
    pub value: String,
}

/// The mathematical value of a [`Token`]: its kind and the characters of
/// its lexeme.
pub struct TokenView {
    pub kind: TokenKind,
    pub text: Seq<char>,
}

impl View for Token {
    type V = TokenView;

    open spec fn view(&self) -> TokenView {
        TokenView { kind: self.kind, text: self.value@ }
    }
}

impl Clone for Token {
    fn clone(&self) -> (copy: Token)
        ensures
            copy == *self,
    {
        Token { kind: self.kind, value: self.value.clone() }
    }
}

/// `String::push` of the standard library: it appends `c` to the end of
/// `text` and leaves the characters before it as they were. Verus takes
/// this from here without proof.
pub assume_specification[ std::string::String::push ](text: &mut std::string::String, c: char)
    ensures
        final(text)@ == old(text)@.push(c),
;

/// A tokenizer over one source text. It owns the text and a cursor into it,
/// and hands out the tokens one at a time.
pub struct Lexer {
    content: Vec<char>,
    pos: usize,
}

impl Lexer {
    #[verifier::type_invariant]
    spec fn cursor_in_bounds(self) -> bool {
        self.pos <= self.content@.len()
    }

    /// The source text.
    pub closed spec fn source(&self) -> Seq<char> {
        self.content@
    }

    /// The cursor: how many characters of the source have been consumed.
    pub closed spec fn cursor(&self) -> int {
        self.pos as int
    }

    /// A tokenizer at the start of `content`.
    pub fn new(content: &str) -> (lexer: Lexer)
        ensures
            lexer.source() == content@,
            lexer.cursor() == 0,
    {
        let mut chars: Vec<char> = Vec::new();
        for c in it: content.chars()
            invariant
                it.seq() == content@,
                chars@ == content@.take(it.index() as int),
        {
            chars.push(c);
        }
        Lexer { content: chars, pos: 0 }
    }

    /// The character under the cursor, if the cursor is not at the end.
    fn current(&self) -> (c: Option<char>)
        ensures
            self.cursor() <= self.source().len(),
            c == if self.cursor() < self.source().len() {
                Some(self.source()[self.cursor()])
            } else {
                None::<char>
            },
    {
        proof {
            use_type_invariant(self);
        }
        if self.pos < self.content.len() {
            Some(self.content[self.pos])
        } else {
            None
        }
    }

    /// Moves the cursor one character on, and returns the character that is
    /// then under it.
    fn advance(&mut self) -> (c: Option<char>)
        requires
            old(self).cursor() < old(self).source().len(),
        ensures
            final(self).source() == old(self).source(),
            final(self).cursor() == old(self).cursor() + 1,
            c == if final(self).cursor() < final(self).source().len() {
                Some(final(self).source()[final(self).cursor()])
            } else {
                None::<char>
            },
    {
        assert(self.content@.len() == self.content.len());
        self.pos += 1;
        self.current()
    }

    /// Whether `c` can stand in a number literal.
    fn is_number_token(c: char) -> (b: bool)
        ensures
            b == number_char(c),
    {
        is_ascii_digit(c) || c == '.'
    }

    /// Scans the number literal that starts under the cursor.
    fn tokenize_number(&mut self) -> (token: Token)
        requires
            old(self).cursor() < old(self).source().len(),
            number_char(old(self).source()[old(self).cursor()]),
        ensures
            final(self).source() == old(self).source(),
            token@ == scan_number(old(self).source(), old(self).cursor()).token,
            final(self).cursor() == scan_number(old(self).source(), old(self).cursor()).next,
    {
        let ghost s = self.content@;
        let ghost start = self.pos as int;
        let mut kind = TokenKind::Integer;
        let mut number_str = String::new();
        loop
            invariant_except_break
                self.pos < s.len(),
                number_char(s[self.pos as int]),
            invariant
                self.content@ == s,
                0 <= start <= self.pos <= s.len(),
                forall|i: int| start <= i < self.pos ==> number_char(#[trigger] s[i]),
                number_str@ == s.subrange(start, self.pos as int),
                kind == number_kind(number_str@),
            ensures
                start < self.pos,
                self.pos < s.len() ==> !number_char(s[self.pos as int]),
            decreases s.len() - self.pos,
        {
            let cur = self.current().unwrap();
            if cur == '.' {
                kind = TokenKind::Float;
            }
            let ghost before = number_str@;
            number_str.push(cur);
            proof {
                assert(number_str@ =~= s.subrange(start, self.pos + 1));
                assert(number_str@.last() == cur);
                assert(number_str@.contains('.') <==> before.contains('.') || cur == '.') by {
                    if before.contains('.') {
                        let i = choose|i: int| 0 <= i < before.len() && before[i] == '.';
                        assert(number_str@[i] == '.');
                    }
                    if cur == '.' {
                        assert(number_str@[before.len() as int] == '.');
                    }
                }
            }
            match self.advance() {
                Some(next) => {
                    if !Self::is_number_token(next) {
                        break ;
                    }
                },
                None => {
                    break ;
                },
            }
        }
        proof {
            lemma_run_end_unique(s, start, self.pos as int, |c: char| number_char(c));
        }
        Token { kind, value: number_str }
    }

    /// Scans the unrecognized text that starts under the cursor.
    fn tokenize_unknown(&mut self) -> (token: Token)
        requires
            old(self).cursor() < old(self).source().len(),
        ensures
            final(self).source() == old(self).source(),
            token@ == scan_unknown(old(self).source(), old(self).cursor()).token,
            final(self).cursor() == scan_unknown(old(self).source(), old(self).cursor()).next,
    {
        let ghost s = self.content@;
        let ghost start = self.pos as int;
        let mut value = String::new();
        value.push(self.content[self.pos]);
        assert(value@ =~= s.subrange(start, start + 1));
        loop
            invariant_except_break
                self.pos < s.len(),
                value@ == s.subrange(start, self.pos + 1),
                forall|i: int| start < i <= self.pos ==> !white_space(#[trigger] s[i]),
            invariant
                self.content@ == s,
                0 <= start <= self.pos <= s.len(),
            ensures
                start < self.pos,
                value@ == s.subrange(start, self.pos as int),
                forall|i: int| start < i < self.pos ==> !white_space(#[trigger] s[i]),
                self.pos < s.len() ==> white_space(s[self.pos as int]),
            decreases s.len() - self.pos,
        {
            match self.advance() {
                Some(c) => {
                    if is_whitespace(c) {
                        break ;
                    }
                    value.push(c);
                    assert(value@ =~= s.subrange(start, self.pos + 1));
                },
                None => {
                    break ;
                },
            }
        }
        proof {
            lemma_run_end_unique(s, start + 1, self.pos as int, |c: char| !white_space(c));
        }
        Token { kind: TokenKind::Unknown, value }
    }

    /// The kind of the word that stands at `start..end`.
    fn keyword(&self, start: usize, end: usize) -> (kind: TokenKind)
        requires
            start <= end <= self.source().len(),
        ensures
            kind == keyword_kind(self.source().subrange(start as int, end as int)),
    {
        proof {
            lemma_keyword_kind(self.content@.subrange(start as int, end as int));
        }
        let len = end - start;
        if len == 2 && self.content[start] == 'f' && self.content[start + 1] == 'n' {
            TokenKind::Fn
        } else if len == 3 && self.content[start] == 'm' && self.content[start + 1] == 'u'
            && self.content[start + 2] == 't' {
            TokenKind::Mut
        } else if len == 2 && self.content[start] == 'i' && self.content[start + 1] == 'f' {
            TokenKind::If
        } else if len == 4 && self.content[start] == 'e' && self.content[start + 1] == 'l'
            && self.content[start + 2] == 's' && self.content[start + 3] == 'e' {
            TokenKind::Else
        } else {
            TokenKind::Identifier
        }
    }

    /// Scans the identifier or keyword that starts under the cursor.
    fn tokenize_identifier(&mut self) -> (token: Token)
        requires
            old(self).cursor() < old(self).source().len(),
        ensures
            final(self).source() == old(self).source(),
            token@ == scan_identifier(old(self).source(), old(self).cursor()).token,
            final(self).cursor() == scan_identifier(old(self).source(), old(self).cursor()).next,
    {
        let ghost s = self.content@;
        let first = self.pos;
        let ghost start = self.pos as int;
        let mut value = String::new();
        value.push(self.content[self.pos]);
        assert(value@ =~= s.subrange(start, start + 1));
        loop
            invariant_except_break
                self.pos < s.len(),
                value@ == s.subrange(start, self.pos + 1),
                forall|i: int| start < i <= self.pos ==> ascii_alphanumeric(#[trigger] s[i]),
            invariant
                self.content@ == s,
                0 <= start <= self.pos <= s.len(),
            ensures
                start < self.pos,
                value@ == s.subrange(start, self.pos as int),
                forall|i: int| start < i < self.pos ==> ascii_alphanumeric(#[trigger] s[i]),
                self.pos < s.len() ==> !ascii_alphanumeric(s[self.pos as int]),
            decreases s.len() - self.pos,
        {
            match self.advance() {
                Some(c) => {
                    if !is_ascii_alphanumeric(c) || c == '_' {
                        break ;
                    }
                    value.push(c);
                    assert(value@ =~= s.subrange(start, self.pos + 1));
                },
                None => {
                    break ;
                },
            }
        }
        proof {
            lemma_run_end_unique(s, start + 1, self.pos as int, |c: char| ascii_alphanumeric(c));
        }
        let kind = self.keyword(first, self.pos);
        Token { kind, value }
    }

    /// Scans the string literal whose opening quote stands under the cursor.
    fn tokenize_string(&mut self) -> (token: Token)
        requires
            old(self).cursor() < old(self).source().len(),
        ensures
            final(self).source() == old(self).source(),
            token@ == scan_string(old(self).source(), old(self).cursor()).token,
            final(self).cursor() == scan_string(old(self).source(), old(self).cursor()).next,
    {
        let ghost s = self.content@;
        let ghost start = self.pos as int;
        let ghost mut close = s.len() as int;
        // Unknown, unless the closing quote is found
        let mut kind = TokenKind::Unknown;
        let mut value = String::new();
        assert(value@ =~= s.subrange(start + 1, start + 1));
        loop
            invariant_except_break
                self.pos < s.len(),
                kind == TokenKind::Unknown,
                value@ == s.subrange(start + 1, self.pos + 1),
                forall|i: int| start < i <= self.pos ==> #[trigger] s[i] != '"',
                close == s.len(),
            invariant
                self.content@ == s,
                0 <= start <= self.pos <= s.len(),
            ensures
                start < close <= s.len(),
                value@ == s.subrange(start + 1, close),
                forall|i: int| start < i < close ==> #[trigger] s[i] != '"',
                close < s.len() ==> s[close] == '"' && kind == TokenKind::String && self.pos
                    == close + 1,
                close == s.len() ==> kind == TokenKind::Unknown && self.pos == close,
            decreases s.len() - self.pos,
        {
            match self.advance() {
                Some(c) => {
                    if c == '"' {
                        kind = TokenKind::String;
                        proof {
                            close = self.pos as int;
                        }
                        self.advance();
                        break ;
                    }
                    value.push(c);
                    assert(value@ =~= s.subrange(start + 1, self.pos + 1));
                },
                None => {
                    break ;
                },
            }
        }
        proof {
            lemma_run_end_unique(s, start + 1, close, |c: char| c != '"');
        }
        Token { kind, value }
    }

    /// Looks a spelling of one or two characters up in the symbol table:
    /// the token that it spells, or `None` if it is no symbol.
    fn symbol_table(first: char, second: Option<char>) -> (entry: Option<Token>)
        ensures
            (entry is Some) == (symbol_table(spelling(first, second)) is Some),
            entry matches Some(token) ==> token.kind == symbol_table(spelling(first, second))->0
                && token.value@ == spelling(first, second),
    {
        let kind = match second {
            None => match first {
                // Brackets and punctuation
                '{' => TokenKind::LeftCurly,
                '}' => TokenKind::RightCurly,
                '(' => TokenKind::LeftParen,
                ')' => TokenKind::RightParen,
                '[' => TokenKind::LeftBracket,
                ']' => TokenKind::RightBracket,
                '.' => TokenKind::Dot,
                ',' => TokenKind::Comma,
                ':' => TokenKind::Colon,
                ';' => TokenKind::Semi,
                '=' => TokenKind::Assign,
                // Arithmetic operators
                '+' => TokenKind::Plus,
                '-' => TokenKind::Minus,
                '*' => TokenKind::Times,
                '/' => TokenKind::DividedBy,
                // Comparison and logical operators
                '!' => TokenKind::Not,
                '>' => TokenKind::GreaterThan,
                '<' => TokenKind::LowerThan,
                // Bitwise operators
                '&' => TokenKind::BitAnd,
                '|' => TokenKind::BitOr,
                '^' => TokenKind::BitXor,
                '~' => TokenKind::BitNot,
                _ => {
                    return None;
                },
            },
            Some(next) => match (first, next) {
                (':', '=') => TokenKind::DeclAssign,
                ('=', '=') => TokenKind::Equals,
                ('!', '=') => TokenKind::NotEquals,
                ('>', '=') => TokenKind::GreaterOrEquals,
                ('<', '=') => TokenKind::LowerOrEquals,
                ('&', '&') => TokenKind::And,
                ('|', '|') => TokenKind::Or,
                _ => {
                    return None;
                },
            },
        };
        let mut value = String::new();
        value.push(first);
        match second {
            Some(next) => {
                value.push(next);
            },
            None => {},
        }
        assert(value@ =~= spelling(first, second));
        Some(Token { kind, value })
    }

    /// Whether `c` starts a symbol.
    fn is_symbol_token(c: char) -> (b: bool)
        ensures
            b == symbol_char(c),
    {
        match c {
            '{' | '}' | '(' | ')' | '[' | ']' | '.' | ',' | ':' | ';' | '=' | '+' | '-' | '*'
            | '/' | '!' | '>' | '<' | '&' | '|' | '^' | '~' => true,
            _ => false,
        }
    }

    /// Scans the symbol that starts under the cursor, of two characters
    /// where the one under the cursor and the next one spell a symbol.
    fn tokenize_symbol(&mut self) -> (token: Token)
        requires
            old(self).cursor() < old(self).source().len(),
        ensures
            final(self).source() == old(self).source(),
            token@ == scan_symbol(old(self).source(), old(self).cursor()).token,
            final(self).cursor() == scan_symbol(old(self).source(), old(self).cursor()).next,
    {
        let ghost s = self.content@;
        let ghost start = self.pos as int;
        let c = self.content[self.pos];
        assert(s.subrange(start, start + 1) =~= spelling(c, None));
        let token = match c {
            ':' | '=' | '>' | '<' | '!' => {
                match self.advance() {
                    Some(next) => {
                        if next != '=' {
                            return Self::symbol_table(c, None).unwrap();
                        }
                    },
                    None => {
                        return Self::symbol_table(c, None).unwrap();
                    },
                }
                assert(s.subrange(start, start + 2) =~= spelling(c, Some('=')));
                Self::symbol_table(c, Some('=')).unwrap()
            },
            '&' | '|' => {
                match self.advance() {
                    Some(next) => {
                        if next != c {
                            return Self::symbol_table(c, None).unwrap();
                        }
                    },
                    None => {
                        return Self::symbol_table(c, None).unwrap();
                    },
                }
                assert(s.subrange(start, start + 2) =~= spelling(c, Some(c)));
                Self::symbol_table(c, Some(c)).unwrap()
            },
            _ => {
                match Self::symbol_table(c, None) {
                    Some(token) => token,
                    None => {
                        let mut value = String::new();
                        value.push(c);
                        assert(value@ =~= s.subrange(start, start + 1));
                        Token { kind: TokenKind::Unknown, value }
                    },
                }
            },
        };
        self.advance();
        token
    }

    /// The next token, or `None` where only white space is left before the
    /// end of the text. Once it has returned `None`, it does so for ever.
    pub fn tokenize(&mut self) -> (token: Option<Token>)
        ensures
            final(self).source() == old(self).source(),
            0 <= old(self).cursor() <= final(self).cursor() <= old(self).source().len(),
            match next_token(old(self).source(), old(self).cursor()) {
                Some(scanned) => token matches Some(found) && found@ == scanned.token
                    && final(self).cursor() == scanned.next,
                None => token is None && final(self).cursor() == old(self).source().len(),
            },
    {
        let ghost s = self.content@;
        let ghost from = self.pos as int;
        proof {
            use_type_invariant(&*self);
        }
        loop
            invariant
                s == old(self).source(),
                from == old(self).cursor(),
                self.content@ == s,
                0 <= from <= self.pos <= s.len(),
                forall|i: int| from <= i < self.pos ==> white_space(#[trigger] s[i]),
            decreases s.len() - self.pos,
        {
            let c = match self.current() {
                Some(c) => c,
                None => {
                    proof {
                        lemma_run_end_unique(s, from, self.pos as int, |c: char| white_space(c));
                    }
                    return None;
                },
            };
            if is_whitespace(c) {
                self.advance();
                continue ;
            }
            proof {
                lemma_run_end_unique(s, from, self.pos as int, |c: char| white_space(c));
                lemma_next_token_advances(s, from);
            }
            if Self::is_number_token(c) {
                return Some(self.tokenize_number());
            }
            if is_ascii_alphabetic(c) || c == '_' {
                return Some(self.tokenize_identifier());
            }
            if c == '"' {
                return Some(self.tokenize_string());
            }
            if Self::is_symbol_token(c) {
                return Some(self.tokenize_symbol());
            }
            return Some(self.tokenize_unknown());
        }
    }
}

} // verus!
