use vstd::prelude::*;

use crate::text::{all_digits, chars_of, digits_value, is_digit, parse_decimal, string_of, text_is};
use crate::token::{Number, Token};

verus! {

/// The character read past the end of the input.
pub const END: char = '\0';

pub open spec fn is_ascii_alpha(c: char) -> bool {
    ('a' <= c && c <= 'z') || ('A' <= c && c <= 'Z')
}

/// The characters with the Unicode `White_Space` property.
pub open spec fn is_space(c: char) -> bool {
    let u = c as u32;
    (0x09 <= u && u <= 0x0d) || u == 0x20 || u == 0x85 || u == 0xa0 || u == 0x1680 || (0x2000
        <= u && u <= 0x200a) || u == 0x2028 || u == 0x2029 || u == 0x202f || u == 0x205f || u
        == 0x3000
}

/// A set of characters that a run of input may consist of.
#[derive(Debug, Clone, Copy, PartialEq, Eq)]
pub enum CharClass {
    /// Anything but a double quote: the inside of a string literal.
    NotQuote,
    /// Digits and the decimal point.
    NumberPart,
    /// Letters, digits and underscores: the rest of a word, which starts with a
    /// letter, so that a type name such as `i32` is one word.
    WordPart,
    /// White space.
    Space,
}

pub open spec fn in_class(class: CharClass, c: char) -> bool {
    match class {
        CharClass::NotQuote => c != '"',
        CharClass::NumberPart => is_digit(c) || c == '.',
        CharClass::WordPart => is_ascii_alpha(c) || is_digit(c) || c == '_',
        CharClass::Space => is_space(c),
    }
}

fn char_in_class(class: CharClass, c: char) -> (r: bool)
    ensures
        r == in_class(class, c),
{
    match class {
        CharClass::NotQuote => c != '"',
        CharClass::NumberPart => ('0' <= c && c <= '9') || c == '.',
        CharClass::WordPart => ('a' <= c && c <= 'z') || ('A' <= c && c <= 'Z') || ('0' <= c && c
            <= '9') || c == '_',
        CharClass::Space => {
            let u = c as u32;
            (0x09 <= u && u <= 0x0d) || u == 0x20 || u == 0x85 || u == 0xa0 || u == 0x1680 || (
            0x2000 <= u && u <= 0x200a) || u == 0x2028 || u == 0x2029 || u == 0x202f || u
                == 0x205f || u == 0x3000
        },
    }
}

/// Whether `c` is white space.
pub fn is_space_char(c: char) -> (r: bool)
    ensures
        r == is_space(c),
{
    char_in_class(CharClass::Space, c)
}

/// The character at `i`, or `END` past the input.
pub open spec fn char_at(s: Seq<char>, i: int) -> char {
    if 0 <= i < s.len() {
        s[i]
    } else {
        END
    }
}

/// The keyword spelled by a word, if it is one.
pub open spec fn keyword_of(w: Seq<char>) -> Option<Token> {
    if w == "let"@ {
        Some(Token::Let)
    } else if w == "fn"@ {
        Some(Token::Fn)
    } else if w == "for"@ {
        Some(Token::For)
    } else if w == "while"@ {
        Some(Token::While)
    } else if w == "if"@ {
        Some(Token::If)
    } else if w == "else"@ {
        Some(Token::Else)
    } else if w == "struct"@ {
        Some(Token::Struct)
    } else if w == "enum"@ {
        Some(Token::Enum)
    } else if w == "return"@ {
        Some(Token::Return)
    } else if w == "break"@ {
        Some(Token::Break)
    } else if w == "continue"@ {
        Some(Token::Continue)
    } else if w == "import"@ {
        Some(Token::Import)
    } else if w == "true"@ {
        Some(Token::True)
    } else if w == "false"@ {
        Some(Token::False)
    } else {
        None
    }
}

/// The token for a word: its keyword, or an identifier holding it.
pub open spec fn word_token(w: Seq<char>, t: Token) -> bool {
    match keyword_of(w) {
        Some(k) => t == k,
        None => t is Ident && t->Ident_0@ == w,
    }
}

/// The keyword token for `word`, or an identifier holding it.
pub fn get_keyword(word: String) -> (r: Token)
    ensures
        word_token(word@, r),
{
    let w = chars_of(word.as_str());
    if text_is(&w, "let") {
        Token::Let
    } else if text_is(&w, "fn") {
        Token::Fn
    } else if text_is(&w, "for") {
        Token::For
    } else if text_is(&w, "while") {
        Token::While
    } else if text_is(&w, "if") {
        Token::If
    } else if text_is(&w, "else") {
        Token::Else
    } else if text_is(&w, "struct") {
        Token::Struct
    } else if text_is(&w, "enum") {
        Token::Enum
    } else if text_is(&w, "return") {
        Token::Return
    } else if text_is(&w, "break") {
        Token::Break
    } else if text_is(&w, "continue") {
        Token::Continue
    } else if text_is(&w, "import") {
        Token::Import
    } else if text_is(&w, "true") {
        Token::True
    } else if text_is(&w, "false") {
        Token::False
    } else {
        Token::Ident(word)
    }
}

/// A cursor over the characters of the input: the character being looked at and
/// the one after it.
pub struct Lexer {
    pub input: Vec<char>,
    /// Index in `input` of `peek_char`.
    pub next: usize,
    pub cur_char: char,
    pub peek_char: char,
}

impl Lexer {
    pub open spec fn wf(&self) -> bool {
        &&& self.next <= self.input.len()
        &&& self.peek_char == char_at(self.input@, self.next as int)
    }

    /// A lexer before the first character of `input`.
    pub fn new(input: &str) -> (r: Lexer)
        ensures
            r.wf(),
            r.input@ == input@,
            r.next == 0,
            r.cur_char == END,
    {
        let chars = chars_of(input);
        let peek = if chars.len() > 0 {
            chars[0]
        } else {
            END
        };
        Lexer { input: chars, next: 0, cur_char: END, peek_char: peek }
    }

    /// Moves one character on; `None` when the next character is `END`.
    pub fn advance(&mut self) -> (r: Option<char>)
        requires
            old(self).wf(),
        ensures
            final(self).wf(),
            final(self).input == old(self).input,
            old(self).peek_char == END ==> r is None && *final(self) == *old(self),
            old(self).peek_char != END ==> r == Some(old(self).peek_char) && final(self).cur_char
                == old(self).peek_char && final(self).next == old(self).next + 1,
    {
        if self.peek_char == END {
            return None;
        }
        self.cur_char = self.peek_char;
        self.next = self.next + 1;
        self.peek_char = if self.next < self.input.len() {
            self.input[self.next]
        } else {
            END
        };
        Some(self.cur_char)
    }

    /// The current character followed by the characters after it that lie in
    /// `class`, consuming them.
    pub fn advance_while(&mut self, class: CharClass) -> (r: String)
        requires
            old(self).wf(),
        ensures
            final(self).wf(),
            final(self).input == old(self).input,
            old(self).next <= final(self).next,
            r@ == seq![old(self).cur_char] + old(self).input@.subrange(
                old(self).next as int,
                final(self).next as int,
            ),
            forall|i: int|
                old(self).next <= i < final(self).next ==> in_class(
                    class,
                    #[trigger] old(self).input@[i],
                ) && old(self).input@[i] != END,
            final(self).peek_char == END || !in_class(class, final(self).peek_char),
            final(self).next > old(self).next ==> final(self).cur_char
                == old(self).input@[final(self).next - 1],
            final(self).next == old(self).next ==> final(self).cur_char == old(self).cur_char,
    {
        let ghost start = self.next;
        let mut res: Vec<char> = Vec::new();
        res.push(self.cur_char);
        loop
            invariant
                self.wf(),
                self.input == old(self).input,
                start == old(self).next,
                start <= self.next,
                res@ == seq![old(self).cur_char] + self.input@.subrange(
                    start as int,
                    self.next as int,
                ),
                forall|i: int|
                    start <= i < self.next ==> in_class(class, #[trigger] self.input@[i])
                        && self.input@[i] != END,
                self.next > start ==> self.cur_char == self.input@[self.next - 1],
                self.next == start ==> self.cur_char == old(self).cur_char,
            ensures
                self.wf(),
                self.input == old(self).input,
                start <= self.next,
                res@ == seq![old(self).cur_char] + self.input@.subrange(
                    start as int,
                    self.next as int,
                ),
                forall|i: int|
                    start <= i < self.next ==> in_class(class, #[trigger] self.input@[i])
                        && self.input@[i] != END,
                self.peek_char == END || !in_class(class, self.peek_char),
                self.next > start ==> self.cur_char == self.input@[self.next - 1],
                self.next == start ==> self.cur_char == old(self).cur_char,
            decreases self.input.len() - self.next,
        {
            if !char_in_class(class, self.peek_char) {
                break;
            }
            if self.advance().is_none() {
                break;
            }
            res.push(self.cur_char);
            assert(res@ =~= seq![old(self).cur_char] + self.input@.subrange(
                start as int,
                self.next as int,
            ));
        }
        string_of(&res)
    }

    /// A numeric literal starting at the current digit: the digits and points
    /// that follow it are consumed. With a point the literal is kept as text;
    /// without, it is an `i32`, and `None` when too large for one.
    pub fn lex_number(&mut self) -> (r: Option<Number>)
        requires
            old(self).wf(),
            is_digit(old(self).cur_char),
        ensures
            final(self).wf(),
            final(self).input == old(self).input,
            old(self).next <= final(self).next,
            final(self).next > old(self).next ==> final(self).cur_char
                == old(self).input@[final(self).next - 1],
            final(self).next == old(self).next ==> final(self).cur_char == old(self).cur_char,
            forall|i: int|
                old(self).next <= i < final(self).next ==> #[trigger] old(self).input@[i] != END
                    && in_class(CharClass::NumberPart, old(self).input@[i]),
            ({
                let w = seq![old(self).cur_char] + old(self).input@.subrange(
                    old(self).next as int,
                    final(self).next as int,
                );
                &&& forall|i: int| 1 <= i < w.len() ==> in_class(CharClass::NumberPart, #[trigger] w[i])
                &&& final(self).peek_char == END || !in_class(CharClass::NumberPart, final(self).peek_char)
                &&& w.contains('.') ==> (r matches Some(Number::F32(t)) && t@ == w)
                &&& !w.contains('.') && digits_value(w) <= 0x7fff_ffff ==> r == Some(
                    Number::I32(digits_value(w) as i32),
                )
                &&& !w.contains('.') && digits_value(w) > 0x7fff_ffff ==> r is None
            }),
    {
        let text = self.advance_while(CharClass::NumberPart);
        let ghost w = text@;
        assert forall|i: int| 1 <= i < w.len() implies in_class(CharClass::NumberPart, #[trigger] w[i]) by {
            assert(w[i] == old(self).input@[old(self).next + i - 1]);
        }
        let chars = chars_of(text.as_str());
        let mut i: usize = 0;
        while i < chars.len()
            invariant
                i <= chars.len(),
                chars@ == w,
                text@ == w,
                self.wf(),
                self.input == old(self).input,
                old(self).next <= self.next,
                forall|k: int| 1 <= k < w.len() ==> in_class(CharClass::NumberPart, #[trigger] w[k]),
                self.next > old(self).next ==> self.cur_char == old(self).input@[self.next - 1],
                self.next == old(self).next ==> self.cur_char == old(self).cur_char,
                forall|i: int|
                    old(self).next <= i < self.next ==> #[trigger] old(self).input@[i] != END
                        && in_class(CharClass::NumberPart, old(self).input@[i]),
                self.peek_char == END || !in_class(CharClass::NumberPart, self.peek_char),
                w == seq![old(self).cur_char] + old(self).input@.subrange(
                    old(self).next as int,
                    self.next as int,
                ),
                forall|j: int| 0 <= j < i ==> chars@[j] != '.',
            decreases chars.len() - i,
        {
            if chars[i] == '.' {
                assert(w[i as int] == '.');
                assert(w.contains('.'));
                return Some(Number::F32(text));
            }
            i = i + 1;
        }
        assert(!w.contains('.'));
        assert(all_digits(w)) by {
            assert forall|j: int| 0 <= j < w.len() implies is_digit(#[trigger] w[j]) by {
                if j > 0 {
                    assert(in_class(CharClass::NumberPart, w[j]));
                }
            }
        }
        assert(chars@.subrange(0, chars.len() as int) =~= w);
        match parse_decimal(&chars, 0) {
            Some(v) => Some(Number::I32(v as i32)),
            None => None,
        }
    }

    /// The token that starts at the current character; the characters it spans
    /// are consumed, so that the current character is its last.
    pub fn next_token(&mut self) -> (r: Token)
        requires
            old(self).wf(),
        ensures
            (token_view(r), final(self).next as int, final(self).cur_char) == scan(
                old(self).input@,
                old(self).next as int,
                old(self).cur_char,
            ),
            final(self).wf(),
            final(self).input == old(self).input,
            old(self).next <= final(self).next,
            !(r is Eof),
            single_char_token(old(self).cur_char) is Some ==> r == single_char_token(
                old(self).cur_char,
            )->0 && *final(self) == *old(self),
            pair_token(old(self).cur_char, old(self).peek_char) is Some ==> r == pair_token(
                old(self).cur_char,
                old(self).peek_char,
            )->0 && final(self).next == old(self).next + (if old(self).peek_char == '=' {
                1int
            } else {
                0int
            }) && final(self).cur_char == (if old(self).peek_char == '=' {
                '='
            } else {
                old(self).cur_char
            }),
            old(self).cur_char == '"' ==> string_literal_token(
                old(self).input@,
                old(self).next as int,
                r,
                final(self).next as int,
            ),
            is_ascii_alpha(old(self).cur_char) ==> word_token(
                seq![old(self).cur_char] + old(self).input@.subrange(
                    old(self).next as int,
                    final(self).next as int,
                ),
                r,
            ) && (final(self).peek_char == END || !in_class(
                CharClass::WordPart,
                final(self).peek_char,
            )),
            is_digit(old(self).cur_char) ==> (r is Number || r is Elegal),
            is_space(old(self).cur_char) && old(self).cur_char != '\n' ==> r is WhiteSpace,
            other_char(old(self).cur_char) ==> r is Elegal,
    {
        let c = self.cur_char;
        if c == '(' {
            Token::LPeren
        } else if c == ')' {
            Token::RPeren
        } else if c == '{' {
            Token::LBrace
        } else if c == '}' {
            Token::RBrace
        } else if c == '+' {
            Token::Plus
        } else if c == '-' {
            Token::Minus
        } else if c == '*' {
            Token::Star
        } else if c == '/' {
            Token::Slash
        } else if c == '^' {
            Token::Carret
        } else if c == ',' {
            Token::Coma
        } else if c == '.' {
            Token::Dot
        } else if c == ':' {
            Token::Colin
        } else if c == ';' {
            Token::SemiColin
        } else if c == '\'' {
            Token::Quote
        } else if c == '\n' {
            Token::NewLine
        } else if c == '=' || c == '!' || c == '>' || c == '<' {
            let eq = self.peek_char == '=';
            if eq {
                self.advance();
            }
            if c == '=' {
                if eq { Token::EqTo } else { Token::Eq }
            } else if c == '!' {
                if eq { Token::NotEq } else { Token::Not }
            } else if c == '>' {
                if eq { Token::GtEq } else { Token::Gt }
            } else {
                if eq { Token::LtEq } else { Token::Lt }
            }
        } else if c == '"' {
            if self.peek_char == END {
                return Token::Elegal;
            }
            if self.peek_char == '"' {
                self.advance();
                assert(old(self).input@.subrange(old(self).next as int, old(self).next as int)
                    =~= Seq::<char>::empty());
                return Token::String(String::new());
            }
            self.advance();
            let ghost n1 = self.next;
            let s = self.advance_while(CharClass::NotQuote);
            proof {
                let inp = old(self).input@;
                assert(s@ =~= inp.subrange(old(self).next as int, self.next as int));
                lemma_run_end(inp, n1 as int, self.next as int, CharClass::NotQuote);
            }
            self.advance();
            Token::String(s)
        } else if '0' <= c && c <= '9' {
            let ghost n0 = self.next;
            let r = self.lex_number();
            proof {
                lemma_run_end(old(self).input@, n0 as int, self.next as int, CharClass::NumberPart);
            }
            match r {
                Some(n) => Token::Number(n),
                None => Token::Elegal,
            }
        } else if ('a' <= c && c <= 'z') || ('A' <= c && c <= 'Z') {
            let word = self.advance_while(CharClass::WordPart);
            proof {
                lemma_run_end(old(self).input@, old(self).next as int, self.next as int, CharClass::WordPart);
            }
            get_keyword(word)
        } else if char_in_class(CharClass::Space, c) {
            let word = self.advance_while(CharClass::Space);
            proof {
                lemma_run_end(old(self).input@, old(self).next as int, self.next as int, CharClass::Space);
            }
            Token::WhiteSpace(word)
        } else {
            Token::Elegal
        }
    }
}

/// The token of a character that stands alone.
pub open spec fn single_char_token(c: char) -> Option<Token> {
    if c == '(' {
        Some(Token::LPeren)
    } else if c == ')' {
        Some(Token::RPeren)
    } else if c == '{' {
        Some(Token::LBrace)
    } else if c == '}' {
        Some(Token::RBrace)
    } else if c == '+' {
        Some(Token::Plus)
    } else if c == '-' {
        Some(Token::Minus)
    } else if c == '*' {
        Some(Token::Star)
    } else if c == '/' {
        Some(Token::Slash)
    } else if c == '^' {
        Some(Token::Carret)
    } else if c == ',' {
        Some(Token::Coma)
    } else if c == '.' {
        Some(Token::Dot)
    } else if c == ':' {
        Some(Token::Colin)
    } else if c == ';' {
        Some(Token::SemiColin)
    } else if c == '\'' {
        Some(Token::Quote)
    } else if c == '\n' {
        Some(Token::NewLine)
    } else {
        None
    }
}

/// The token of a character that forms another with a following `=`.
pub open spec fn pair_token(c: char, next: char) -> Option<Token> {
    let eq = next == '=';
    if c == '=' {
        Some(if eq { Token::EqTo } else { Token::Eq })
    } else if c == '!' {
        Some(if eq { Token::NotEq } else { Token::Not })
    } else if c == '>' {
        Some(if eq { Token::GtEq } else { Token::Gt })
    } else if c == '<' {
        Some(if eq { Token::LtEq } else { Token::Lt })
    } else {
        None
    }
}

/// A character that starts no token.
pub open spec fn other_char(c: char) -> bool {
    &&& single_char_token(c) is None
    &&& pair_token(c, END) is None
    &&& c != '"'
    &&& !is_digit(c)
    &&& !is_ascii_alpha(c)
    &&& !is_space(c)
}

/// The token of a string literal whose text starts at `start`, and where the
/// cursor stands after it: the characters up to the closing quote, which is
/// consumed; a literal that the input ends in is illegal.
pub open spec fn string_literal_token(input: Seq<char>, start: int, t: Token, end: int) -> bool {
    if char_at(input, start) == END {
        t is Elegal && end == start
    } else {
        t is String && exists|k: int|
            start <= k <= input.len() && (char_at(input, k) == '"' || char_at(input, k) == END)
                && (forall|i: int| start <= i < k ==> input[i] != '"' && input[i] != END)
                && t->String_0@ == input.subrange(start, k)
                && end == (if char_at(input, k) == '"' { k + 1 } else { k })
    }
}

/// The views of a sequence of tokens.
pub open spec fn token_views(t: Seq<Token>) -> Seq<TokenV> {
    Seq::new(t.len(), |i: int| token_view(t[i]))
}

/// The tokens of `input`, ending with a single `Eof`.
pub fn lex(input: &str) -> (r: Vec<Token>)
    ensures
        token_views(r@) == lex_from(input@, 0),
        r.len() > 0,
        r@.last() is Eof,
        forall|i: int| 0 <= i < r.len() - 1 ==> !(#[trigger] r@[i] is Eof),
{
    let mut lexer = Lexer::new(input);
    let mut tokens: Vec<Token> = Vec::new();
    let ghost inp = input@;
    assert(token_views(tokens@) + lex_from(inp, 0) =~= lex_from(inp, 0));
    loop
        invariant
            lexer.wf(),
            lexer.input@ == inp,
            forall|i: int| 0 <= i < tokens.len() ==> !(#[trigger] tokens@[i] is Eof),
            lex_from(inp, 0) == token_views(tokens@) + lex_from(inp, lexer.next as int),
        ensures
            forall|i: int| 0 <= i < tokens.len() ==> !(#[trigger] tokens@[i] is Eof),
            lex_from(inp, 0) == token_views(tokens@) + lex_from(inp, lexer.next as int),
            lex_from(inp, lexer.next as int) == seq![TokenV::Plain(Token::Eof)],
        decreases lexer.input.len() - lexer.next,
    {
        let ghost n0 = lexer.next;
        if lexer.advance().is_none() {
            break;
        }
        let t = lexer.next_token();
        proof {
            let (tv, n, c) = scan(inp, n0 + 1, inp[n0 as int]);
            assert(lex_from(inp, n0 as int) == seq![tv] + lex_from(inp, n));
        }
        let ghost before = token_views(tokens@);
        tokens.push(t);
        assert(token_views(tokens@) =~= before.push(token_view(t)));
        assert(token_views(tokens@) + lex_from(inp, lexer.next as int) =~= before + (seq![token_view(t)] + lex_from(inp, lexer.next as int)));
    }
    let ghost before = token_views(tokens@);
    tokens.push(Token::Eof);
    assert(token_views(tokens@) =~= before + lex_from(inp, lexer.next as int));
    tokens
}

/// A token with its texts as character sequences; tokens without text stand
/// for themselves.
pub enum TokenV {
    Plain(Token),
    Space(Seq<char>),
    Int(i32),
    Frac(Seq<char>),
    Str(Seq<char>),
    Word(Seq<char>),
}

pub open spec fn token_view(t: Token) -> TokenV {
    match t {
        Token::WhiteSpace(s) => TokenV::Space(s@),
        Token::Number(Number::I32(v)) => TokenV::Int(v),
        Token::Number(Number::F32(x)) => TokenV::Frac(x@),
        Token::String(s) => TokenV::Str(s@),
        Token::Ident(s) => TokenV::Word(s@),
        _ => TokenV::Plain(t),
    }
}

/// The end of the run of characters of `class` that starts at `i`.
pub open spec fn run_end(s: Seq<char>, i: int, class: CharClass) -> int
    decreases s.len() - i,
{
    if 0 <= i < s.len() && s[i] != END && in_class(class, s[i]) {
        run_end(s, i + 1, class)
    } else {
        i
    }
}

/// A run's text: the current character and the run after it.
pub open spec fn run_text(s: Seq<char>, next: int, cur: char, class: CharClass) -> Seq<char> {
    seq![cur] + s.subrange(next, run_end(s, next, class))
}

/// The current character after a run: its last one, or `cur` when it is empty.
pub open spec fn run_last(s: Seq<char>, next: int, cur: char, class: CharClass) -> char {
    let e = run_end(s, next, class);
    if e > next { s[e - 1] } else { cur }
}

/// The token that starts at the current character `cur`, where `next` indexes
/// the character after it, and where the cursor stands after it (the index of
/// the character after the token, and the token's last character).
pub open spec fn scan(s: Seq<char>, next: int, cur: char) -> (TokenV, int, char) {
    let p = char_at(s, next);
    if single_char_token(cur) is Some {
        (TokenV::Plain(single_char_token(cur)->0), next, cur)
    } else if pair_token(cur, p) is Some {
        if p == '=' {
            (TokenV::Plain(pair_token(cur, p)->0), next + 1, '=')
        } else {
            (TokenV::Plain(pair_token(cur, p)->0), next, cur)
        }
    } else if cur == '"' {
        if p == END {
            (TokenV::Plain(Token::Elegal), next, cur)
        } else if p == '"' {
            (TokenV::Str(Seq::empty()), next + 1, '"')
        } else {
            let e = run_end(s, next + 1, CharClass::NotQuote);
            if char_at(s, e) == END {
                (TokenV::Str(s.subrange(next, e)), e, s[e - 1])
            } else {
                (TokenV::Str(s.subrange(next, e)), e + 1, '"')
            }
        }
    } else if is_digit(cur) {
        let w = run_text(s, next, cur, CharClass::NumberPart);
        let t = if w.contains('.') {
            TokenV::Frac(w)
        } else if digits_value(w) <= 0x7fff_ffff {
            TokenV::Int(digits_value(w) as i32)
        } else {
            TokenV::Plain(Token::Elegal)
        };
        (t, run_end(s, next, CharClass::NumberPart), run_last(s, next, cur, CharClass::NumberPart))
    } else if is_ascii_alpha(cur) {
        let w = run_text(s, next, cur, CharClass::WordPart);
        let t = match keyword_of(w) {
            Some(k) => TokenV::Plain(k),
            None => TokenV::Word(w),
        };
        (t, run_end(s, next, CharClass::WordPart), run_last(s, next, cur, CharClass::WordPart))
    } else if is_space(cur) {
        (
            TokenV::Space(run_text(s, next, cur, CharClass::Space)),
            run_end(s, next, CharClass::Space),
            run_last(s, next, cur, CharClass::Space),
        )
    } else {
        (TokenV::Plain(Token::Elegal), next, cur)
    }
}

/// The tokens of the input from index `next` on, ending with `Eof`; the input
/// ends at its last character or at its first `END`.
pub open spec fn lex_from(s: Seq<char>, next: int) -> Seq<TokenV>
    decreases s.len() - next,
{
    if char_at(s, next) == END || next < 0 {
        seq![TokenV::Plain(Token::Eof)]
    } else {
        let (t, n, _) = scan(s, next + 1, s[next]);
        if n <= next || n > s.len() {
            seq![TokenV::Plain(Token::Eof)]
        } else {
            seq![t] + lex_from(s, n)
        }
    }
}

/// A run that stops where the class or the input does ends there.
pub proof fn lemma_run_end(s: Seq<char>, a: int, b: int, class: CharClass)
    requires
        0 <= a <= b <= s.len(),
        forall|i: int| a <= i < b ==> #[trigger] s[i] != END && in_class(class, s[i]),
        char_at(s, b) == END || !in_class(class, char_at(s, b)),
    ensures
        run_end(s, a, class) == b,
    decreases b - a,
{
    if a < b {
        assert(in_class(class, s[a]));
        lemma_run_end(s, a + 1, b, class);
    }
}

} // verus!
