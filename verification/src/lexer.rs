//! Lexical analysis: source text to a token stream with positions.
//!
//! The scanner is described twice. `scan_step` and `tokenize` say, over
//! sequences of characters, which tokens a text holds; `Lexer` computes them
//! and is proved to agree.
use vstd::prelude::*;

verus! {

/// The kinds of token.
#[allow(non_camel_case_types)]
#[derive(Debug, Clone, Copy, PartialEq, Eq, Hash, Structural)]
pub enum TokenType {
    LeftParen,
    RightParen,
    LeftBrace,
    RightBrace,
    LeftBracket,
    RightBracket,
    Period,
    Comma,
    Colon,
    Keyword,
    Identifier,
    String,
    Number,
    Or,
    Not,
    And,
    Equiv,
    NotEquiv,
    Gt,
    Gte,
    Lt,
    Lte,
    Plus,
    Minus,
    Asterisk,
    Slash,
    Modulo,
    EOF,
    Boolean,
}

impl TokenType {
    /// The binary operators: logical, comparison and arithmetic.
    pub open spec fn is_operator(self) -> bool {
        matches!(
            self,
            TokenType::Or | TokenType::And | TokenType::Equiv | TokenType::NotEquiv | TokenType::Gt
                | TokenType::Gte | TokenType::Lt | TokenType::Lte | TokenType::Plus
                | TokenType::Minus | TokenType::Asterisk | TokenType::Slash | TokenType::Modulo
        )
    }

    /// Binding strength of a binary operator; -1 for every other kind.
    pub open spec fn binding_power(self) -> int {
        match self {
            TokenType::Lt | TokenType::Lte | TokenType::Gt | TokenType::Gte | TokenType::Equiv
            | TokenType::NotEquiv | TokenType::And | TokenType::Or => 0,
            TokenType::Plus | TokenType::Minus => 1,
            TokenType::Asterisk | TokenType::Slash | TokenType::Modulo => 2,
            _ => -1,
        }
    }

    #[allow(non_snake_case)]
    pub fn isOperator(&self) -> (r: bool)
        ensures
            r == self.is_operator(),
    {
        matches!(
            self,
            TokenType::Or | TokenType::And | TokenType::Equiv | TokenType::NotEquiv | TokenType::Gt
                | TokenType::Gte | TokenType::Lt | TokenType::Lte | TokenType::Plus
                | TokenType::Minus | TokenType::Asterisk | TokenType::Slash | TokenType::Modulo
        )
    }

    pub fn precedence(&self) -> (r: i32)
        ensures
            r == self.binding_power(),
    {
        match self {
            TokenType::Lt | TokenType::Lte | TokenType::Gt | TokenType::Gte | TokenType::Equiv
            | TokenType::NotEquiv | TokenType::And | TokenType::Or => 0,
            TokenType::Plus | TokenType::Minus => 1,
            TokenType::Asterisk | TokenType::Slash | TokenType::Modulo => 2,
            _ => -1,
        }
    }
}

/// What a token carries besides its kind. A number is kept as the numeral
/// that was written; turning it into a double is left to the host.
#[derive(Debug)]
pub enum TokenContentType {
    String(String),
    Number(String),
    Boolean(bool),
}

pub enum ContentView {
    String(Seq<char>),
    Number(Seq<char>),
    Boolean(bool),
}

impl TokenContentType {
    pub open spec fn view(&self) -> ContentView {
        match self {
            TokenContentType::String(s) => ContentView::String(s@),
            TokenContentType::Number(s) => ContentView::Number(s@),
            TokenContentType::Boolean(b) => ContentView::Boolean(*b),
        }
    }
}

impl Clone for TokenContentType {
    fn clone(&self) -> (r: Self)
        ensures
            r@ == self@,
    {
        match self {
            TokenContentType::String(s) => TokenContentType::String(s.clone()),
            TokenContentType::Number(s) => TokenContentType::Number(s.clone()),
            TokenContentType::Boolean(b) => TokenContentType::Boolean(*b),
        }
    }
}

/// A token: kind, lexeme, content, and the position of the scanner just after
/// the lexeme was read.
#[derive(Debug)]
pub struct Token {
    pub _type: TokenType,
    pub value: String,
    pub content: TokenContentType,
    pub line: usize,
    pub column: usize,
}

pub struct TokenView {
    pub kind: TokenType,
    pub lexeme: Seq<char>,
    pub content: ContentView,
    pub line: int,
    pub column: int,
}

impl Token {
    pub open spec fn view(&self) -> TokenView {
        TokenView {
            kind: self._type,
            lexeme: self.value@,
            content: self.content@,
            line: self.line as int,
            column: self.column as int,
        }
    }

    pub fn new(
        _type: TokenType,
        value: String,
        content: TokenContentType,
        line: usize,
        column: usize,
    ) -> (t: Token)
        ensures
            t == (Token { _type, value, content, line, column }),
    {
        Token { _type, value, content, line, column }
    }
}

impl Clone for Token {
    fn clone(&self) -> (r: Self)
        ensures
            r@ == self@,
    {
        Token {
            _type: self._type,
            value: self.value.clone(),
            content: self.content.clone(),
            line: self.line,
            column: self.column,
        }
    }
}

/// The views of a run of tokens.
pub open spec fn token_views(tokens: Seq<Token>) -> Seq<TokenView> {
    Seq::new(tokens.len(), |i: int| tokens[i]@)
}

pub broadcast proof fn lemma_token_views_push(tokens: Seq<Token>, t: Token)
    ensures
        #[trigger] token_views(tokens.push(t)) == token_views(tokens).push(t@),
{
    assert(token_views(tokens.push(t)) =~= token_views(tokens).push(t@));
}

/// Why a text could not be scanned, with the scanner's position.
#[derive(Debug, Clone, Copy, PartialEq, Eq, Structural)]
pub enum LexError {
    UnterminatedString { line: usize, column: usize },
    UnexpectedCharacter { character: char, line: usize, column: usize },
}

/// Whether Unicode counts `c` as alphabetic.
pub uninterp spec fn unicode_alphabetic(c: char) -> bool;

/// Whether Unicode counts `c` as alphabetic or numeric.
pub uninterp spec fn unicode_alphanumeric(c: char) -> bool;

/// `char::is_alphabetic`: the Unicode `Alphabetic` property of `c`.
#[verifier::external_body]
fn is_alphabetic(c: char) -> (r: bool)
    ensures
        r == unicode_alphabetic(c),
{
    c.is_alphabetic()
}

/// `char::is_alphanumeric`: whether `c` is alphabetic or numeric in Unicode.
#[verifier::external_body]
fn is_alphanumeric(c: char) -> (r: bool)
    ensures
        r == unicode_alphanumeric(c),
{
    c.is_alphanumeric()
}

pub open spec fn is_digit(c: char) -> bool {
    '0' <= c && c <= '9'
}

/// May start an identifier.
pub open spec fn is_word_start(c: char) -> bool {
    unicode_alphabetic(c) || c == '_'
}

/// The reserved words.
pub open spec fn is_keyword(word: Seq<char>) -> bool {
    ||| word == "prepare"@
    ||| word == "as"@
    ||| word == "brush"@
    ||| word == "prep"@
    ||| word == "has"@
    ||| word == "sketch"@
    ||| word == "needs"@
    ||| word == "finished"@
    ||| word == "loop"@
    ||| word == "through"@
    ||| word == "while"@
    ||| word == "if"@
    ||| word == "elif"@
    ||| word == "else"@
}

/// The reserved words, in a fixed order, each once.
#[allow(non_snake_case)]
pub fn KEYWORDS() -> (words: Vec<&'static str>)
    ensures
        words@.len() == 14,
        forall|w: Seq<char>| is_keyword(w) <==> exists|i: int| 0 <= i < 14 && #[trigger] words@[i]@ == w,
        forall|i: int, j: int| 0 <= i < j < 14 ==> words@[i]@ != words@[j]@,
{
    let words = vec![
        "prepare",
        "as",
        "brush",
        "prep",
        "has",
        "sketch",
        "needs",
        "finished",
        "loop",
        "through",
        "while",
        "if",
        "elif",
        "else",
    ];
    proof {
        reveal_strlit("prepare");
        reveal_strlit("as");
        reveal_strlit("brush");
        reveal_strlit("prep");
        reveal_strlit("has");
        reveal_strlit("sketch");
        reveal_strlit("needs");
        reveal_strlit("finished");
        reveal_strlit("loop");
        reveal_strlit("through");
        reveal_strlit("while");
        reveal_strlit("if");
        reveal_strlit("elif");
        reveal_strlit("else");
        assert forall|i: int, j: int| 0 <= i < j < 14 implies words@[i]@ != words@[j]@ by {
            let a = words@[i]@;
            let b = words@[j]@;
            if a.len() == b.len() {
                assert(a[0] != b[0] || a[1] != b[1] || a[2] != b[2]);
            }
        }
        assert forall|w: Seq<char>| is_keyword(w) implies exists|i: int|
            0 <= i < 14 && #[trigger] words@[i]@ == w by {
            if w == "prepare"@ {
                assert(words@[0]@ == w);
            } else if w == "as"@ {
                assert(words@[1]@ == w);
            } else if w == "brush"@ {
                assert(words@[2]@ == w);
            } else if w == "prep"@ {
                assert(words@[3]@ == w);
            } else if w == "has"@ {
                assert(words@[4]@ == w);
            } else if w == "sketch"@ {
                assert(words@[5]@ == w);
            } else if w == "needs"@ {
                assert(words@[6]@ == w);
            } else if w == "finished"@ {
                assert(words@[7]@ == w);
            } else if w == "loop"@ {
                assert(words@[8]@ == w);
            } else if w == "through"@ {
                assert(words@[9]@ == w);
            } else if w == "while"@ {
                assert(words@[10]@ == w);
            } else if w == "if"@ {
                assert(words@[11]@ == w);
            } else if w == "elif"@ {
                assert(words@[12]@ == w);
            } else {
                assert(words@[13]@ == w);
            }
        }
    }
    words
}

/// Classes of character that a lexeme is extended over.
#[derive(Clone, Copy, PartialEq, Eq, Structural)]
pub enum CharClass {
    Digit,
    Alphanumeric,
    NotNewline,
}

impl CharClass {
    pub open spec fn holds(self, c: char) -> bool {
        match self {
            CharClass::Digit => is_digit(c),
            CharClass::Alphanumeric => unicode_alphanumeric(c),
            CharClass::NotNewline => c != '\n',
        }
    }

    fn test(self, c: char) -> (r: bool)
        ensures
            r == self.holds(c),
    {
        match self {
            CharClass::Digit => '0' <= c && c <= '9',
            CharClass::Alphanumeric => is_alphanumeric(c),
            CharClass::NotNewline => c != '\n',
        }
    }
}

/// The first position at or after `from` whose character is outside `class`,
/// or the end of the text.
pub open spec fn span_end(src: Seq<char>, from: int, class: CharClass) -> int
    decreases src.len() - from,
{
    if 0 <= from < src.len() && class.holds(src[from]) {
        span_end(src, from + 1, class)
    } else {
        from
    }
}

/// The first position at or after `from` that holds `c`, if there is one.
pub open spec fn find_char(src: Seq<char>, from: int, c: char) -> Option<int>
    decreases src.len() - from,
{
    if 0 <= from < src.len() {
        if src[from] == c {
            Some(from)
        } else {
            find_char(src, from + 1, c)
        }
    } else {
        None
    }
}

pub proof fn lemma_span_end_bounds(src: Seq<char>, from: int, class: CharClass)
    requires
        0 <= from <= src.len(),
    ensures
        from <= span_end(src, from, class) <= src.len(),
    decreases src.len() - from,
{
    if from < src.len() && class.holds(src[from]) {
        lemma_span_end_bounds(src, from + 1, class);
    }
}

pub proof fn lemma_find_char_bounds(src: Seq<char>, from: int, c: char)
    requires
        0 <= from <= src.len(),
    ensures
        find_char(src, from, c) matches Some(j) ==> from <= j < src.len() && src[j] == c,
    decreases src.len() - from,
{
    if from < src.len() && src[from] != c {
        lemma_find_char_bounds(src, from + 1, c);
    }
}

/// Where the scanner stands: the next character and the position counters.
pub struct Cursor {
    pub pos: int,
    pub line: int,
    pub column: int,
}

impl Cursor {
    /// The cursor after `n` more characters of one line.
    pub open spec fn forward(self, n: int) -> Cursor {
        Cursor { pos: self.pos + n, line: self.line, column: self.column + n }
    }

    pub open spec fn start() -> Cursor {
        Cursor { pos: 0, line: 1, column: 1 }
    }
}

/// The outcome of scanning at one position.
pub enum Scan {
    /// A token was read.
    Emit(TokenView, Cursor),
    /// Characters were passed over: blanks, a comment, a lone `|` or `&`.
    Skip(Cursor),
    Fail(LexError),
}

/// The token for a lexeme that is its own content.
pub open spec fn plain_token(kind: TokenType, lexeme: Seq<char>, at: Cursor) -> TokenView {
    TokenView { kind, lexeme, content: ContentView::String(lexeme), line: at.line, column: at.column }
}

/// Kind of the one-character tokens.
pub open spec fn punctuation(c: char) -> Option<TokenType> {
    if c == '(' {
        Some(TokenType::LeftParen)
    } else if c == ')' {
        Some(TokenType::RightParen)
    } else if c == '{' {
        Some(TokenType::LeftBrace)
    } else if c == '}' {
        Some(TokenType::RightBrace)
    } else if c == '[' {
        Some(TokenType::LeftBracket)
    } else if c == ']' {
        Some(TokenType::RightBracket)
    } else if c == '.' {
        Some(TokenType::Period)
    } else if c == ',' {
        Some(TokenType::Comma)
    } else if c == ':' {
        Some(TokenType::Colon)
    } else if c == '+' {
        Some(TokenType::Plus)
    } else if c == '-' {
        Some(TokenType::Minus)
    } else if c == '*' {
        Some(TokenType::Asterisk)
    } else if c == '/' {
        Some(TokenType::Slash)
    } else {
        None
    }
}

/// Whether position `i` of `src` holds `c`.
pub open spec fn holds_at(src: Seq<char>, i: int, c: char) -> bool {
    0 <= i < src.len() && src[i] == c
}

/// A one- or two-character operator starting with `c`: with `second` behind it
/// the kind `double`, else the kind `single` (none: the character is dropped).
pub open spec fn operator_scan(
    src: Seq<char>,
    at: Cursor,
    second: char,
    double: TokenType,
    single: Option<TokenType>,
) -> Scan {
    if holds_at(src, at.pos + 1, second) {
        Scan::Emit(
            plain_token(double, src.subrange(at.pos, at.pos + 2), at.forward(2)),
            at.forward(2),
        )
    } else {
        match single {
            Some(kind) => Scan::Emit(
                plain_token(kind, src.subrange(at.pos, at.pos + 1), at.forward(1)),
                at.forward(1),
            ),
            None => Scan::Skip(at.forward(1)),
        }
    }
}

/// End of the numeral that starts at `from`: digits, then at most one point
/// with further digits.
pub open spec fn numeral_end(src: Seq<char>, from: int) -> int {
    let whole = span_end(src, from, CharClass::Digit);
    if holds_at(src, whole, '.') {
        span_end(src, whole + 1, CharClass::Digit)
    } else {
        whole
    }
}

/// The token for a word: keyword, boolean or identifier.
pub open spec fn word_token(word: Seq<char>, at: Cursor) -> TokenView {
    if is_keyword(word) {
        plain_token(TokenType::Keyword, word, at)
    } else if word == "true"@ {
        TokenView {
            kind: TokenType::Boolean,
            lexeme: word,
            content: ContentView::Boolean(true),
            line: at.line,
            column: at.column,
        }
    } else if word == "false"@ {
        TokenView {
            kind: TokenType::Boolean,
            lexeme: word,
            content: ContentView::Boolean(false),
            line: at.line,
            column: at.column,
        }
    } else {
        plain_token(TokenType::Identifier, word, at)
    }
}

/// What the scanner does at `at`, by the first rule that applies.
pub open spec fn scan_step(src: Seq<char>, at: Cursor) -> Scan {
    if !(0 <= at.pos < src.len()) {
        Scan::Fail(
            LexError::UnexpectedCharacter {
                character: '\0',
                line: at.line as usize,
                column: at.column as usize,
            },
        )
    } else {
        let c = src[at.pos];
        let one = at.forward(1);
        if punctuation(c) is Some {
            Scan::Emit(plain_token(punctuation(c)->0, src.subrange(at.pos, at.pos + 1), one), one)
        } else if c == '\'' || c == '"' {
            match find_char(src, at.pos + 1, c) {
                Some(close) => {
                    let after = at.forward(close + 1 - at.pos);
                    Scan::Emit(
                        plain_token(TokenType::String, src.subrange(at.pos + 1, close), after),
                        after,
                    )
                },
                None => Scan::Fail(
                    LexError::UnterminatedString {
                        line: one.line as usize,
                        column: one.column as usize,
                    },
                ),
            }
        } else if c == '|' {
            operator_scan(src, at, '|', TokenType::Or, None)
        } else if c == '&' {
            operator_scan(src, at, '&', TokenType::And, None)
        } else if c == '>' {
            operator_scan(src, at, '=', TokenType::Gte, Some(TokenType::Gt))
        } else if c == '<' {
            operator_scan(src, at, '=', TokenType::Lte, Some(TokenType::Lt))
        } else if c == '=' {
            operator_scan(src, at, '=', TokenType::Equiv, Some(TokenType::Keyword))
        } else if c == '!' {
            operator_scan(src, at, '=', TokenType::NotEquiv, Some(TokenType::Not))
        } else if c == '~' {
            Scan::Skip(at.forward(span_end(src, at.pos + 1, CharClass::NotNewline) - at.pos))
        } else if c == ' ' || c == '\r' || c == '\t' {
            Scan::Skip(one)
        } else if c == '\n' {
            Scan::Skip(Cursor { pos: at.pos + 1, line: at.line + 1, column: 0 })
        } else if is_digit(c) {
            let end = numeral_end(src, at.pos + 1);
            let after = at.forward(end - at.pos);
            let lexeme = src.subrange(at.pos, end);
            Scan::Emit(
                TokenView {
                    kind: TokenType::Number,
                    lexeme,
                    content: ContentView::Number(lexeme),
                    line: after.line,
                    column: after.column,
                },
                after,
            )
        } else if is_word_start(c) {
            let end = span_end(src, at.pos + 1, CharClass::Alphanumeric);
            let after = at.forward(end - at.pos);
            Scan::Emit(word_token(src.subrange(at.pos, end), after), after)
        } else {
            Scan::Fail(
                LexError::UnexpectedCharacter {
                    character: c,
                    line: one.line as usize,
                    column: one.column as usize,
                },
            )
        }
    }
}

/// The token that closes every stream.
pub open spec fn eof_token(at: Cursor) -> TokenView {
    plain_token(TokenType::EOF, Seq::empty(), at)
}

/// A cursor that a scan of `src` can reach.
pub open spec fn cursor_fits(src: Seq<char>, at: Cursor) -> bool {
    &&& 0 <= at.pos <= src.len()
    &&& 1 <= at.line <= at.pos + 1
    &&& 0 <= at.column <= at.pos + 1
}

/// Every step moves forward and keeps the counters within the text read.
pub proof fn lemma_scan_step_advances(src: Seq<char>, at: Cursor)
    requires
        cursor_fits(src, at),
        at.pos < src.len(),
    ensures
        match scan_step(src, at) {
            Scan::Emit(t, next) => at.pos < next.pos && cursor_fits(src, next) && t.line == next.line
                && t.column == next.column && t.column >= 1 && t.kind != TokenType::EOF,
            Scan::Skip(next) => at.pos < next.pos && cursor_fits(src, next),
            Scan::Fail(_) => true,
        },
{
    let c = src[at.pos];
    lemma_find_char_bounds(src, at.pos + 1, c);
    lemma_span_end_bounds(src, at.pos + 1, CharClass::NotNewline);
    lemma_span_end_bounds(src, at.pos + 1, CharClass::Alphanumeric);
    lemma_span_end_bounds(src, at.pos + 1, CharClass::Digit);
    let whole = span_end(src, at.pos + 1, CharClass::Digit);
    if whole < src.len() {
        lemma_span_end_bounds(src, whole + 1, CharClass::Digit);
    }
}

/// The tokens of `src` from `at` on, closed by the end-of-text token.
pub open spec fn tokens_from(src: Seq<char>, at: Cursor) -> Result<Seq<TokenView>, LexError>
    decreases src.len() - at.pos,
{
    if !(0 <= at.pos < src.len()) {
        Ok(seq![eof_token(at)])
    } else {
        match scan_step(src, at) {
            Scan::Emit(t, next) => if !(at.pos < next.pos <= src.len()) {
                Ok(seq![eof_token(at)])
            } else {
                match tokens_from(src, next) {
                    Ok(rest) => Ok(seq![t] + rest),
                    Err(e) => Err(e),
                }
            },
            Scan::Skip(next) => if !(at.pos < next.pos <= src.len()) {
                Ok(seq![eof_token(at)])
            } else {
                tokens_from(src, next)
            },
            Scan::Fail(e) => Err(e),
        }
    }
}

/// The token stream of a whole text.
pub open spec fn tokenize(src: Seq<char>) -> Result<Seq<TokenView>, LexError> {
    tokens_from(src, Cursor::start())
}

/// A stream that ends in its only end-of-text token, every other token placed
/// at a line and a column of at least 1.
pub open spec fn well_terminated(tokens: Seq<TokenView>) -> bool {
    &&& tokens.len() >= 1
    &&& tokens.last().kind == TokenType::EOF
    &&& forall|i: int|
        0 <= i < tokens.len() - 1 ==> (#[trigger] tokens[i]).kind != TokenType::EOF && tokens[i].line
            >= 1 && tokens[i].column >= 1
}

pub proof fn lemma_tokens_from_terminated(src: Seq<char>, at: Cursor)
    requires
        cursor_fits(src, at),
    ensures
        tokens_from(src, at) matches Ok(tokens) ==> well_terminated(tokens),
    decreases src.len() - at.pos,
{
    if at.pos < src.len() {
        lemma_scan_step_advances(src, at);
        match scan_step(src, at) {
            Scan::Emit(t, next) => {
                lemma_tokens_from_terminated(src, next);
                if let Ok(rest) = tokens_from(src, next) {
                    let all = seq![t] + rest;
                    assert(all.last() == rest.last());
                    assert forall|i: int| 0 <= i < all.len() - 1 implies (#[trigger] all[i]).kind
                        != TokenType::EOF && all[i].line >= 1 && all[i].column >= 1 by {
                        if i > 0 {
                            assert(all[i] == rest[i - 1]);
                        }
                    }
                }
            },
            Scan::Skip(next) => {
                lemma_tokens_from_terminated(src, next);
            },
            Scan::Fail(_) => {},
        }
    }
}

/// Whatever the text, a token stream ends with exactly one end-of-text token,
/// and every token before it stands at a line and a column of at least 1.
pub proof fn lemma_tokenize_terminated(src: Seq<char>)
    ensures
        tokenize(src) matches Ok(tokens) ==> well_terminated(tokens),
{
    lemma_tokens_from_terminated(src, Cursor::start());
}

/// The scanner: the text, the tokens read so far, and the position.
pub struct Lexer {
    pub program: String,
    pub chars: Vec<char>,
    pub tokens: Vec<Token>,
    pub current: usize,
    pub line: usize,
    pub column: usize,
}

/// The characters of a string, in order.
pub fn chars_of(text: &str) -> (chars: Vec<char>)
    ensures
        chars@ == text@,
{
    let mut chars: Vec<char> = Vec::new();
    for c in it: text.chars()
        invariant
            it.seq() == text@,
            chars@ == text@.take(it.index() as int),
    {
        chars.push(c);
    }
    chars
}

/// Kind of the one-character tokens.
fn punctuation_of(c: char) -> (r: Option<TokenType>)
    ensures
        r == punctuation(c),
{
    if c == '(' {
        Some(TokenType::LeftParen)
    } else if c == ')' {
        Some(TokenType::RightParen)
    } else if c == '{' {
        Some(TokenType::LeftBrace)
    } else if c == '}' {
        Some(TokenType::RightBrace)
    } else if c == '[' {
        Some(TokenType::LeftBracket)
    } else if c == ']' {
        Some(TokenType::RightBracket)
    } else if c == '.' {
        Some(TokenType::Period)
    } else if c == ',' {
        Some(TokenType::Comma)
    } else if c == ':' {
        Some(TokenType::Colon)
    } else if c == '+' {
        Some(TokenType::Plus)
    } else if c == '-' {
        Some(TokenType::Minus)
    } else if c == '*' {
        Some(TokenType::Asterisk)
    } else if c == '/' {
        Some(TokenType::Slash)
    } else {
        None
    }
}

/// Whether `word` is reserved.
fn keyword(word: &String) -> (r: bool)
    ensures
        r == is_keyword(word@),
{
    let words = KEYWORDS();
    let mut i: usize = 0;
    while i < words.len()
        invariant
            i <= words@.len(),
            words@.len() == 14,
            forall|j: int| 0 <= j < i ==> (#[trigger] words@[j]@) != word@,
            forall|w: Seq<char>|
                is_keyword(w) <==> exists|k: int| 0 <= k < 14 && #[trigger] words@[k]@ == w,
        decreases words@.len() - i,
    {
        let candidate = words[i].to_owned();
        if candidate == *word {
            return true;
        }
        i += 1;
    }
    false
}

impl Lexer {
    pub open spec fn cursor(&self) -> Cursor {
        Cursor { pos: self.current as int, line: self.line as int, column: self.column as int }
    }

    /// The scanner holds the characters of its text, and its counters are
    /// within what it has read.
    pub open spec fn wf(&self) -> bool {
        &&& self.chars@ == self.program@
        &&& self.chars@.len() < usize::MAX
        &&& cursor_fits(self.chars@, self.cursor())
    }

    pub fn new(program: String) -> (lexer: Lexer)
        requires
            program@.len() < usize::MAX,
        ensures
            lexer.wf(),
            lexer.program@ == program@,
            lexer.tokens@.len() == 0,
            lexer.cursor() == Cursor::start(),
    {
        let chars = chars_of(program.as_str());
        Lexer { program, chars, tokens: Vec::new(), current: 0, line: 1, column: 1 }
    }

    #[allow(non_snake_case)]
    pub fn isAtEnd(&self) -> (r: bool)
        ensures
            r == (self.current >= self.chars@.len()),
    {
        self.current >= self.chars.len()
    }

    /// The next character, or NUL at the end of the text.
    pub fn peek(&self) -> (c: char)
        ensures
            c == (if self.current < self.chars@.len() {
                self.chars@[self.current as int]
            } else {
                '\0'
            }),
    {
        if self.isAtEnd() {
            return '\0';
        }
        self.chars[self.current]
    }

    /// Reads one character; at the end of the text NUL, and nothing moves.
    pub fn advance(&mut self) -> (c: char)
        requires
            old(self).wf(),
        ensures
            final(self).wf(),
            final(self).program == old(self).program,
            final(self).chars == old(self).chars,
            final(self).tokens == old(self).tokens,
            old(self).current < old(self).chars@.len() ==> c == old(self).chars@[
                old(self).current as int
            ] && final(self).cursor() == old(self).cursor().forward(1),
            old(self).current >= old(self).chars@.len() ==> c == '\0' && final(self).cursor()
                == old(self).cursor(),
    {
        if self.isAtEnd() {
            return '\0';
        }
        self.column += 1;
        let ret = self.chars[self.current];
        self.current += 1;
        ret
    }

    /// Reads the next character if it is `expected`. At the end of the text
    /// NUL is expected with success, and nothing moves.
    pub fn match_char(&mut self, expected: char) -> (r: Option<char>)
        requires
            old(self).wf(),
        ensures
            final(self).wf(),
            final(self).program == old(self).program,
            final(self).chars == old(self).chars,
            final(self).tokens == old(self).tokens,
            holds_at(old(self).chars@, old(self).current as int, expected) ==> r == Some(expected)
                && final(self).cursor() == old(self).cursor().forward(1),
            !holds_at(old(self).chars@, old(self).current as int, expected) ==> final(self).cursor()
                == old(self).cursor() && r == (if old(self).current >= old(self).chars@.len()
                && expected == '\0' {
                Some('\0')
            } else {
                None
            }),
    {
        if self.peek() == expected {
            return Some(self.advance());
        }
        None
    }

    /// The text between two positions.
    fn slice(&self, from: usize, to: usize) -> (text: String)
        requires
            self.chars@ == self.program@,
            from <= to <= self.chars@.len(),
        ensures
            text@ == self.chars@.subrange(from as int, to as int),
    {
        self.program.as_str().substring_char(from, to).to_owned()
    }

    /// End of the run of `class` characters that starts at `from`.
    fn span(&self, from: usize, class: CharClass) -> (end: usize)
        requires
            from <= self.chars@.len(),
        ensures
            end == span_end(self.chars@, from as int, class),
            from <= end <= self.chars@.len(),
    {
        let mut end: usize = from;
        while end < self.chars.len() && class.test(self.chars[end])
            invariant
                from <= end <= self.chars@.len(),
                span_end(self.chars@, from as int, class) == span_end(
                    self.chars@,
                    end as int,
                    class,
                ),
            decreases self.chars@.len() - end,
        {
            end += 1;
        }
        end
    }

    /// The first position at or after `from` that holds `c`.
    fn find(&self, from: usize, c: char) -> (r: Option<usize>)
        requires
            from <= self.chars@.len(),
        ensures
            match find_char(self.chars@, from as int, c) {
                Some(j) => r == Some(j as usize) && from <= j < self.chars@.len(),
                None => r is None,
            },
    {
        let mut at: usize = from;
        while at < self.chars.len()
            invariant
                from <= at <= self.chars@.len(),
                find_char(self.chars@, from as int, c) == find_char(self.chars@, at as int, c),
            decreases self.chars@.len() - at,
        {
            if self.chars[at] == c {
                return Some(at);
            }
            at += 1;
        }
        None
    }

    /// Moves to `end` on the same line and appends a token of `kind` whose
    /// lexeme is the text between `from` and `to`.
    fn emit(&mut self, kind: TokenType, from: usize, to: usize, end: usize)
        requires
            old(self).wf(),
            from <= to <= old(self).chars@.len(),
            old(self).current < end <= old(self).chars@.len(),
        ensures
            final(self).wf(),
            final(self).program == old(self).program,
            final(self).chars == old(self).chars,
            final(self).cursor() == old(self).cursor().forward(end - old(self).current),
            token_views(final(self).tokens@) == token_views(old(self).tokens@).push(
                plain_token(
                    kind,
                    old(self).chars@.subrange(from as int, to as int),
                    final(self).cursor(),
                ),
            ),
    {
        broadcast use lemma_token_views_push;

        let lexeme = self.slice(from, to);
        self.column += end - self.current;
        self.current = end;
        let content = TokenContentType::String(lexeme.clone());
        self.tokens.push(Token::new(kind, lexeme, content, self.line, self.column));
    }

    /// Reads an operator of one or two characters, the first already seen at
    /// the current position.
    fn operator(&mut self, second: char, double: TokenType, single: Option<TokenType>)
        requires
            old(self).wf(),
            old(self).current < old(self).chars@.len(),
        ensures
            final(self).wf(),
            final(self).program == old(self).program,
            final(self).chars == old(self).chars,
            match operator_scan(old(self).chars@, old(self).cursor(), second, double, single) {
                Scan::Emit(t, next) => final(self).cursor() == next && token_views(
                    final(self).tokens@,
                ) == token_views(old(self).tokens@).push(t),
                Scan::Skip(next) => final(self).cursor() == next && final(self).tokens == old(self).tokens,
                Scan::Fail(_) => false,
            },
    {
        let start = self.current;
        if start + 1 < self.chars.len() && self.chars[start + 1] == second {
            self.emit(double, start, start + 2, start + 2);
        } else {
            match single {
                Some(kind) => {
                    self.emit(kind, start, start + 1, start + 1);
                },
                None => {
                    self.column += 1;
                    self.current += 1;
                },
            }
        }
    }

    /// Reads the word between the current position and `end`.
    fn word(&mut self, end: usize)
        requires
            old(self).wf(),
            old(self).current < end <= old(self).chars@.len(),
        ensures
            final(self).wf(),
            final(self).program == old(self).program,
            final(self).chars == old(self).chars,
            final(self).cursor() == old(self).cursor().forward(end - old(self).current),
            token_views(final(self).tokens@) == token_views(old(self).tokens@).push(
                word_token(
                    old(self).chars@.subrange(old(self).current as int, end as int),
                    final(self).cursor(),
                ),
            ),
    {
        broadcast use lemma_token_views_push;

        let start = self.current;
        let lexeme = self.slice(start, end);
        if keyword(&lexeme) {
            self.emit(TokenType::Keyword, start, end, end);
        } else {
            let yes = "true".to_owned();
            let no = "false".to_owned();
            if lexeme == yes || lexeme == no {
                let truth = lexeme == yes;
                self.column += end - self.current;
                self.current = end;
                self.tokens.push(
                    Token::new(
                        TokenType::Boolean,
                        lexeme,
                        TokenContentType::Boolean(truth),
                        self.line,
                        self.column,
                    ),
                );
            } else {
                self.emit(TokenType::Identifier, start, end, end);
            }
        }
    }

    /// Reads what stands at the current position: one token, or blanks or a
    /// comment. At the end of the text it fails on NUL.
    pub fn scan_token(&mut self) -> (r: Result<(), LexError>)
        requires
            old(self).wf(),
        ensures
            final(self).wf(),
            final(self).program == old(self).program,
            final(self).chars == old(self).chars,
            match scan_step(old(self).chars@, old(self).cursor()) {
                Scan::Emit(t, next) => r is Ok && final(self).cursor() == next && token_views(
                    final(self).tokens@,
                ) == token_views(old(self).tokens@).push(t),
                Scan::Skip(next) => r is Ok && final(self).cursor() == next && final(self).tokens
                    == old(self).tokens,
                Scan::Fail(e) => r == Err::<(), LexError>(e) && final(self).tokens == old(self).tokens,
            },
    {
        broadcast use lemma_token_views_push;

        let start = self.current;
        if start >= self.chars.len() {
            return Err(
                LexError::UnexpectedCharacter { character: '\0', line: self.line, column: self.column },
            );
        }
        let c = self.chars[start];
        proof {
            lemma_scan_step_advances(self.chars@, self.cursor());
        }
        match punctuation_of(c) {
            Some(kind) => {
                self.emit(kind, start, start + 1, start + 1);
                return Ok(());
            },
            None => {},
        }
        if c == '\'' || c == '"' {
            match self.find(start + 1, c) {
                Some(close) => {
                    self.emit(TokenType::String, start + 1, close, close + 1);
                    Ok(())
                },
                None => Err(
                    LexError::UnterminatedString { line: self.line, column: self.column + 1 },
                ),
            }
        } else if c == '|' {
            self.operator('|', TokenType::Or, None);
            Ok(())
        } else if c == '&' {
            self.operator('&', TokenType::And, None);
            Ok(())
        } else if c == '>' {
            self.operator('=', TokenType::Gte, Some(TokenType::Gt));
            Ok(())
        } else if c == '<' {
            self.operator('=', TokenType::Lte, Some(TokenType::Lt));
            Ok(())
        } else if c == '=' {
            self.operator('=', TokenType::Equiv, Some(TokenType::Keyword));
            Ok(())
        } else if c == '!' {
            self.operator('=', TokenType::NotEquiv, Some(TokenType::Not));
            Ok(())
        } else if c == '~' {
            let end = self.span(start + 1, CharClass::NotNewline);
            self.column += end - start;
            self.current = end;
            Ok(())
        } else if c == ' ' || c == '\r' || c == '\t' {
            self.column += 1;
            self.current += 1;
            Ok(())
        } else if c == '\n' {
            self.line += 1;
            self.column = 0;
            self.current += 1;
            Ok(())
        } else if '0' <= c && c <= '9' {
            let whole = self.span(start + 1, CharClass::Digit);
            let end = if whole < self.chars.len() && self.chars[whole] == '.' {
                self.span(whole + 1, CharClass::Digit)
            } else {
                whole
            };
            let lexeme = self.slice(start, end);
            self.column += end - start;
            self.current = end;
            let content = TokenContentType::Number(lexeme.clone());
            self.tokens.push(Token::new(TokenType::Number, lexeme, content, self.line, self.column));
            Ok(())
        } else if is_alphabetic(c) || c == '_' {
            let end = self.span(start + 1, CharClass::Alphanumeric);
            self.word(end);
            Ok(())
        } else {
            Err(LexError::UnexpectedCharacter { character: c, line: self.line, column: self.column + 1 })
        }
    }

    /// Reads the rest of the text and closes the stream with the end-of-text
    /// token. The tokens read are kept in `tokens` and handed back.
    pub fn scan_tokens(&mut self) -> (r: Result<Vec<Token>, LexError>)
        requires
            old(self).wf(),
        ensures
            final(self).wf(),
            final(self).program == old(self).program,
            match tokens_from(old(self).chars@, old(self).cursor()) {
                Ok(rest) => r is Ok && token_views(r->Ok_0@) == token_views(old(self).tokens@) + rest
                    && token_views(final(self).tokens@) == token_views(r->Ok_0@),
                Err(e) => r == Err::<Vec<Token>, LexError>(e),
            },
    {
        broadcast use lemma_token_views_push;

        let ghost src = self.chars@;
        let ghost before = token_views(self.tokens@);
        let ghost first = self.cursor();
        while !self.isAtEnd()
            invariant
                self.wf(),
                self.program == old(self).program,
                self.chars@ == src,
                src == old(self).chars@,
                first == old(self).cursor(),
                before == token_views(old(self).tokens@),
                match tokens_from(src, self.cursor()) {
                    Ok(rest) => tokens_from(src, first) matches Ok(all) && before + all
                        == token_views(self.tokens@) + rest,
                    Err(e) => tokens_from(src, first) == Err::<Seq<TokenView>, LexError>(e),
                },
            decreases src.len() - self.current,
        {
            let ghost here = self.cursor();
            let ghost so_far = token_views(self.tokens@);
            proof {
                lemma_scan_step_advances(src, here);
            }
            match self.scan_token() {
                Ok(()) => {
                    proof {
                        match scan_step(src, here) {
                            Scan::Emit(t, next) => {
                                if let Ok(rest) = tokens_from(src, next) {
                                    assert(so_far + (seq![t] + rest) =~= so_far.push(t) + rest);
                                }
                            },
                            _ => {},
                        }
                    }
                },
                Err(e) => {
                    return Err(e);
                },
            }
        }
        let lexeme = "".to_owned();
        proof {
            reveal_strlit("");
            assert(lexeme@ =~= Seq::<char>::empty());
        }
        let content = TokenContentType::String(lexeme.clone());
        self.tokens.push(Token::new(TokenType::EOF, lexeme, content, self.line, self.column));
        proof {
            let rest = seq![eof_token(self.cursor())];
            assert(token_views(old(self).tokens@) + (seq![eof_token(self.cursor())])
                =~= token_views(old(self).tokens@).push(eof_token(self.cursor())));
        }
        let out = copy_tokens(&self.tokens);
        Ok(out)
    }
}

/// A copy of a run of tokens.
pub fn copy_tokens(tokens: &Vec<Token>) -> (copy: Vec<Token>)
    ensures
        token_views(copy@) == token_views(tokens@),
{
    broadcast use lemma_token_views_push;

    let mut copy: Vec<Token> = Vec::new();
    let mut i: usize = 0;
    while i < tokens.len()
        invariant
            i <= tokens@.len(),
            token_views(copy@) == token_views(tokens@.take(i as int)),
        decreases tokens@.len() - i,
    {
        proof {
            assert(tokens@.take(i + 1) =~= tokens@.take(i as int).push(tokens@[i as int]));
        }
        let t = tokens[i].clone();
        assert(t@ == tokens@[i as int]@);
        assert(token_views(tokens@.take(i + 1)) == token_views(tokens@.take(i as int)).push(t@));
        copy.push(t);
        i += 1;
    }
    proof {
        assert(tokens@.take(tokens@.len() as int) =~= tokens@);
    }
    copy
}

/// Scans a whole text.
pub fn lex(source: &str) -> (r: Result<Vec<Token>, LexError>)
    requires
        source@.len() < usize::MAX,
    ensures
        match tokenize(source@) {
            Ok(tokens) => r is Ok && token_views(r->Ok_0@) == tokens && well_terminated(tokens),
            Err(e) => r == Err::<Vec<Token>, LexError>(e),
        },
{
    let mut lexer = Lexer::new(source.to_owned());
    let r = lexer.scan_tokens();
    proof {
        lemma_tokenize_terminated(source@);
        assert(token_views(Seq::<Token>::empty()) =~= Seq::<TokenView>::empty());
        if let Ok(tokens) = tokenize(source@) {
            assert(Seq::<TokenView>::empty() + tokens =~= tokens);
        }
    }
    r
}

} // verus!
