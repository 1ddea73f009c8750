//! The scanner: cuts source text into tokens, one at a time.
//!
//! The text is taken as bytes. What the next token of a text is, and where
//! the scanner stands after it, is given by [`next_token`]; the executable
//! scanner is proved to return exactly that token and to end in exactly that
//! state.

use vstd::prelude::*;
use vstd::slice::*;
use vstd::string::*;

verus! {

/// The kinds of token.
#[derive(Debug, Clone, Copy, PartialEq, Eq, Structural)]
pub enum TokenType {
    TokenLeftParen,
    TokenRightParen,
    TokenLeftBrace,
    TokenRightBrace,
    TokenComma,
    TokenDot,
    TokenSemicolon,
    TokenMinus,
    TokenPlus,
    TokenSlash,
    TokenStar,
    TokenNot,
    TokenNotEqual,
    TokenEqual,
    TokenEqualEqual,
    TokenLess,
    TokenLessEqual,
    TokenGreater,
    TokenGreaterEqual,
    TokenIdentifier,
    TokenString,
    TokenNumber,
    TokenTrue,
    TokenFalse,
    TokenAnd,
    TokenOr,
    TokenIf,
    TokenElse,
    TokenClass,
    TokenSuper,
    TokenThis,
    TokenFun,
    TokenVar,
    TokenReturn,
    TokenFor,
    TokenWhile,
    TokenNil,
    TokenPrint,
    TokenError,
    TokenEof,
}

/// A token: its kind, the bytes it was made from (for an error, the bytes of
/// the message instead) and the line on which it ends, counted from 1.
#[derive(Debug, Clone)]
pub struct Token {
    pub token_type: TokenType,
    pub value: Vec<u8>,
    pub line: usize,
}

/// A token as a mathematical value.
pub struct TokenView {
    pub token_type: TokenType,
    pub value: Seq<u8>,
    pub line: int,
}

impl View for Token {
    type V = TokenView;

    open spec fn view(&self) -> TokenView {
        TokenView { token_type: self.token_type, value: self.value@, line: self.line as int }
    }
}

/// The state of a scanner as a mathematical value.
pub struct ScannerView {
    /// The whole text.
    pub source: Seq<u8>,
    /// Where the token being scanned starts.
    pub start: int,
    /// The next byte to look at.
    pub current: int,
    /// The line of the byte at `current`, counted from 1.
    pub line: int,
}

/// A token together with the scanner that has just produced it.
pub struct Scanned {
    pub token: TokenView,
    pub scanner: ScannerView,
}

/// The kinds of byte that a scanner runs over in one go.
pub enum Run {
    /// Decimal digits.
    Digits,
    /// Letters, digits and the underscore.
    Word,
    /// Everything up to the end of the line.
    Comment,
    /// Everything up to the next double quote.
    StringBody,
}

pub open spec fn is_digit_byte(c: u8) -> bool {
    '0' as u8 <= c <= '9' as u8
}

pub open spec fn is_alpha_byte(c: u8) -> bool {
    ('a' as u8 <= c <= 'z' as u8) || ('A' as u8 <= c <= 'Z' as u8) || c == '_' as u8
}

impl Run {
    /// Whether byte `c` belongs to a run of this kind.
    pub open spec fn takes(self, c: u8) -> bool {
        match self {
            Run::Digits => is_digit_byte(c),
            Run::Word => is_alpha_byte(c) || is_digit_byte(c),
            Run::Comment => c != '\n' as u8,
            Run::StringBody => c != '"' as u8,
        }
    }
}

/// Where the longest run of bytes of kind `run` that starts at `from` ends:
/// the first position from `from` on that holds another byte, or the end of
/// the text.
pub open spec fn run_end(source: Seq<u8>, from: int, run: Run) -> int
    decreases source.len() - from,
{
    if 0 <= from < source.len() && run.takes(source[from]) {
        run_end(source, from + 1, run)
    } else {
        from
    }
}

/// The number of line feeds among `bytes`.
pub open spec fn newlines(bytes: Seq<u8>) -> int
    decreases bytes.len(),
{
    if bytes.len() == 0 {
        0
    } else {
        newlines(bytes.drop_last()) + if bytes.last() == '\n' as u8 {
            1int
        } else {
            0int
        }
    }
}

/// The kind of token that a word is: one of the reserved words, or an
/// identifier.
pub open spec fn word_type(word: Seq<u8>) -> TokenType {
    if word == "and".spec_bytes() {
        TokenType::TokenAnd
    } else if word == "class".spec_bytes() {
        TokenType::TokenClass
    } else if word == "else".spec_bytes() {
        TokenType::TokenElse
    } else if word == "false".spec_bytes() {
        TokenType::TokenFalse
    } else if word == "for".spec_bytes() {
        TokenType::TokenFor
    } else if word == "fun".spec_bytes() {
        TokenType::TokenFun
    } else if word == "if".spec_bytes() {
        TokenType::TokenIf
    } else if word == "nil".spec_bytes() {
        TokenType::TokenNil
    } else if word == "or".spec_bytes() {
        TokenType::TokenOr
    } else if word == "print".spec_bytes() {
        TokenType::TokenPrint
    } else if word == "return".spec_bytes() {
        TokenType::TokenReturn
    } else if word == "super".spec_bytes() {
        TokenType::TokenSuper
    } else if word == "this".spec_bytes() {
        TokenType::TokenThis
    } else if word == "true".spec_bytes() {
        TokenType::TokenTrue
    } else if word == "var".spec_bytes() {
        TokenType::TokenVar
    } else if word == "while".spec_bytes() {
        TokenType::TokenWhile
    } else {
        TokenType::TokenIdentifier
    }
}

impl ScannerView {
    /// A scanner at the start of `source`.
    pub open spec fn new(source: Seq<u8>) -> ScannerView {
        ScannerView { source, start: 0, current: 0, line: 1 }
    }

    /// The positions are in order and inside the text.
    pub open spec fn wf(self) -> bool {
        0 <= self.start <= self.current <= self.source.len()
    }

    pub open spec fn is_at_end(self) -> bool {
        self.current >= self.source.len()
    }

    /// The byte at `current`; 0 at the end of the text.
    pub open spec fn peek(self) -> u8 {
        if 0 <= self.current < self.source.len() {
            self.source[self.current]
        } else {
            0
        }
    }

    /// The byte after the one at `current`; 0 if there is none.
    pub open spec fn peek_next(self) -> u8 {
        if 0 <= self.current + 1 < self.source.len() {
            self.source[self.current + 1]
        } else {
            0
        }
    }

    /// The same scanner further on in the text.
    pub open spec fn at(self, current: int) -> ScannerView {
        ScannerView { current, ..self }
    }

    /// The same scanner `count` lines further down.
    pub open spec fn down(self, count: int) -> ScannerView {
        ScannerView { line: self.line + count, ..self }
    }

    /// The same scanner about to start a token where it stands.
    pub open spec fn marked(self) -> ScannerView {
        ScannerView { start: self.current, ..self }
    }

    /// The bytes from `start` up to `current`.
    pub open spec fn lexeme(self) -> Seq<u8> {
        self.source.subrange(self.start, self.current)
    }

    /// The token of kind `token_type` made from the bytes from `start` up to
    /// `current`.
    pub open spec fn token(self, token_type: TokenType) -> TokenView {
        TokenView { token_type, value: self.lexeme(), line: self.line }
    }

    /// The error token that carries `message`.
    pub open spec fn error(self, message: Seq<u8>) -> TokenView {
        TokenView { token_type: TokenType::TokenError, value: message, line: self.line }
    }

    /// This scanner having produced a token of kind `token_type`.
    pub open spec fn emit(self, token_type: TokenType) -> Scanned {
        Scanned { token: self.token(token_type), scanner: self }
    }

    /// This scanner having produced an error token.
    pub open spec fn fail(self, message: Seq<u8>) -> Scanned {
        Scanned { token: self.error(message), scanner: self }
    }

    /// A token of kind `long` that takes one more byte if that byte is
    /// `expected`, else a token of kind `short`.
    pub open spec fn either(self, expected: u8, long: TokenType, short: TokenType) -> Scanned {
        if !self.is_at_end() && self.peek() == expected {
            self.at(self.current + 1).emit(long)
        } else {
            self.emit(short)
        }
    }
}

/// Runs do not go backwards or past the end of the text.
pub proof fn lemma_run_end_bounds(source: Seq<u8>, from: int, run: Run)
    requires
        0 <= from <= source.len(),
    ensures
        from <= run_end(source, from, run) <= source.len(),
    decreases source.len() - from,
{
    if from < source.len() && run.takes(source[from]) {
        lemma_run_end_bounds(source, from + 1, run);
    }
}

/// The scanner past blanks, line ends and comments. A comment starts with
/// two slashes and goes up to the end of the line. Each line feed passed
/// counts one line.
pub open spec fn skip_blanks(s: ScannerView) -> ScannerView
    decreases s.source.len() - s.current,
{
    let c = s.peek();
    if !(0 <= s.current < s.source.len()) {
        s
    } else if c == ' ' as u8 || c == '\r' as u8 || c == '\t' as u8 {
        skip_blanks(s.at(s.current + 1))
    } else if c == '\n' as u8 {
        skip_blanks(s.at(s.current + 1).down(1))
    } else if c == '/' as u8 && s.peek_next() == '/' as u8 {
        proof {
            lemma_run_end_bounds(s.source, s.current + 1, Run::Comment);
        }
        skip_blanks(s.at(run_end(s.source, s.current, Run::Comment)))
    } else {
        s
    }
}

/// A word whose first byte has been taken: letters, digits and underscores
/// as far as they go.
pub open spec fn identifier(s: ScannerView) -> Scanned {
    let end = s.at(run_end(s.source, s.current, Run::Word));
    end.emit(word_type(end.lexeme()))
}

/// A number whose first digit has been taken: digits as far as they go,
/// then, if a point and a digit follow, the point and the digits after it.
pub open spec fn number(s: ScannerView) -> Scanned {
    let whole = s.at(run_end(s.source, s.current, Run::Digits));
    if whole.peek() == '.' as u8 && is_digit_byte(whole.peek_next()) {
        whole.at(run_end(s.source, whole.current + 1, Run::Digits)).emit(TokenType::TokenNumber)
    } else {
        whole.emit(TokenType::TokenNumber)
    }
}

/// A string whose opening quote has been taken: everything up to the next
/// quote and that quote. Line feeds inside the string count as lines. If the
/// text ends before the string does, the token is an error and the scanner is
/// at the end of the text.
pub open spec fn string(s: ScannerView) -> Scanned {
    let close = run_end(s.source, s.current, Run::StringBody);
    let body = s.at(close).down(newlines(s.source.subrange(s.current, close)));
    if body.is_at_end() {
        body.fail("Unterminated String Literal".spec_bytes())
    } else {
        body.at(close + 1).emit(TokenType::TokenString)
    }
}

/// The token that starts with byte `c`, which has been taken and is neither
/// a letter, an underscore, a digit nor a double quote.
pub open spec fn punctuation(s: ScannerView, c: u8) -> Scanned {
    if c == '(' as u8 {
        s.emit(TokenType::TokenLeftParen)
    } else if c == ')' as u8 {
        s.emit(TokenType::TokenRightParen)
    } else if c == '{' as u8 {
        s.emit(TokenType::TokenLeftBrace)
    } else if c == '}' as u8 {
        s.emit(TokenType::TokenRightBrace)
    } else if c == ',' as u8 {
        s.emit(TokenType::TokenComma)
    } else if c == '.' as u8 {
        s.emit(TokenType::TokenDot)
    } else if c == ';' as u8 {
        s.emit(TokenType::TokenSemicolon)
    } else if c == '-' as u8 {
        s.emit(TokenType::TokenMinus)
    } else if c == '+' as u8 {
        s.emit(TokenType::TokenPlus)
    } else if c == '*' as u8 {
        s.emit(TokenType::TokenStar)
    } else if c == '/' as u8 {
        s.emit(TokenType::TokenSlash)
    } else if c == '!' as u8 {
        s.either('=' as u8, TokenType::TokenNotEqual, TokenType::TokenNot)
    } else if c == '=' as u8 {
        s.either('=' as u8, TokenType::TokenEqualEqual, TokenType::TokenEqual)
    } else if c == '<' as u8 {
        s.either('=' as u8, TokenType::TokenLessEqual, TokenType::TokenLess)
    } else if c == '>' as u8 {
        s.either('=' as u8, TokenType::TokenGreaterEqual, TokenType::TokenGreater)
    } else {
        s.fail("Unknown character.".spec_bytes())
    }
}

/// The next token of the text and the scanner after it.
///
/// Blanks, line ends and comments before the token are passed over. At the
/// end of the text the token is `TokenEof`, with no bytes, however often it
/// is asked for.
pub open spec fn next_token(s: ScannerView) -> Scanned {
    let begin = skip_blanks(s).marked();
    if begin.is_at_end() {
        begin.emit(TokenType::TokenEof)
    } else {
        let c = begin.peek();
        let taken = begin.at(begin.current + 1);
        if is_alpha_byte(c) {
            identifier(taken)
        } else if is_digit_byte(c) {
            number(taken)
        } else if c == '"' as u8 {
            string(taken)
        } else {
            punctuation(taken, c)
        }
    }
}

#[verifier::when_used_as_spec(is_digit_byte)]
fn is_digit(c: u8) -> (b: bool)
    ensures
        b == is_digit_byte(c),
{
    c >= '0' as u8 && c <= '9' as u8
}

#[verifier::when_used_as_spec(is_alpha_byte)]
fn is_alpha(c: u8) -> (b: bool)
    ensures
        b == is_alpha_byte(c),
{
    (c >= 'a' as u8 && c <= 'z' as u8) || (c >= 'A' as u8 && c <= 'Z' as u8) || c == '_' as u8
}

/// Whether two slices hold the same bytes.
fn same_bytes(a: &[u8], b: &[u8]) -> (same: bool)
    ensures
        same == (a@ == b@),
{
    if a.len() != b.len() {
        return false;
    }
    let mut i: usize = 0;
    while i < a.len()
        invariant
            a@.len() == b@.len(),
            i <= a@.len(),
            a@.take(i as int) == b@.take(i as int),
        decreases a@.len() - i,
    {
        if a[i] != b[i] {
            return false;
        }
        i += 1;
        assert(a@.take(i as int) == a@.take(i - 1).push(a@[i - 1]));
        assert(b@.take(i as int) == b@.take(i - 1).push(b@[i - 1]));
    }
    assert(a@ == a@.take(i as int));
    assert(b@ == b@.take(i as int));
    true
}

/// The kind of token that `word` is.
fn classify_word(word: &[u8]) -> (token_type: TokenType)
    ensures
        token_type == word_type(word@),
{
    if same_bytes(word, "and".as_bytes()) {
        TokenType::TokenAnd
    } else if same_bytes(word, "class".as_bytes()) {
        TokenType::TokenClass
    } else if same_bytes(word, "else".as_bytes()) {
        TokenType::TokenElse
    } else if same_bytes(word, "false".as_bytes()) {
        TokenType::TokenFalse
    } else if same_bytes(word, "for".as_bytes()) {
        TokenType::TokenFor
    } else if same_bytes(word, "fun".as_bytes()) {
        TokenType::TokenFun
    } else if same_bytes(word, "if".as_bytes()) {
        TokenType::TokenIf
    } else if same_bytes(word, "nil".as_bytes()) {
        TokenType::TokenNil
    } else if same_bytes(word, "or".as_bytes()) {
        TokenType::TokenOr
    } else if same_bytes(word, "print".as_bytes()) {
        TokenType::TokenPrint
    } else if same_bytes(word, "return".as_bytes()) {
        TokenType::TokenReturn
    } else if same_bytes(word, "super".as_bytes()) {
        TokenType::TokenSuper
    } else if same_bytes(word, "this".as_bytes()) {
        TokenType::TokenThis
    } else if same_bytes(word, "true".as_bytes()) {
        TokenType::TokenTrue
    } else if same_bytes(word, "var".as_bytes()) {
        TokenType::TokenVar
    } else if same_bytes(word, "while".as_bytes()) {
        TokenType::TokenWhile
    } else {
        TokenType::TokenIdentifier
    }
}

/// A scanner over one source text.
#[derive(Debug)]
pub struct Scanner {
    source: Vec<u8>,
    start: usize,
    current: usize,
    line: usize,
}

impl View for Scanner {
    type V = ScannerView;

    closed spec fn view(&self) -> ScannerView {
        ScannerView {
            source: self.source@,
            start: self.start as int,
            current: self.current as int,
            line: self.line as int,
        }
    }
}

impl Scanner {
    /// The positions are in order and inside the text, the text leaves room
    /// to count one past its end, and no more lines have been counted than
    /// bytes passed.
    #[verifier::type_invariant]
    spec fn inv(&self) -> bool {
        &&& self.start <= self.current <= self.source@.len() < usize::MAX
        &&& self.line <= self.current + 1
    }

    /// A scanner at the start of `source_code`, on line 1.
    ///
    /// The text must be shorter than `usize::MAX` bytes, so that positions
    /// and lines can be counted in a `usize`. Every string is: no allocation
    /// is larger than `isize::MAX` bytes.
    pub fn init_scanner(source_code: &str) -> (scanner: Self)
        requires
            source_code.spec_bytes().len() < usize::MAX,
        ensures
            scanner@ == ScannerView::new(source_code.spec_bytes()),
    {
        Self { source: slice_to_vec(source_code.as_bytes()), start: 0, current: 0, line: 1 }
    }

    fn is_at_end(&self) -> (at_end: bool)
        ensures
            at_end == self@.is_at_end(),
    {
        self.current >= self.source.len()
    }

    fn peek(&self) -> (c: u8)
        ensures
            c == self@.peek(),
    {
        if self.is_at_end() {
            0
        } else {
            self.source[self.current]
        }
    }

    fn peek_next(&self) -> (c: u8)
        ensures
            c == self@.peek_next(),
    {
        proof {
            use_type_invariant(self);
        }
        if self.current + 1 >= self.source.len() {
            0
        } else {
            self.source[self.current + 1]
        }
    }

    /// Takes the byte at `current`.
    fn advance(&mut self) -> (c: u8)
        requires
            !old(self)@.is_at_end(),
        ensures
            c == old(self)@.peek(),
            final(self)@ == old(self)@.at(old(self)@.current + 1),
    {
        proof {
            use_type_invariant(&*self);
        }
        let c = self.peek();
        self.current = self.current + 1;
        c
    }

    /// Passes over the byte at `current`, if there is one.
    #[allow(dead_code)]
    fn skip_next_character(&mut self)
        ensures
            final(self)@ == if old(self)@.is_at_end() {
                old(self)@
            } else {
                old(self)@.at(old(self)@.current + 1)
            },
    {
        proof {
            use_type_invariant(&*self);
        }
        if !self.is_at_end() {
            self.current += 1;
        }
    }

    fn skip_whitespace_and_comments(&mut self)
        ensures
            final(self)@ == skip_blanks(old(self)@),
            final(self)@.start == old(self)@.start,
            final(self)@.source == old(self)@.source,
    {
        loop
            invariant
                skip_blanks(self@) == skip_blanks(old(self)@),
                self@.start == old(self)@.start,
                self@.source == old(self)@.source,
            decreases self@.source.len() - self@.current,
        {
            proof {
                use_type_invariant(&*self);
            }
            let c = self.peek();
            if self.is_at_end() {
                return ;
            } else if c == ' ' as u8 || c == '\r' as u8 || c == '\t' as u8 {
                self.advance();
            } else if c == '\n' as u8 {
                self.advance();
                self.line += 1;
            } else if c == '/' as u8 && self.peek_next() == '/' as u8 {
                let ghost slash = self@;
                while self.peek() != '\n' as u8 && !self.is_at_end()
                    invariant
                        self@ == slash.at(self@.current),
                        slash.current <= self@.current,
                        run_end(self@.source, self@.current, Run::Comment) == run_end(
                            slash.source,
                            slash.current,
                            Run::Comment,
                        ),
                    decreases self@.source.len() - self@.current,
                {
                    self.advance();
                }
                proof {
                    use_type_invariant(&*self);
                    assert(slash.current < self@.current);
                }
            } else {
                return ;
            }
        }
    }

    /// Takes the byte at `current` if it is `expected`.
    fn match_next(&mut self, expected: u8) -> (matched: bool)
        ensures
            matched == (!old(self)@.is_at_end() && old(self)@.peek() == expected),
            final(self)@ == if matched {
                old(self)@.at(old(self)@.current + 1)
            } else {
                old(self)@
            },
    {
        proof {
            use_type_invariant(&*self);
        }
        if self.is_at_end() {
            return false;
        }
        if self.source[self.current] != expected {
            return false;
        }
        self.current += 1;
        true
    }

    fn make_token(&self, ttype: TokenType) -> (token: Token)
        ensures
            token@ == self@.token(ttype),
    {
        proof {
            use_type_invariant(self);
        }
        let slice = slice_subrange(self.source.as_slice(), self.start, self.current);
        Token { token_type: ttype, value: slice_to_vec(slice), line: self.line }
    }

    fn error_token(&self, msg: &str) -> (token: Token)
        ensures
            token@ == self@.error(msg.spec_bytes()),
    {
        Token {
            token_type: TokenType::TokenError,
            value: slice_to_vec(msg.as_bytes()),
            line: self.line,
        }
    }

    /// Scans a string whose opening quote has just been taken.
    fn get_literal_string(&mut self) -> (token: Token)
        ensures
            token@ == string(old(self)@).token,
            final(self)@ == string(old(self)@).scanner,
            final(self)@.wf(),
    {
        let ghost open = self@;
        proof {
            use_type_invariant(&*self);
            assert(open.source.subrange(open.current, open.current) == Seq::<u8>::empty());
        }
        while !self.is_at_end() && self.peek() != '"' as u8
            invariant
                self@ == open.at(self@.current).down(self@.line - open.line),
                0 <= open.current <= self@.current <= open.source.len(),
                run_end(self@.source, self@.current, Run::StringBody) == run_end(
                    open.source,
                    open.current,
                    Run::StringBody,
                ),
                self@.line - open.line == newlines(
                    open.source.subrange(open.current, self@.current),
                ),
            decreases self@.source.len() - self@.current,
        {
            let ghost before = self@;
            proof {
                use_type_invariant(&*self);
            }
            let line_end = self.peek() == '\n' as u8;
            self.advance();
            if line_end {
                self.line += 1;
            }
            proof {
                let passed = open.source.subrange(open.current, self@.current);
                assert(passed.drop_last() == open.source.subrange(open.current, before.current));
            }
        }
        proof {
            use_type_invariant(&*self);
        }
        if self.is_at_end() {
            return self.error_token("Unterminated String Literal");
        }
        self.advance();
        self.make_token(TokenType::TokenString)
    }

    /// Scans a number whose first digit has just been taken.
    fn get_literal_number(&mut self) -> (token: Token)
        ensures
            token@ == number(old(self)@).token,
            final(self)@ == number(old(self)@).scanner,
            final(self)@.wf(),
    {
        let ghost first = self@;
        while is_digit(self.peek())
            invariant
                self@ == first.at(self@.current),
                run_end(self@.source, self@.current, Run::Digits) == run_end(
                    first.source,
                    first.current,
                    Run::Digits,
                ),
            decreases self@.source.len() - self@.current,
        {
            self.advance();
        }
        if self.peek() == '.' as u8 && is_digit(self.peek_next()) {
            self.advance();
            let ghost point = self@;
            while is_digit(self.peek())
                invariant
                    self@ == first.at(self@.current),
                    run_end(self@.source, self@.current, Run::Digits) == run_end(
                        point.source,
                        point.current,
                        Run::Digits,
                    ),
                decreases self@.source.len() - self@.current,
            {
                self.advance();
            }
        }
        proof {
            use_type_invariant(&*self);
        }
        self.make_token(TokenType::TokenNumber)
    }

    /// Scans a word whose first byte has just been taken.
    fn get_identifier(&mut self) -> (token: Token)
        ensures
            token@ == identifier(old(self)@).token,
            final(self)@ == identifier(old(self)@).scanner,
            final(self)@.wf(),
    {
        let ghost first = self@;
        while is_alpha(self.peek()) || is_digit(self.peek())
            invariant
                self@ == first.at(self@.current),
                run_end(self@.source, self@.current, Run::Word) == run_end(
                    first.source,
                    first.current,
                    Run::Word,
                ),
            decreases self@.source.len() - self@.current,
        {
            self.advance();
        }
        proof {
            use_type_invariant(&*self);
        }
        let lexeme = slice_subrange(self.source.as_slice(), self.start, self.current);
        let ttype = classify_word(lexeme);
        self.make_token(ttype)
    }

    /// Returns the next token of the text. At the end of the text that is
    /// `TokenEof`, again and again.
    pub fn scan_token(&mut self) -> (token: Token)
        ensures
            token@ == next_token(old(self)@).token,
            final(self)@ == next_token(old(self)@).scanner,
            final(self)@.wf(),
    {
        self.skip_whitespace_and_comments();
        proof {
            use_type_invariant(&*self);
        }
        self.start = self.current;

        if self.is_at_end() {
            return self.make_token(TokenType::TokenEof);
        }
        let c = self.advance();

        if is_alpha(c) {
            return self.get_identifier();
        }
        if is_digit(c) {
            return self.get_literal_number();
        }
        if c == '"' as u8 {
            return self.get_literal_string();
        }
        proof {
            use_type_invariant(&*self);
        }
        if c == '(' as u8 {
            self.make_token(TokenType::TokenLeftParen)
        } else if c == ')' as u8 {
            self.make_token(TokenType::TokenRightParen)
        } else if c == '{' as u8 {
            self.make_token(TokenType::TokenLeftBrace)
        } else if c == '}' as u8 {
            self.make_token(TokenType::TokenRightBrace)
        } else if c == ',' as u8 {
            self.make_token(TokenType::TokenComma)
        } else if c == '.' as u8 {
            self.make_token(TokenType::TokenDot)
        } else if c == ';' as u8 {
            self.make_token(TokenType::TokenSemicolon)
        } else if c == '-' as u8 {
            self.make_token(TokenType::TokenMinus)
        } else if c == '+' as u8 {
            self.make_token(TokenType::TokenPlus)
        } else if c == '*' as u8 {
            self.make_token(TokenType::TokenStar)
        } else if c == '/' as u8 {
            self.make_token(TokenType::TokenSlash)
        } else if c == '!' as u8 {
            if self.match_next('=' as u8) {
                self.make_token(TokenType::TokenNotEqual)
            } else {
                self.make_token(TokenType::TokenNot)
            }
        } else if c == '=' as u8 {
            if self.match_next('=' as u8) {
                self.make_token(TokenType::TokenEqualEqual)
            } else {
                self.make_token(TokenType::TokenEqual)
            }
        } else if c == '<' as u8 {
            if self.match_next('=' as u8) {
                self.make_token(TokenType::TokenLessEqual)
            } else {
                self.make_token(TokenType::TokenLess)
            }
        } else if c == '>' as u8 {
            if self.match_next('=' as u8) {
                self.make_token(TokenType::TokenGreaterEqual)
            } else {
                self.make_token(TokenType::TokenGreater)
            }
        } else {
            self.error_token("Unknown character.")
        }
    }
}

/// A run is as long as it can be: every byte between `from` and its end is
/// of the kind, and the byte at its end, if there is one, is not.
pub proof fn lemma_run_end_is_longest(source: Seq<u8>, from: int, run: Run)
    requires
        0 <= from <= source.len(),
    ensures
        forall|i: int| from <= i < run_end(source, from, run) ==> run.takes(#[trigger] source[i]),
        run_end(source, from, run) < source.len() ==> !run.takes(
            source[run_end(source, from, run)],
        ),
    decreases source.len() - from,
{
    if from < source.len() && run.takes(source[from]) {
        lemma_run_end_is_longest(source, from + 1, run);
    }
}

/// Passing over blanks keeps a scanner inside its text, moves it forwards
/// only and does not touch the text.
pub proof fn lemma_skip_blanks(s: ScannerView)
    requires
        s.wf(),
    ensures
        skip_blanks(s).wf(),
        skip_blanks(s).source == s.source,
        skip_blanks(s).start == s.start,
        s.current <= skip_blanks(s).current,
        s.line <= skip_blanks(s).line,
    decreases s.source.len() - s.current,
{
    let c = s.peek();
    if !(0 <= s.current < s.source.len()) {
    } else if c == ' ' as u8 || c == '\r' as u8 || c == '\t' as u8 {
        lemma_skip_blanks(s.at(s.current + 1));
    } else if c == '\n' as u8 {
        lemma_skip_blanks(s.at(s.current + 1).down(1));
    } else if c == '/' as u8 && s.peek_next() == '/' as u8 {
        lemma_run_end_bounds(s.source, s.current + 1, Run::Comment);
        lemma_skip_blanks(s.at(run_end(s.source, s.current, Run::Comment)));
    }
}

/// Scanning makes progress and comes to an end: the scanner stays inside
/// its text and never goes back; every token but `TokenEof` takes at least
/// one byte, so a text of `n` bytes gives at most `n` of them; and
/// `TokenEof` comes exactly when nothing but blanks and comments is left,
/// with the scanner at the end of the text.
pub proof fn lemma_next_token_progress(s: ScannerView)
    requires
        s.wf(),
    ensures
        next_token(s).scanner.wf(),
        next_token(s).scanner.source == s.source,
        s.current <= next_token(s).scanner.start,
        s.line <= next_token(s).token.line == next_token(s).scanner.line,
        next_token(s).token.token_type != TokenType::TokenEof ==> s.current < next_token(
            s,
        ).scanner.current,
        next_token(s).token.token_type == TokenType::TokenEof <==> skip_blanks(s).is_at_end(),
        next_token(s).token.token_type == TokenType::TokenEof ==> {
            &&& next_token(s).scanner.is_at_end()
            &&& next_token(s).token.value.len() == 0
        },
{
    lemma_skip_blanks(s);
    let begin = skip_blanks(s).marked();
    if !begin.is_at_end() {
        let taken = begin.at(begin.current + 1);
        lemma_run_end_bounds(s.source, taken.current, Run::Word);
        lemma_run_end_bounds(s.source, taken.current, Run::Digits);
        lemma_run_end_bounds(s.source, taken.current, Run::StringBody);
        let whole = run_end(s.source, taken.current, Run::Digits);
        if whole + 1 <= s.source.len() {
            lemma_run_end_bounds(s.source, whole + 1, Run::Digits);
        }
        lemma_newlines_bounds(
            s.source.subrange(taken.current, run_end(s.source, taken.current, Run::StringBody)),
        );
    }
}

/// There are no more line feeds among some bytes than bytes.
pub proof fn lemma_newlines_bounds(bytes: Seq<u8>)
    ensures
        0 <= newlines(bytes) <= bytes.len(),
    decreases bytes.len(),
{
    if bytes.len() > 0 {
        lemma_newlines_bounds(bytes.drop_last());
    }
}

/// A token that is no error carries the bytes of the text from where it
/// starts to where the scanner stands after it.
pub proof fn lemma_token_is_slice_of_source(s: ScannerView)
    requires
        s.wf(),
    ensures
        next_token(s).token.token_type != TokenType::TokenError ==> next_token(s).token.value
            == s.source.subrange(next_token(s).scanner.start, next_token(s).scanner.current),
{
    lemma_skip_blanks(s);
}

} // verus!
