use vstd::prelude::*;

verus! {

/// A token of the surface syntax.
#[derive(Debug, PartialEq)]
pub enum Token {
    /// `(`
    OpenParen,
    /// `)`
    CloseParen,
    /// `.` standing alone, the pair separator
    Dot,
    Identifier(Vec<char>),
    /// `#t`
    True,
    /// `#f`
    False,
    /// `#\<name>`: the text after the backslash
    Character(Vec<char>),
    /// an unsigned integer literal, kept as its digits
    Numeric(Vec<char>),
    /// end of the character stream
    EOF,
}

/// What a token is, with its text as a sequence.
pub enum TokenModel {
    OpenParen,
    CloseParen,
    Dot,
    Identifier(Seq<char>),
    True,
    False,
    Character(Seq<char>),
    Numeric(Seq<char>),
    EOF,
}

impl View for Token {
    type V = TokenModel;

    open spec fn view(&self) -> TokenModel {
        match self {
            Token::OpenParen => TokenModel::OpenParen,
            Token::CloseParen => TokenModel::CloseParen,
            Token::Dot => TokenModel::Dot,
            Token::Identifier(t) => TokenModel::Identifier(t@),
            Token::True => TokenModel::True,
            Token::False => TokenModel::False,
            Token::Character(t) => TokenModel::Character(t@),
            Token::Numeric(t) => TokenModel::Numeric(t@),
            Token::EOF => TokenModel::EOF,
        }
    }
}

/// How a token is written out for messages.
pub open spec fn token_description(t: TokenModel) -> Seq<char> {
    match t {
        TokenModel::OpenParen => "OpenParen"@,
        TokenModel::CloseParen => "CloseParen"@,
        TokenModel::Dot => "Dot"@,
        TokenModel::Identifier(n) => "Identifier("@ + n + ")"@,
        TokenModel::True => "#t"@,
        TokenModel::False => "#f"@,
        TokenModel::Character(n) => "#\\"@ + n,
        TokenModel::Numeric(n) => n,
        TokenModel::EOF => "EOF"@,
    }
}

/// Relies on `String::push`: appends one character at the end.
#[verifier::external_body]
fn push_char(s: &mut String, c: char)
    ensures
        final(s)@ == old(s)@.push(c),
{
    s.push(c)
}

fn push_all(s: &mut String, t: &Vec<char>)
    ensures
        final(s)@ == old(s)@ + t@,
{
    let ghost start = s@;
    let mut i: usize = 0;
    while i < t.len()
        invariant
            i <= t@.len(),
            s@ == start + t@.take(i as int),
        decreases t@.len() - i,
    {
        push_char(s, t[i]);
        i = i + 1;
        assert(s@ =~= start + t@.take(i as int));
    }
    assert(t@.take(i as int) =~= t@);
}

impl Token {
    /// The token written out: its name, or its text for literals.
    pub fn describe(&self) -> (r: String)
        ensures
            r@ == token_description(self@),
    {
        match self {
            Token::OpenParen => String::from_str("OpenParen"),
            Token::CloseParen => String::from_str("CloseParen"),
            Token::Dot => String::from_str("Dot"),
            Token::Identifier(n) => {
                let mut s = String::from_str("Identifier(");
                push_all(&mut s, n);
                s.append(")");
                s
            },
            Token::True => String::from_str("#t"),
            Token::False => String::from_str("#f"),
            Token::Character(n) => {
                let mut s = String::from_str("#\\");
                push_all(&mut s, n);
                s
            },
            Token::Numeric(n) => {
                let mut s = String::new();
                push_all(&mut s, n);
                assert(s@ =~= n@);
                s
            },
            Token::EOF => String::from_str("EOF"),
        }
    }
}

/// A token with the 1-based line and column of its first character.
#[derive(Debug)]
pub struct TokenWrapper {
    pub line: usize,
    pub column: usize,
    pub token: Token,
}

/// What went wrong while reading a token.
#[derive(Debug, PartialEq, Eq, Clone, Copy)]
pub enum LexErrorKind {
    InvalidCharacter(char),
    UnexpectedEOF,
}

/// A lexing failure, with the line and column that reading had reached.
#[derive(Debug, PartialEq, Eq, Clone, Copy)]
pub struct LexError {
    pub line: usize,
    pub column: usize,
    pub kind: LexErrorKind,
}

fn wrap(line: usize, column: usize, t: Token) -> (r: TokenWrapper)
    ensures
        r.line == line,
        r.column == column,
        r.token == t,
{
    TokenWrapper { line: line, column: column, token: t }
}

pub open spec fn whitespace_char(c: char) -> bool {
    c == '\t' || c == '\n' || c == '\x0b' || c == '\x0c' || c == '\r' || c == ' '
}

pub open spec fn initial_char(c: char) -> bool {
    ('a' <= c && c <= 'z') || ('A' <= c && c <= 'Z') || c == '!' || c == '$' || c == '%' || c
        == '&' || c == '*' || c == '/' || c == ':' || c == '<' || c == '=' || c == '>' || c == '?'
        || c == '^' || c == '_' || c == '~'
}

pub open spec fn digit_char(c: char) -> bool {
    '0' <= c && c <= '9'
}

pub open spec fn subsequent_char(c: char) -> bool {
    initial_char(c) || digit_char(c) || c == '+' || c == '-' || c == '.' || c == '@'
}

fn is_whitespace(c: char) -> (r: bool)
    ensures
        r == whitespace_char(c),
{
    c == '\t' || c == '\n' || c == '\x0b' || c == '\x0c' || c == '\r' || c == ' '
}

fn is_initial(c: char) -> (r: bool)
    ensures
        r == initial_char(c),
{
    ('a' <= c && c <= 'z') || ('A' <= c && c <= 'Z') || c == '!' || c == '$' || c == '%' || c
        == '&' || c == '*' || c == '/' || c == ':' || c == '<' || c == '=' || c == '>' || c == '?'
        || c == '^' || c == '_' || c == '~'
}

fn is_digit(c: char) -> (r: bool)
    ensures
        r == digit_char(c),
{
    '0' <= c && c <= '9'
}

fn is_subsequent(c: char) -> (r: bool)
    ensures
        r == subsequent_char(c),
{
    if is_initial(c) {
        true
    } else {
        is_digit(c) || c == '+' || c == '-' || c == '.' || c == '@'
    }
}

/// Whether `char::is_alphanumeric` holds of a character.
pub uninterp spec fn alphanumeric_of(c: char) -> bool;

/// Relies on `char::is_alphanumeric`: a property of the character alone.
#[verifier::external_body]
fn is_alphanumeric(c: char) -> (r: bool)
    ensures
        r == alphanumeric_of(c),
{
    c.is_alphanumeric()
}

/// The classes of characters that the lexer reads in runs.
#[derive(Clone, Copy)]
pub enum CharClass {
    Whitespace,
    Subsequent,
    Digit,
    Alphanumeric,
    NotNewline,
}

pub open spec fn in_class(k: CharClass, c: char) -> bool {
    match k {
        CharClass::Whitespace => whitespace_char(c),
        CharClass::Subsequent => subsequent_char(c),
        CharClass::Digit => digit_char(c),
        CharClass::Alphanumeric => alphanumeric_of(c),
        CharClass::NotNewline => c != '\n',
    }
}

fn class_contains(k: CharClass, c: char) -> (r: bool)
    ensures
        r == in_class(k, c),
{
    match k {
        CharClass::Whitespace => is_whitespace(c),
        CharClass::Subsequent => is_subsequent(c),
        CharClass::Digit => is_digit(c),
        CharClass::Alphanumeric => is_alphanumeric(c),
        CharClass::NotNewline => c != '\n',
    }
}

/// The index just past the run of class `k` that starts at `i`.
pub open spec fn scan_end(s: Seq<char>, i: int, k: CharClass) -> int
    decreases s.len() - i,
{
    if 0 <= i < s.len() && in_class(k, s[i]) {
        scan_end(s, i + 1, k)
    } else {
        i
    }
}

/// The index of the first character at or after `i` that is neither
/// whitespace nor part of a `;` comment.
pub open spec fn skip_atmosphere(s: Seq<char>, i: int) -> int
    decreases s.len() - i,
{
    let j = scan_end(s, i, CharClass::Whitespace);
    if 0 <= j < s.len() && s[j] == ';' {
        let k = scan_end(s, j, CharClass::NotNewline);
        if i < k <= s.len() {
            skip_atmosphere(s, k)
        } else {
            k
        }
    } else {
        j
    }
}

/// Line and column reached after reading all of `s`, starting at line 1, column 1.
pub open spec fn line_col(s: Seq<char>) -> (nat, nat)
    decreases s.len(),
{
    if s.len() == 0 {
        (1, 1)
    } else {
        let p = line_col(s.drop_last());
        if s.last() == '\n' {
            (p.0 + 1, 1)
        } else {
            (p.0, p.1 + 1)
        }
    }
}

/// Line and column of the character at index `i` of `s`.
pub open spec fn position_at(s: Seq<char>, i: int) -> (nat, nat) {
    line_col(s.take(i))
}

/// Whether a token that ends just before index `i` is ended by whitespace or
/// by the end of input.
pub open spec fn end_of_token(s: Seq<char>, i: int) -> bool {
    i >= s.len() || whitespace_char(s[i])
}

/// The outcome of reading one token at an index of the input.
pub enum Lexed {
    Token { token: TokenModel, start: int, end: int },
    Error { at: int, kind: LexErrorKind },
}

/// What reading one token from index `i` of `s` gives: the token with the
/// index of its first character and the index just past it, or an error with
/// the index that reading had reached.
pub open spec fn lex_at(s: Seq<char>, i: int) -> Lexed {
    let j = skip_atmosphere(s, i);
    if j >= s.len() {
        Lexed::Token { token: TokenModel::EOF, start: j, end: j }
    } else {
        let c = s[j];
        let eot = end_of_token(s, j + 1);
        if initial_char(c) {
            let e = scan_end(s, j + 1, CharClass::Subsequent);
            Lexed::Token { token: TokenModel::Identifier(s.subrange(j, e)), start: j, end: e }
        } else if c == '+' && eot {
            Lexed::Token { token: TokenModel::Identifier(seq!['+']), start: j, end: j + 1 }
        } else if c == '-' {
            if eot {
                Lexed::Token { token: TokenModel::Identifier(seq!['-']), start: j, end: j + 1 }
            } else if s[j + 1] == '>' {
                let e = scan_end(s, j + 1, CharClass::Subsequent);
                Lexed::Token { token: TokenModel::Identifier(s.subrange(j, e)), start: j, end: e }
            } else {
                Lexed::Error { at: j + 1, kind: LexErrorKind::InvalidCharacter(s[j + 1]) }
            }
        } else if c == '(' {
            Lexed::Token { token: TokenModel::OpenParen, start: j, end: j + 1 }
        } else if c == ')' {
            Lexed::Token { token: TokenModel::CloseParen, start: j, end: j + 1 }
        } else if c == '.' && eot {
            Lexed::Token { token: TokenModel::Dot, start: j, end: j + 1 }
        } else if c == '#' {
            if j + 1 >= s.len() {
                Lexed::Error { at: j + 1, kind: LexErrorKind::UnexpectedEOF }
            } else {
                let c0 = s[j + 1];
                if c0 == 't' || c0 == 'T' {
                    Lexed::Token { token: TokenModel::True, start: j, end: j + 2 }
                } else if c0 == 'f' || c0 == 'F' {
                    Lexed::Token { token: TokenModel::False, start: j, end: j + 2 }
                } else if c0 == '\\' {
                    if j + 2 >= s.len() {
                        Lexed::Error { at: j + 2, kind: LexErrorKind::UnexpectedEOF }
                    } else {
                        let e = scan_end(s, j + 3, CharClass::Alphanumeric);
                        Lexed::Token {
                            token: TokenModel::Character(s.subrange(j + 2, e)),
                            start: j,
                            end: e,
                        }
                    }
                } else {
                    Lexed::Error { at: j + 2, kind: LexErrorKind::InvalidCharacter(c0) }
                }
            }
        } else if digit_char(c) {
            let e = scan_end(s, j + 1, CharClass::Digit);
            Lexed::Token { token: TokenModel::Numeric(s.subrange(j, e)), start: j, end: e }
        } else {
            Lexed::Error { at: j + 1, kind: LexErrorKind::InvalidCharacter(c) }
        }
    }
}

pub proof fn lemma_scan_end_bounds(s: Seq<char>, i: int, k: CharClass)
    requires
        0 <= i <= s.len(),
    ensures
        i <= scan_end(s, i, k) <= s.len(),
        forall|m: int| i <= m < scan_end(s, i, k) ==> in_class(k, #[trigger] s[m]),
    decreases s.len() - i,
{
    if 0 <= i < s.len() && in_class(k, s[i]) {
        lemma_scan_end_bounds(s, i + 1, k);
    }
}

pub proof fn lemma_skip_atmosphere_bounds(s: Seq<char>, i: int)
    requires
        0 <= i <= s.len(),
    ensures
        i <= skip_atmosphere(s, i) <= s.len(),
    decreases s.len() - i,
{
    lemma_scan_end_bounds(s, i, CharClass::Whitespace);
    let j = scan_end(s, i, CharClass::Whitespace);
    if 0 <= j < s.len() && s[j] == ';' {
        lemma_scan_end_bounds(s, j + 1, CharClass::NotNewline);
        assert(scan_end(s, j, CharClass::NotNewline) == scan_end(s, j + 1, CharClass::NotNewline));
        lemma_skip_atmosphere_bounds(s, scan_end(s, j, CharClass::NotNewline));
    }
}

/// A token read from inside the input ends inside it and, unless it marks the
/// end of input, past where reading began.
pub proof fn lemma_lex_at_bounds(s: Seq<char>, i: int)
    requires
        0 <= i <= s.len(),
    ensures
        match lex_at(s, i) {
            Lexed::Token { token, start, end } => i <= start <= end <= s.len() && (token
                is EOF <==> start == s.len()) && (!(token is EOF) ==> i < end),
            Lexed::Error { at, .. } => i < at <= s.len(),
        },
{
    lemma_skip_atmosphere_bounds(s, i);
    let j = skip_atmosphere(s, i);
    if j < s.len() {
        lemma_scan_end_bounds(s, j + 1, CharClass::Subsequent);
        lemma_scan_end_bounds(s, j + 1, CharClass::Digit);
        if j + 3 <= s.len() {
            lemma_scan_end_bounds(s, j + 3, CharClass::Alphanumeric);
        }
    }
}

proof fn lemma_subrange_extend(s: Seq<char>, a: int, b: int)
    requires
        0 <= a <= b < s.len(),
    ensures
        s.subrange(a, b + 1) == s.subrange(a, b).push(s[b]),
{
    assert(s.subrange(a, b + 1) =~= s.subrange(a, b).push(s[b]));
}

pub proof fn lemma_line_col_bounds(s: Seq<char>)
    ensures
        1 <= line_col(s).0 <= s.len() + 1,
        1 <= line_col(s).1 <= s.len() + 1,
    decreases s.len(),
{
    if s.len() > 0 {
        lemma_line_col_bounds(s.drop_last());
    }
}

/// Reads a character stream into positioned tokens, with one character of lookahead.
pub struct Lexer {
    chars: Vec<char>,
    pos: usize,
    line: usize,
    column: usize,
}

impl Lexer {
    /// The whole input.
    pub closed spec fn text(&self) -> Seq<char> {
        self.chars@
    }

    /// The index of the next character to read.
    pub closed spec fn offset(&self) -> int {
        self.pos as int
    }

    pub closed spec fn wf(&self) -> bool {
        &&& self.pos <= self.chars.len()
        &&& self.chars.len() < usize::MAX
        &&& (self.line as nat, self.column as nat) == position_at(self.chars@, self.pos as int)
    }

    pub proof fn lemma_offset_bounds(&self)
        requires
            self.wf(),
        ensures
            0 <= self.offset() <= self.text().len(),
    {
    }

    /// Creates a lexer at line 1, column 1 of `src`.
    pub fn new(src: &str) -> (r: Lexer)
        requires
            src@.len() < usize::MAX,
        ensures
            r.wf(),
            r.text() == src@,
            r.offset() == 0,
    {
        let n = src.unicode_len();
        let mut chars: Vec<char> = Vec::new();
        let mut i: usize = 0;
        while i < n
            invariant
                n == src@.len(),
                i <= n,
                chars@ == src@.take(i as int),
            decreases n - i,
        {
            chars.push(src.get_char(i));
            i = i + 1;
            assert(chars@ =~= src@.take(i as int));
        }
        assert(chars@ =~= src@);
        assert(chars@.take(0) =~= Seq::<char>::empty());
        Lexer { chars: chars, pos: 0, line: 1, column: 1 }
    }

    /// The line and column of the next character to read.
    pub fn position(&self) -> (r: (usize, usize))
        requires
            self.wf(),
        ensures
            (r.0 as nat, r.1 as nat) == position_at(self.text(), self.offset()),
    {
        (self.line, self.column)
    }

    /// The next character, without reading it.
    fn lookahead(&self) -> (r: Option<char>)
        requires
            self.wf(),
        ensures
            r == (if self.offset() < self.text().len() {
                Some(self.text()[self.offset()])
            } else {
                None::<char>
            }),
    {
        if self.pos < self.chars.len() {
            Some(self.chars[self.pos])
        } else {
            None
        }
    }

    /// Moves past the next character `c`, keeping line and column.
    fn advance(&mut self, c: char)
        requires
            old(self).wf(),
            old(self).offset() < old(self).text().len(),
            c == old(self).text()[old(self).offset()],
        ensures
            final(self).wf(),
            final(self).text() == old(self).text(),
            final(self).offset() == old(self).offset() + 1,
    {
        let ghost s = self.chars@;
        let ghost p = self.pos as int;
        proof {
            assert(s.take(p + 1).drop_last() =~= s.take(p));
            lemma_line_col_bounds(s.take(p));
        }
        if c == '\n' {
            self.line = self.line + 1;
            self.column = 1;
        } else {
            self.column = self.column + 1;
        }
        self.pos = self.pos + 1;
    }

    /// Reads the next character, if any.
    fn consume(&mut self) -> (r: Option<char>)
        requires
            old(self).wf(),
        ensures
            final(self).wf(),
            final(self).text() == old(self).text(),
            old(self).offset() < old(self).text().len() ==> r == Some(
                old(self).text()[old(self).offset()],
            ) && final(self).offset() == old(self).offset() + 1,
            old(self).offset() >= old(self).text().len() ==> r is None && final(self).offset()
                == old(self).offset(),
    {
        match self.lookahead() {
            Some(c) => {
                self.advance(c);
                Some(c)
            },
            None => None,
        }
    }

    /// Reads the run of characters of class `k` that starts at the next character.
    fn read_while(&mut self, k: CharClass) -> (r: Vec<char>)
        requires
            old(self).wf(),
        ensures
            final(self).wf(),
            final(self).text() == old(self).text(),
            final(self).offset() == scan_end(old(self).text(), old(self).offset(), k),
            old(self).offset() <= final(self).offset(),
            r@ == old(self).text().subrange(old(self).offset(), final(self).offset()),
    {
        let ghost s = self.chars@;
        let ghost start = self.pos as int;
        let mut out: Vec<char> = Vec::new();
        let mut done = false;
        while !done
            invariant
                self.wf(),
                self.chars@ == s,
                0 <= start <= self.pos,
                out@ == s.subrange(start, self.pos as int),
                !done ==> scan_end(s, self.pos as int, k) == scan_end(s, start, k),
                done ==> self.pos as int == scan_end(s, start, k),
            decreases s.len() - self.pos + (if done { 0int } else { 1int }),
        {
            match self.lookahead() {
                Some(c) => {
                    if class_contains(k, c) {
                        let ghost p = self.pos as int;
                        proof {
                            lemma_subrange_extend(s, start, p);
                        }
                        self.advance(c);
                        out.push(c);
                        assert(out@ =~= s.subrange(start, self.pos as int));
                    } else {
                        done = true;
                    }
                },
                None => {
                    done = true;
                },
            }
        }
        out
    }

    /// Skips whitespace and `;` comments.
    fn consume_whitespace(&mut self)
        requires
            old(self).wf(),
        ensures
            final(self).wf(),
            final(self).text() == old(self).text(),
            final(self).offset() == skip_atmosphere(old(self).text(), old(self).offset()),
    {
        let ghost s = self.chars@;
        let ghost target = skip_atmosphere(s, self.pos as int);
        let mut done = false;
        while !done
            invariant
                self.wf(),
                self.chars@ == s,
                !done ==> skip_atmosphere(s, self.pos as int) == target,
                done ==> self.pos as int == target,
            decreases s.len() - self.pos + (if done { 0int } else { 1int }),
        {
            let ghost p0 = self.pos as int;
            proof {
                lemma_scan_end_bounds(s, p0, CharClass::Whitespace);
            }
            self.read_while(CharClass::Whitespace);
            let ghost j = self.pos as int;
            if self.lookahead() == Some(';') {
                proof {
                    lemma_scan_end_bounds(s, j + 1, CharClass::NotNewline);
                    assert(scan_end(s, j, CharClass::NotNewline) == scan_end(
                        s,
                        j + 1,
                        CharClass::NotNewline,
                    ));
                }
                self.read_while(CharClass::NotNewline);
            } else {
                done = true;
            }
        }
    }

    /// Whether the token just read is ended by whitespace or the end of input.
    fn is_end_of_token(&self) -> (r: bool)
        requires
            self.wf(),
        ensures
            r == end_of_token(self.text(), self.offset()),
    {
        match self.lookahead() {
            Some(c) => is_whitespace(c),
            None => true,
        }
    }

    /// Reads the rest of an identifier whose first characters are `initial`.
    fn lex_ident(&mut self, initial: Vec<char>) -> (r: Vec<char>)
        requires
            old(self).wf(),
        ensures
            final(self).wf(),
            final(self).text() == old(self).text(),
            final(self).offset() == scan_end(
                old(self).text(),
                old(self).offset(),
                CharClass::Subsequent,
            ),
            r@ == initial@ + old(self).text().subrange(old(self).offset(), final(self).offset()),
    {
        let mut s = initial;
        let mut sub = self.read_while(CharClass::Subsequent);
        s.append(&mut sub);
        s
    }

    /// Reads the name of a character literal, just after `#\`.
    fn lex_char(&mut self) -> (r: Result<Vec<char>, LexError>)
        requires
            old(self).wf(),
        ensures
            final(self).wf(),
            final(self).text() == old(self).text(),
            old(self).offset() <= final(self).offset(),
            old(self).offset() < old(self).text().len() ==> r is Ok && final(self).offset()
                == scan_end(old(self).text(), old(self).offset() + 1, CharClass::Alphanumeric)
                && r->Ok_0@ == old(self).text().subrange(old(self).offset(), final(self).offset()),
            old(self).offset() >= old(self).text().len() ==> r is Err && r->Err_0.kind
                == LexErrorKind::UnexpectedEOF && (r->Err_0.line as nat, r->Err_0.column as nat)
                == position_at(old(self).text(), old(self).offset()),
    {
        let ghost s = self.chars@;
        let ghost p = self.pos as int;
        match self.consume() {
            Some(c) => {
                let mut out: Vec<char> = Vec::new();
                out.push(c);
                let mut sub = self.read_while(CharClass::Alphanumeric);
                out.append(&mut sub);
                proof {
                    lemma_scan_end_bounds(s, p + 1, CharClass::Alphanumeric);
                    assert(out@ =~= s.subrange(p, self.pos as int));
                }
                Ok(out)
            },
            None => Err(self.make_error(LexErrorKind::UnexpectedEOF)),
        }
    }

    /// Reads the rest of a numeric literal whose first digit is `init`.
    fn lex_numeric(&mut self, init: char) -> (r: Vec<char>)
        requires
            old(self).wf(),
        ensures
            final(self).wf(),
            final(self).text() == old(self).text(),
            final(self).offset() == scan_end(old(self).text(), old(self).offset(), CharClass::Digit),
            r@ == seq![init] + old(self).text().subrange(old(self).offset(), final(self).offset()),
    {
        let mut s: Vec<char> = Vec::new();
        s.push(init);
        let mut sub = self.read_while(CharClass::Digit);
        s.append(&mut sub);
        proof {
            assert(seq![init] =~= Seq::<char>::empty().push(init));
        }
        s
    }

    fn make_error(&self, kind: LexErrorKind) -> (r: LexError)
        requires
            self.wf(),
        ensures
            r.kind == kind,
            (r.line as nat, r.column as nat) == position_at(self.text(), self.offset()),
    {
        LexError { line: self.line, column: self.column, kind: kind }
    }

    /// Reads the next token. At the end of input every call gives `EOF`.
    pub fn lex_token(&mut self) -> (r: Result<TokenWrapper, LexError>)
        requires
            old(self).wf(),
        ensures
            final(self).wf(),
            final(self).text() == old(self).text(),
            old(self).offset() <= final(self).offset(),
            match lex_at(old(self).text(), old(self).offset()) {
                Lexed::Token { token, start, end } => r is Ok && r->Ok_0.token@ == token
                    && final(self).offset() == end && (r->Ok_0.line as nat, r->Ok_0.column as nat)
                    == position_at(old(self).text(), start),
                Lexed::Error { at, kind } => r is Err && r->Err_0.kind == kind && (
                r->Err_0.line as nat,
                r->Err_0.column as nat,
                ) == position_at(old(self).text(), at),
            },
    {
        let ghost s = self.chars@;
        let ghost i = self.pos as int;
        proof {
            lemma_skip_atmosphere_bounds(s, i);
        }
        self.consume_whitespace();
        let ghost j = self.pos as int;
        let line = self.line;
        let col = self.column;
        let c = match self.consume() {
            None => {
                return Ok(wrap(line, col, Token::EOF));
            },
            Some(c) => c,
        };
        let end_of_token = self.is_end_of_token();
        if is_initial(c) {
            let mut init: Vec<char> = Vec::new();
            init.push(c);
            let ident = self.lex_ident(init);
            proof {
                lemma_scan_end_bounds(s, j + 1, CharClass::Subsequent);
                assert(ident@ =~= s.subrange(j, self.pos as int));
            }
            Ok(wrap(line, col, Token::Identifier(ident)))
        } else if c == '+' && end_of_token {
            let mut t: Vec<char> = Vec::new();
            t.push('+');
            proof {
                assert(t@ =~= seq!['+']);
            }
            Ok(wrap(line, col, Token::Identifier(t)))
        } else if c == '-' {
            if end_of_token {
                let mut t: Vec<char> = Vec::new();
                t.push('-');
                proof {
                    assert(t@ =~= seq!['-']);
                }
                Ok(wrap(line, col, Token::Identifier(t)))
            } else {
                match self.lookahead() {
                    Some('>') => {
                        let mut init: Vec<char> = Vec::new();
                        init.push('-');
                        let ident = self.lex_ident(init);
                        proof {
                            lemma_scan_end_bounds(s, j + 1, CharClass::Subsequent);
                            assert(ident@ =~= s.subrange(j, self.pos as int));
                        }
                        Ok(wrap(line, col, Token::Identifier(ident)))
                    },
                    Some(c1) => Err(self.make_error(LexErrorKind::InvalidCharacter(c1))),
                    None => {
                        let mut t: Vec<char> = Vec::new();
                        t.push('-');
                        proof {
                            assert(t@ =~= seq!['-']);
                        }
                        Ok(wrap(line, col, Token::Identifier(t)))
                    },
                }
            }
        } else if c == '(' {
            Ok(wrap(line, col, Token::OpenParen))
        } else if c == ')' {
            Ok(wrap(line, col, Token::CloseParen))
        } else if c == '.' && end_of_token {
            Ok(wrap(line, col, Token::Dot))
        } else if c == '#' {
            let c0 = match self.consume() {
                None => {
                    return Err(self.make_error(LexErrorKind::UnexpectedEOF));
                },
                Some(x) => x,
            };
            if c0 == 't' || c0 == 'T' {
                Ok(wrap(line, col, Token::True))
            } else if c0 == 'f' || c0 == 'F' {
                Ok(wrap(line, col, Token::False))
            } else if c0 == '\\' {
                match self.lex_char() {
                    Ok(name) => Ok(wrap(line, col, Token::Character(name))),
                    Err(e) => Err(e),
                }
            } else {
                Err(self.make_error(LexErrorKind::InvalidCharacter(c0)))
            }
        } else if is_digit(c) {
            let digits = self.lex_numeric(c);
            proof {
                lemma_scan_end_bounds(s, j + 1, CharClass::Digit);
                assert(digits@ =~= s.subrange(j, self.pos as int));
            }
            Ok(wrap(line, col, Token::Numeric(digits)))
        } else {
            Err(self.make_error(LexErrorKind::InvalidCharacter(c)))
        }
    }
}

} // verus!
