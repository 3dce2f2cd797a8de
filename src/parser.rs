use vstd::prelude::*;
use crate::lexer::{
    Lexer, LexError, LexErrorKind, Lexed, Token, TokenModel, lex_at, lemma_lex_at_bounds,
    position_at,
};

verus! {

/// A parsed symbolic value.
#[derive(Debug, PartialEq)]
pub enum Datum {
    Boolean(bool),
    Character(Vec<char>),
    /// a number, kept as its digits
    Number(Vec<char>),
    Symbol(Vec<char>),
    Pair(Box<Datum>, Box<Datum>),
    EmptyList,
}

/// A datum with its texts as sequences.
pub enum DatumModel {
    Boolean(bool),
    Character(Seq<char>),
    Number(Seq<char>),
    Symbol(Seq<char>),
    Pair(Box<DatumModel>, Box<DatumModel>),
    EmptyList,
}

pub open spec fn datum_model(d: Datum) -> DatumModel
    decreases d,
{
    match d {
        Datum::Boolean(b) => DatumModel::Boolean(b),
        Datum::Character(t) => DatumModel::Character(t@),
        Datum::Number(t) => DatumModel::Number(t@),
        Datum::Symbol(t) => DatumModel::Symbol(t@),
        Datum::Pair(h, t) => DatumModel::Pair(
            Box::new(datum_model(*h)),
            Box::new(datum_model(*t)),
        ),
        Datum::EmptyList => DatumModel::EmptyList,
    }
}

impl View for Datum {
    type V = DatumModel;

    open spec fn view(&self) -> DatumModel {
        datum_model(*self)
    }
}

pub(crate) fn equal_chars(a: &Vec<char>, b: &Vec<char>) -> (r: bool)
    ensures
        r == (a@ == b@),
{
    if a.len() != b.len() {
        return false;
    }
    let mut i: usize = 0;
    while i < a.len()
        invariant
            a@.len() == b@.len(),
            i <= a@.len(),
            a@.take(i as int) == b@.take(i as int),
        decreases a@.len() - i,
    {
        if a[i] != b[i] {
            assert(a@[i as int] != b@[i as int]);
            return false;
        }
        assert(a@.take(i + 1) =~= a@.take(i as int).push(a@[i as int]));
        assert(b@.take(i + 1) =~= b@.take(i as int).push(b@[i as int]));
        i = i + 1;
    }
    assert(a@ =~= a@.take(i as int));
    assert(b@ =~= b@.take(i as int));
    true
}

pub(crate) fn copy_chars(v: &Vec<char>) -> (r: Vec<char>)
    ensures
        r@ == v@,
{
    let mut out: Vec<char> = Vec::new();
    let mut i: usize = 0;
    while i < v.len()
        invariant
            i <= v@.len(),
            out@ == v@.take(i as int),
        decreases v@.len() - i,
    {
        out.push(v[i]);
        i = i + 1;
        assert(out@ =~= v@.take(i as int));
    }
    assert(out@ =~= v@);
    out
}

/// Structural equality: same variant and, recursively, equal contents.
pub fn equals(a: &Datum, b: &Datum) -> (r: bool)
    ensures
        r == (a@ == b@),
    decreases a,
{
    match (a, b) {
        (Datum::Boolean(x), Datum::Boolean(y)) => *x == *y,
        (Datum::Character(x), Datum::Character(y)) => equal_chars(x, y),
        (Datum::Number(x), Datum::Number(y)) => equal_chars(x, y),
        (Datum::Symbol(x), Datum::Symbol(y)) => equal_chars(x, y),
        (Datum::Pair(h1, t1), Datum::Pair(h2, t2)) => equals(h1, h2) && equals(t1, t2),
        (Datum::EmptyList, Datum::EmptyList) => true,
        _ => false,
    }
}


/// Where and why parsing failed, by index into the input.
pub enum Fault {
    Lex { at: int, kind: LexErrorKind },
    Unexpected { at: int },
    EndOfInput { at: int },
}

/// The outcome of parsing one datum from an index of the input.
pub enum Parsed {
    Datum { datum: DatumModel, end: int },
    Failed { fault: Fault },
}

/// The datum that an atom token stands for.
pub open spec fn atom_of(t: TokenModel) -> DatumModel {
    match t {
        TokenModel::Identifier(x) => DatumModel::Symbol(x),
        TokenModel::True => DatumModel::Boolean(true),
        TokenModel::False => DatumModel::Boolean(false),
        TokenModel::Character(x) => DatumModel::Character(x),
        TokenModel::Numeric(x) => DatumModel::Number(x),
        _ => DatumModel::EmptyList,
    }
}

pub open spec fn is_atom(t: TokenModel) -> bool {
    t is Identifier || t is True || t is False || t is Character || t is Numeric
}

/// What parsing one datum from index `i` of `s` gives.
pub open spec fn parse_at(s: Seq<char>, i: int) -> Parsed
    decreases s.len() - i,
{
    match lex_at(s, i) {
        Lexed::Error { at, kind } => Parsed::Failed { fault: Fault::Lex { at, kind } },
        Lexed::Token { token, start, end } => {
            if token is EOF {
                Parsed::Failed { fault: Fault::EndOfInput { at: start } }
            } else if token is OpenParen {
                if i < end <= s.len() {
                    list_rest_at(s, end)
                } else {
                    Parsed::Failed { fault: Fault::Unexpected { at: start } }
                }
            } else if is_atom(token) {
                Parsed::Datum { datum: atom_of(token), end }
            } else {
                Parsed::Failed { fault: Fault::Unexpected { at: start } }
            }
        },
    }
}

/// What parsing the rest of a list from index `i` of `s` gives, just after
/// its `(` or one of its elements.
pub open spec fn list_rest_at(s: Seq<char>, i: int) -> Parsed
    decreases s.len() - i,
{
    match lex_at(s, i) {
        Lexed::Error { at, kind } => Parsed::Failed { fault: Fault::Lex { at, kind } },
        Lexed::Token { token, start, end } => {
            if token is EOF || !(i < end <= s.len()) {
                Parsed::Failed { fault: Fault::EndOfInput { at: start } }
            } else if token is CloseParen {
                Parsed::Datum { datum: DatumModel::EmptyList, end }
            } else if token is Dot {
                match parse_at(s, end) {
                    Parsed::Failed { fault } => Parsed::Failed { fault },
                    Parsed::Datum { datum, end: e2 } => match lex_at(s, e2) {
                        Lexed::Error { at, kind } => Parsed::Failed {
                            fault: Fault::Lex { at, kind },
                        },
                        Lexed::Token { token: t2, start: s2, end: e3 } => {
                            if t2 is CloseParen {
                                Parsed::Datum { datum, end: e3 }
                            } else if t2 is EOF {
                                Parsed::Failed { fault: Fault::EndOfInput { at: s2 } }
                            } else {
                                Parsed::Failed { fault: Fault::Unexpected { at: s2 } }
                            }
                        },
                    },
                }
            } else {
                let head = if token is OpenParen {
                    list_rest_at(s, end)
                } else {
                    Parsed::Datum { datum: atom_of(token), end }
                };
                match head {
                    Parsed::Failed { fault } => Parsed::Failed { fault },
                    Parsed::Datum { datum, end: e2 } => {
                        if i < e2 <= s.len() {
                            match list_rest_at(s, e2) {
                                Parsed::Failed { fault } => Parsed::Failed { fault },
                                Parsed::Datum { datum: rest, end: e3 } => Parsed::Datum {
                                    datum: DatumModel::Pair(Box::new(datum), Box::new(rest)),
                                    end: e3,
                                },
                            }
                        } else {
                            Parsed::Failed { fault: Fault::EndOfInput { at: start } }
                        }
                    },
                }
            }
        },
    }
}

/// A parsing failure.
#[derive(Debug, PartialEq, Eq, Clone, Copy)]
pub enum ParseError {
    /// the characters did not form a token
    Lex(LexError),
    /// a `)` or `.` where a datum was required, or a token other than `)`
    /// after the datum that follows a `.`
    UnexpectedToken { line: usize, column: usize },
    /// the input ended where a datum or a `)` was required
    UnexpectedEOF { line: usize, column: usize },
}

/// Whether `e` reports `f` for input `s`, with the line and column of the index.
pub open spec fn reports(e: ParseError, s: Seq<char>, f: Fault) -> bool {
    match f {
        Fault::Lex { at, kind } => e is Lex && e->Lex_0.kind == kind && (
        e->Lex_0.line as nat,
        e->Lex_0.column as nat,
        ) == position_at(s, at),
        Fault::Unexpected { at } => e is UnexpectedToken && (
        e->UnexpectedToken_line as nat,
        e->UnexpectedToken_column as nat,
        ) == position_at(s, at),
        Fault::EndOfInput { at } => e is UnexpectedEOF && (
        e->UnexpectedEOF_line as nat,
        e->UnexpectedEOF_column as nat,
        ) == position_at(s, at),
    }
}

/// Whether the exec result `r`, with the parser left at offset `end`, is what
/// the model `p` gives.
pub open spec fn agrees(r: Result<Datum, ParseError>, end: int, s: Seq<char>, p: Parsed) -> bool {
    match p {
        Parsed::Datum { datum, end: e } => r is Ok && r->Ok_0@ == datum && end == e,
        Parsed::Failed { fault } => r is Err && reports(r->Err_0, s, fault),
    }
}

fn atom_datum(t: Token) -> (r: Datum)
    requires
        is_atom(t@),
    ensures
        r@ == atom_of(t@),
{
    match t {
        Token::Identifier(x) => Datum::Symbol(x),
        Token::True => Datum::Boolean(true),
        Token::False => Datum::Boolean(false),
        Token::Character(x) => Datum::Character(x),
        Token::Numeric(x) => Datum::Number(x),
        _ => Datum::EmptyList,
    }
}

/// Reads data from a character stream, one token ahead.
pub struct Parser {
    lexer: Lexer,
}

impl Parser {
    pub closed spec fn text(&self) -> Seq<char> {
        self.lexer.text()
    }

    pub closed spec fn offset(&self) -> int {
        self.lexer.offset()
    }

    pub closed spec fn wf(&self) -> bool {
        self.lexer.wf()
    }

    /// Creates a parser at the start of `src`.
    pub fn new(src: &str) -> (r: Parser)
        requires
            src@.len() < usize::MAX,
        ensures
            r.wf(),
            r.text() == src@,
            r.offset() == 0,
    {
        Parser { lexer: Lexer::new(src) }
    }

    /// Parses the next datum.
    pub fn parse_datum(&mut self) -> (r: Result<Datum, ParseError>)
        requires
            old(self).wf(),
        ensures
            final(self).wf(),
            final(self).text() == old(self).text(),
            old(self).offset() <= final(self).offset(),
            agrees(r, final(self).offset(), old(self).text(), parse_at(old(self).text(), old(self).offset())),
        decreases old(self).text().len() - old(self).offset(), 1int,
    {
        let ghost s = self.text();
        let ghost i = self.offset();
        proof {
            self.lexer.lemma_offset_bounds();
            lemma_lex_at_bounds(s, i);
        }
        let tw = match self.lexer.lex_token() {
            Ok(t) => t,
            Err(e) => {
                return Err(ParseError::Lex(e));
            },
        };
        match tw.token {
            Token::EOF => Err(ParseError::UnexpectedEOF { line: tw.line, column: tw.column }),
            Token::OpenParen => self.parse_list_rest(),
            Token::CloseParen => Err(
                ParseError::UnexpectedToken { line: tw.line, column: tw.column },
            ),
            Token::Dot => Err(ParseError::UnexpectedToken { line: tw.line, column: tw.column }),
            t => Ok(atom_datum(t)),
        }
    }

    /// Parses the rest of a list, just after its `(` or one of its elements.
    fn parse_list_rest(&mut self) -> (r: Result<Datum, ParseError>)
        requires
            old(self).wf(),
        ensures
            final(self).wf(),
            final(self).text() == old(self).text(),
            old(self).offset() <= final(self).offset(),
            agrees(r, final(self).offset(), old(self).text(), list_rest_at(old(self).text(), old(self).offset())),
        decreases old(self).text().len() - old(self).offset(), 0int,
    {
        let ghost s = self.text();
        let ghost i = self.offset();
        proof {
            self.lexer.lemma_offset_bounds();
            lemma_lex_at_bounds(s, i);
        }
        let tw = match self.lexer.lex_token() {
            Ok(t) => t,
            Err(e) => {
                return Err(ParseError::Lex(e));
            },
        };
        match tw.token {
            Token::EOF => Err(ParseError::UnexpectedEOF { line: tw.line, column: tw.column }),
            Token::CloseParen => Ok(Datum::EmptyList),
            Token::Dot => {
                let d = match self.parse_datum() {
                    Ok(d) => d,
                    Err(e) => {
                        return Err(e);
                    },
                };
                proof {
                    self.lexer.lemma_offset_bounds();
                    lemma_lex_at_bounds(s, self.offset());
                }
                let closing = match self.lexer.lex_token() {
                    Ok(t) => t,
                    Err(e) => {
                        return Err(ParseError::Lex(e));
                    },
                };
                match closing.token {
                    Token::CloseParen => Ok(d),
                    Token::EOF => Err(
                        ParseError::UnexpectedEOF { line: closing.line, column: closing.column },
                    ),
                    _ => Err(
                        ParseError::UnexpectedToken { line: closing.line, column: closing.column },
                    ),
                }
            },
            t => {
                let head = match t {
                    Token::OpenParen => match self.parse_list_rest() {
                        Ok(d) => d,
                        Err(e) => {
                            return Err(e);
                        },
                    },
                    a => atom_datum(a),
                };
                proof {
                    self.lexer.lemma_offset_bounds();
                }
                let rest = match self.parse_list_rest() {
                    Ok(d) => d,
                    Err(e) => {
                        return Err(e);
                    },
                };
                Ok(Datum::Pair(Box::new(head), Box::new(rest)))
            },
        }
    }
}

/// Structural equality, as `equals` decides it, is reflexive and symmetric;
/// and two parses of the same text give equal data.
pub proof fn lemma_equality_of_parsed_data(a: DatumModel, b: DatumModel, s1: Seq<char>, s2: Seq<char>)
    requires
        s1 == s2,
    ensures
        a == a,
        a == b ==> b == a,
        parse_at(s1, 0) == parse_at(s2, 0),
{
}

} // verus!
