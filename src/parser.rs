use crate::error::{parse_error_view, ParseError, ParseFault};
use crate::math::FloatArithmetic;
use crate::reader::{chars_of, lex, radix_literal, read_integer, shapes, string_from, token_shape, Tok, Token, TokenStream};
use crate::value::{lemma_values_view, value_view, values_view, Keyword, Num, Numeric, Val, Value};
use vstd::prelude::*;

verus! {

/// The base that a `#` prefix letter names.
pub open spec fn radix_of(c: char) -> Option<u32> {
    if c == 'b' {
        Some(2)
    } else if c == 'o' {
        Some(8)
    } else if c == 'd' {
        Some(10)
    } else if c == 'x' {
        Some(16)
    } else {
        None
    }
}

/// What a token other than a parenthesis or a quote reads as.
pub open spec fn atom_of(t: Token) -> Result<Val, ParseFault> {
    match t {
        Token::Integer(i) => Ok(Val::Numeric(Num::Int(i@))),
        Token::Float(b) => Ok(Val::Numeric(Num::Float(b))),
        Token::String(s) => Ok(Val::String(s@)),
        Token::Symbol(s) => symbol_atom(s@),
        _ => Err(ParseFault::NonConvertibleToken(token_shape(t))),
    }
}

/// What a symbol token reads as: a boolean, a `#b`/`#o`/`#d`/`#x` integer,
/// a keyword, or a symbol.
pub open spec fn symbol_atom(w: Seq<char>) -> Result<Val, ParseFault> {
    if w == "#t"@ {
        Ok(Val::Bool(true))
    } else if w == "#f"@ {
        Ok(Val::Bool(false))
    } else if w.len() >= 1 && w[0] == '#' {
        if w.len() < 2 || radix_of(w[1]) is None {
            Err(ParseFault::InvalidSyntax(Tok::Symbol(w)))
        } else {
            let d = w.subrange(2, w.len() as int);
            match radix_literal(d, radix_of(w[1])->0) {
                Some(v) => Ok(Val::Numeric(Num::Int(v))),
                None => Err(ParseFault::InvalidDigit(d)),
            }
        }
    } else if w == "define"@ {
        Ok(Val::Keyword(Keyword::Define))
    } else if w == "lambda"@ {
        Ok(Val::Keyword(Keyword::Lambda))
    } else if w == "if"@ {
        Ok(Val::Keyword(Keyword::If))
    } else {
        Ok(Val::Symbol(w))
    }
}

/// The expression that starts at `ts[pos]`, and the index after it.
pub open spec fn parse_atom(ts: Seq<Token>, pos: int) -> Result<(Val, int), ParseFault>
    decreases ts.len() - pos, 0nat,
{
    if !(0 <= pos < ts.len()) {
        Err(ParseFault::UnexpectedEOF)
    } else {
        match ts[pos] {
            Token::LParen => parse_items(ts, pos + 1, Seq::empty()),
            Token::RParen => Err(ParseFault::InvalidSyntax(Tok::RParen)),
            Token::Quote => match parse_atom(ts, pos + 1) {
                Ok((v, j)) => Ok((Val::Quoted(Box::new(v)), j)),
                Err(e) => Err(e),
            },
            t => match atom_of(t) {
                Ok(v) => Ok((v, pos + 1)),
                Err(e) => Err(e),
            },
        }
    }
}

/// The rest of a list from `ts[pos]`, with `acc` read so far.
pub open spec fn parse_items(ts: Seq<Token>, pos: int, acc: Seq<Val>) -> Result<(Val, int), ParseFault>
    decreases ts.len() - pos, 1nat,
{
    if !(0 <= pos < ts.len()) {
        Err(ParseFault::MissingToken(Tok::RParen))
    } else if ts[pos] is RParen {
        Ok((Val::List(acc), pos + 1))
    } else {
        match parse_atom(ts, pos) {
            Err(e) => Err(e),
            Ok((v, j)) => if pos < j <= ts.len() {
                parse_items(ts, j, acc.push(v))
            } else {
                Err(ParseFault::UnexpectedEOF)
            },
        }
    }
}

/// The expressions from `ts[pos]` to the end, after `acc`.
pub open spec fn parse_all(ts: Seq<Token>, pos: int, acc: Seq<Val>) -> Result<Seq<Val>, ParseFault>
    decreases ts.len() - pos,
{
    if !(0 <= pos < ts.len()) {
        Ok(acc)
    } else {
        match parse_atom(ts, pos) {
            Err(e) => Err(e),
            Ok((v, j)) => if pos < j <= ts.len() {
                parse_all(ts, j, acc.push(v))
            } else {
                Err(ParseFault::UnexpectedEOF)
            },
        }
    }
}

/// Whether `w` holds exactly the characters of `lit`.
fn is_word(w: &Vec<char>, lit: &str) -> (r: bool)
    ensures
        r == (w@ == lit@),
{
    let l = chars_of(lit);
    if w.len() != l.len() {
        return false;
    }
    let mut i: usize = 0;
    while i < w.len()
        invariant
            i <= w.len(),
            w@.len() == l@.len(),
            l@ == lit@,
            forall|k: int| 0 <= k < i ==> w@[k] == l@[k],
        decreases w.len() - i,
    {
        if w[i] != l[i] {
            return false;
        }
        i = i + 1;
    }
    assert(w@ =~= l@);
    true
}

/// The characters `w[from..]`.
fn chars_from(w: &Vec<char>, from: usize) -> (r: Vec<char>)
    requires
        from <= w.len(),
    ensures
        r@ == w@.subrange(from as int, w@.len() as int),
{
    let mut out: Vec<char> = Vec::new();
    let mut i = from;
    while i < w.len()
        invariant
            from <= i <= w.len(),
            out@ == w@.subrange(from as int, i as int),
        decreases w.len() - i,
    {
        out.push(w[i]);
        i = i + 1;
        assert(out@ =~= w@.subrange(from as int, i as int));
    }
    out
}

/// What a symbol token reads as.
fn symbol_value(s: &String) -> (r: Result<Value, ParseError>)
    ensures
        match symbol_atom(s@) {
            Ok(v) => r matches Ok(x) && x@ == v,
            Err(e) => r matches Err(x) && parse_error_view(x) == e,
        },
{
    let w = chars_of(s.as_str());
    if is_word(&w, "#t") {
        return Ok(Value::Bool(true));
    }
    if is_word(&w, "#f") {
        return Ok(Value::Bool(false));
    }
    if w.len() >= 1 && w[0] == '#' {
        if w.len() < 2 {
            return Err(ParseError::InvalidSyntax(Token::Symbol(string_from(&w))));
        }
        let r: u32 = if w[1] == 'b' {
            2
        } else if w[1] == 'o' {
            8
        } else if w[1] == 'd' {
            10
        } else if w[1] == 'x' {
            16
        } else {
            return Err(ParseError::InvalidSyntax(Token::Symbol(string_from(&w))));
        };
        return match read_integer(&w, 2, r) {
            Some(v) => Ok(Value::Numeric(Numeric::Integer(v))),
            None => Err(ParseError::InvalidDigit(string_from(&chars_from(&w, 2)))),
        };
    }
    if is_word(&w, "define") {
        return Ok(Value::Keyword(Keyword::Define));
    }
    if is_word(&w, "lambda") {
        return Ok(Value::Keyword(Keyword::Lambda));
    }
    if is_word(&w, "if") {
        return Ok(Value::Keyword(Keyword::If));
    }
    Ok(Value::Symbol(string_from(&w)))
}

/// The expression that starts at `ts[pos]`, and the index after it.
fn parse_expr(ts: &Vec<Token>, pos: usize) -> (r: Result<(Value, usize), ParseError>)
    ensures
        match parse_atom(ts@, pos as int) {
            Ok((v, j)) => r matches Ok((x, k)) && x@ == v && k == j,
            Err(e) => r matches Err(x) && parse_error_view(x) == e,
        },
    decreases ts.len() - pos, 0nat,
{
    if pos >= ts.len() {
        return Err(ParseError::UnexpectedEOF);
    }
    match &ts[pos] {
        Token::LParen => parse_list(ts, pos + 1),
        Token::RParen => Err(ParseError::InvalidSyntax(Token::RParen)),
        Token::Quote => match parse_expr(ts, pos + 1) {
            Ok((v, j)) => Ok((Value::Quoted(Box::new(v)), j)),
            Err(e) => Err(e),
        },
        Token::Integer(i) => Ok((Value::Numeric(Numeric::Integer(i.copy())), pos + 1)),
        Token::Float(b) => Ok((Value::Numeric(Numeric::Float(*b)), pos + 1)),
        Token::String(s) => Ok((Value::String(crate::value::copy_string(s)), pos + 1)),
        Token::Symbol(s) => match symbol_value(s) {
            Ok(v) => Ok((v, pos + 1)),
            Err(e) => Err(e),
        },
    }
}

proof fn lemma_values_push(vs: Seq<Value>, v: Value)
    ensures
        values_view(vs.push(v)) == values_view(vs).push(value_view(v)),
{
    lemma_values_view(vs);
    lemma_values_view(vs.push(v));
    assert(values_view(vs.push(v)) =~= values_view(vs).push(value_view(v)));
}

/// The rest of a list whose opening parenthesis precedes `ts[pos]`.
fn parse_list(ts: &Vec<Token>, pos: usize) -> (r: Result<(Value, usize), ParseError>)
    ensures
        match parse_items(ts@, pos as int, Seq::empty()) {
            Ok((v, j)) => r matches Ok((x, k)) && x@ == v && k == j,
            Err(e) => r matches Err(x) && parse_error_view(x) == e,
        },
    decreases ts.len() - pos, 1nat,
{
    let mut acc: Vec<Value> = Vec::new();
    let mut cur = pos;
    proof {
        lemma_values_view(acc@);
        assert(values_view(acc@) =~= Seq::<Val>::empty());
    }
    loop
        invariant
            pos <= cur,
            parse_items(ts@, pos as int, Seq::empty()) == parse_items(ts@, cur as int, values_view(acc@)),
        decreases ts.len() - cur,
    {
        if cur >= ts.len() {
            return Err(ParseError::MissingToken(Token::RParen));
        }
        if let Token::RParen = &ts[cur] {
            return Ok((Value::List(acc), cur + 1));
        }
        match parse_expr(ts, cur) {
            Ok((v, j)) => {
                if cur < j && j <= ts.len() {
                    proof { lemma_values_push(acc@, v); }
                    acc.push(v);
                    cur = j;
                } else {
                    return Err(ParseError::UnexpectedEOF);
                }
            },
            Err(e) => {
                return Err(e);
            },
        }
    }
}

/// A parser over the tokens of one program text.
pub struct Parser {
    pub tokens: Vec<Token>,
}

impl Parser {
    pub fn new(tokens: Vec<Token>) -> (r: Parser)
        ensures
            r.tokens == tokens,
    {
        Parser { tokens }
    }

    /// The expressions of the program, in order, or the first failure.
    pub fn parse(&self) -> (r: Result<Vec<Value>, ParseError>)
        ensures
            match parse_all(self.tokens@, 0, Seq::empty()) {
                Ok(vs) => r matches Ok(x) && values_view(x@) == vs,
                Err(e) => r matches Err(x) && parse_error_view(x) == e,
            },
    {
        let ts = &self.tokens;
        let mut acc: Vec<Value> = Vec::new();
        let mut cur: usize = 0;
        proof {
            lemma_values_view(acc@);
            assert(values_view(acc@) =~= Seq::<Val>::empty());
        }
        while cur < ts.len()
            invariant
                ts@ == self.tokens@,
                cur <= ts.len(),
                parse_all(ts@, 0, Seq::empty()) == parse_all(ts@, cur as int, values_view(acc@)),
            decreases ts.len() - cur,
        {
            match parse_expr(ts, cur) {
                Ok((v, j)) => {
                    if cur < j && j <= ts.len() {
                        proof { lemma_values_push(acc@, v); }
                        acc.push(v);
                        cur = j;
                    } else {
                        return Err(ParseError::UnexpectedEOF);
                    }
                },
                Err(e) => {
                    return Err(e);
                },
            }
        }
        Ok(acc)
    }
}

/// What reading a text gives, for the tokens `ts` it splits into.
pub open spec fn read_outcome(ts: Seq<Token>, r: Result<Vec<Value>, ParseError>) -> bool {
    match parse_all(ts, 0, Seq::empty()) {
        Ok(vs) => r matches Ok(x) && values_view(x@) == vs,
        Err(e) => r matches Err(x) && parse_error_view(x) == e,
    }
}

/// Reads the expressions of a program text: tokenizes it, then parses the
/// tokens. Float literals get their bits from the host.
pub fn read<F: FloatArithmetic>(text: &str, floats: &F) -> (r: Result<Vec<Value>, ParseError>)
    ensures
        match lex(text@) {
            Err(e) => r matches Err(x) && parse_error_view(x) == ParseFault::LexicalError(e),
            Ok(toks) => exists|ts: Seq<Token>| shapes(ts) == toks && #[trigger] read_outcome(ts, r),
        },
{
    let stream = TokenStream::new(text);
    match stream.tokenize(floats) {
        Err(e) => Err(ParseError::LexicalError(e)),
        Ok(tokens) => {
            let ghost ts = tokens@;
            let parser = Parser::new(tokens);
            let r = parser.parse();
            assert(read_outcome(ts, r));
            r
        },
    }
}

} // verus!
