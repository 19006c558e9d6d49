use crate::error::{lex_error_view, LexFault, TokenizeError};
use crate::integer::Integer;
use crate::math::FloatArithmetic;
use vstd::prelude::*;
use vstd::std_specs::iter::IteratorSpec;

verus! {

/// Relies on `String::push`: appends one character.
#[verifier::external_body]
pub(crate) fn push_char(s: &mut String, c: char)
    ensures
        final(s)@ == old(s)@.push(c),
{
    s.push(c)
}

/// The characters of `s`, in order.
pub fn chars_of(s: &str) -> (r: Vec<char>)
    ensures
        r@ == s@,
{
    proof {
        broadcast use vstd::string::axiom_spec_iter;
    }
    let mut it = s.chars();
    let mut out: Vec<char> = Vec::new();
    loop
        invariant
            it.obeys_prophetic_iter_laws(),
            out@ + it.remaining() == s@,
        decreases s@.len() - out@.len(),
    {
        let ghost before = it;
        let next = it.next();
        proof {
            broadcast use vstd::string::next_postcondition;
        }
        match next {
            Some(c) => {
                out.push(c);
                proof {
                    assert(out@ + it.remaining() =~= s@);
                }
            },
            None => {
                assert(out@ =~= s@);
                return out;
            },
        }
    }
}

/// The tokens of program text.
#[derive(Debug, Clone, PartialEq)]
pub enum Token {
    LParen,
    RParen,
    Symbol(String),
    Integer(Integer),
    Float(u64),
    String(String),
    Quote,
}

/// What the tokenizer decides of a token: a float's bits are the host's.
pub enum Tok {
    LParen,
    RParen,
    Symbol(Seq<char>),
    Integer(int),
    Float,
    Str(Seq<char>),
    Quote,
}

pub open spec fn token_shape(t: Token) -> Tok {
    match t {
        Token::LParen => Tok::LParen,
        Token::RParen => Tok::RParen,
        Token::Symbol(s) => Tok::Symbol(s@),
        Token::Integer(i) => Tok::Integer(i@),
        Token::Float(_) => Tok::Float,
        Token::String(s) => Tok::Str(s@),
        Token::Quote => Tok::Quote,
    }
}

pub open spec fn shapes(ts: Seq<Token>) -> Seq<Tok> {
    ts.map_values(|t: Token| token_shape(t))
}

pub open spec fn is_digit(c: char) -> bool {
    '0' <= c <= '9'
}

/// The value of one digit in base `r`, if it is one.
pub open spec fn digit_in(c: char, r: u32) -> Option<int> {
    let v = if '0' <= c <= '9' {
        c as int - '0' as int
    } else if 'a' <= c <= 'z' {
        c as int - 'a' as int + 10
    } else if 'A' <= c <= 'Z' {
        c as int - 'A' as int + 10
    } else {
        r as int
    };
    if v < r {
        Some(v)
    } else {
        None
    }
}

/// Digits in base `r`, with underscores allowed after the first digit.
pub open spec fn radix_digits(u: Seq<char>, r: u32) -> bool {
    &&& u.len() >= 1
    &&& digit_in(u[0], r) is Some
    &&& forall|i: int| 0 <= i < u.len() ==> digit_in(#[trigger] u[i], r) is Some || u[i] == '_'
}

/// The value of base-`r` digits; underscores are skipped.
pub open spec fn radix_value(u: Seq<char>, r: u32) -> int
    decreases u.len(),
{
    if u.len() == 0 {
        0
    } else {
        match digit_in(u.last(), r) {
            Some(d) => radix_value(u.drop_last(), r) * r + d,
            None => radix_value(u.drop_last(), r),
        }
    }
}

pub open spec fn has_sign(w: Seq<char>) -> bool {
    w.len() > 0 && (w[0] == '+' || w[0] == '-')
}

/// `w` without a leading sign.
pub open spec fn unsigned(w: Seq<char>) -> Seq<char> {
    if has_sign(w) {
        w.drop_first()
    } else {
        w
    }
}

/// The value of an integer literal in base `r`: an optional sign, then
/// digits, with underscores after the first digit.
pub open spec fn radix_literal(w: Seq<char>, r: u32) -> Option<int> {
    let u = unsigned(w);
    if radix_digits(u, r) {
        Some(if has_sign(w) && w[0] == '-' {
            -radix_value(u, r)
        } else {
            radix_value(u, r)
        })
    } else {
        None
    }
}

/// The value of a decimal integer literal.
pub open spec fn integer_literal(w: Seq<char>) -> Option<int> {
    radix_literal(w, 10)
}

/// The number of dots in `s`.
pub open spec fn dots(s: Seq<char>) -> nat
    decreases s.len(),
{
    if s.len() == 0 {
        0
    } else {
        dots(s.drop_last()) + if s.last() == '.' {
            1nat
        } else {
            0nat
        }
    }
}

/// A float literal: an optional sign, then digits with one dot among them,
/// and at least one digit.
pub open spec fn float_literal(w: Seq<char>) -> bool {
    let u = unsigned(w);
    &&& u.len() >= 2
    &&& dots(u) == 1
    &&& forall|i: int| 0 <= i < u.len() ==> is_digit(#[trigger] u[i]) || u[i] == '.'
}

/// The token that a word stands for.
pub open spec fn classify(w: Seq<char>) -> Tok {
    match integer_literal(w) {
        Some(v) => Tok::Integer(v),
        None => if float_literal(w) {
            Tok::Float
        } else {
            Tok::Symbol(w)
        },
    }
}

/// Ends the word read so far.
pub open spec fn flush(word: Seq<char>, acc: Seq<Tok>) -> Seq<Tok> {
    if word.len() == 0 {
        acc
    } else {
        acc.push(classify(word))
    }
}

pub open spec fn forbidden(c: char) -> bool {
    c == '\\' || c == '{' || c == '}' || c == ',' || c == '`' || c == '|'
}

/// The character that `\c` stands for inside a string.
pub open spec fn unescape(c: char) -> char {
    if c == 'n' {
        '\n'
    } else {
        c
    }
}

/// The rest of a string literal from `cs[i]`: its content and the index
/// after the closing quote.
pub open spec fn string_end(cs: Seq<char>, i: int, escaped: bool, content: Seq<char>) -> Option<(Seq<char>, int)>
    decreases cs.len() - i,
{
    if !(0 <= i < cs.len()) {
        None
    } else if escaped {
        string_end(cs, i + 1, false, content.push(unescape(cs[i])))
    } else if cs[i] == '\\' {
        string_end(cs, i + 1, true, content)
    } else if cs[i] == '"' {
        Some((content, i + 1))
    } else {
        string_end(cs, i + 1, false, content.push(cs[i]))
    }
}

/// The index after the end of the line that holds `cs[i]`.
pub open spec fn line_end(cs: Seq<char>, i: int) -> int
    decreases cs.len() - i,
{
    if !(0 <= i < cs.len()) {
        cs.len() as int
    } else if cs[i] == '\n' {
        i + 1
    } else {
        line_end(cs, i + 1)
    }
}

/// Tokenizing `cs` from `i`, with `word` read so far and `acc` emitted.
pub open spec fn lex_from(cs: Seq<char>, i: int, word: Seq<char>, acc: Seq<Tok>) -> Result<Seq<Tok>, LexFault>
    decreases cs.len() - i,
{
    if !(0 <= i < cs.len()) {
        Ok(flush(word, acc))
    } else {
        let c = cs[i];
        if c == '(' || c == '[' || c == ')' || c == ']' || c == ' ' || c == '\n' || c == '\t' {
            let a = flush(word, acc);
            lex_from(cs, i + 1, Seq::empty(), if c == '(' || c == '[' {
                a.push(Tok::LParen)
            } else if c == ')' || c == ']' {
                a.push(Tok::RParen)
            } else {
                a
            })
        } else if c == '"' {
            if word.len() > 0 {
                Err(LexFault::UnexpectedChar('"'))
            } else {
                match string_end(cs, i + 1, false, Seq::empty()) {
                    Some((s, j)) => if i < j <= cs.len() {
                        lex_from(cs, j, Seq::empty(), acc.push(Tok::Str(s)))
                    } else {
                        Err(LexFault::UnclosedString)
                    },
                    None => Err(LexFault::UnclosedString),
                }
            }
        } else if c == '\'' {
            if word.len() > 0 {
                Err(LexFault::UnexpectedChar('\''))
            } else {
                lex_from(cs, i + 1, word, acc.push(Tok::Quote))
            }
        } else if c == ';' {
            let a = flush(word, acc);
            if i < line_end(cs, i + 1) <= cs.len() {
                lex_from(cs, line_end(cs, i + 1), Seq::empty(), a)
            } else {
                Ok(a)
            }
        } else if forbidden(c) {
            Err(LexFault::UnexpectedChar(c))
        } else {
            lex_from(cs, i + 1, word.push(c), acc)
        }
    }
}

/// The tokens of `cs`.
pub open spec fn lex(cs: Seq<char>) -> Result<Seq<Tok>, LexFault> {
    lex_from(cs, 0, Seq::empty(), Seq::empty())
}

/// A string holding `cs`.
pub fn string_from(cs: &Vec<char>) -> (r: String)
    ensures
        r@ == cs@,
{
    let mut s = String::new();
    let mut i: usize = 0;
    while i < cs.len()
        invariant
            i <= cs.len(),
            s@ == cs@.subrange(0, i as int),
        decreases cs.len() - i,
    {
        push_char(&mut s, cs[i]);
        i = i + 1;
        assert(s@ =~= cs@.subrange(0, i as int));
    }
    assert(cs@.subrange(0, i as int) =~= cs@);
    s
}

/// The value of one digit in base `r`, if it is one.
fn digit_value(c: char, r: u32) -> (d: Option<u32>)
    requires
        r <= 36,
    ensures
        match digit_in(c, r) {
            Some(v) => d == Some(v as u32),
            None => d is None,
        },
{
    let v: u32 = if '0' <= c && c <= '9' {
        c as u32 - '0' as u32
    } else if 'a' <= c && c <= 'z' {
        c as u32 - 'a' as u32 + 10
    } else if 'A' <= c && c <= 'Z' {
        c as u32 - 'A' as u32 + 10
    } else {
        r
    };
    if v < r {
        Some(v)
    } else {
        None
    }
}

/// Reads the integer literal `w[from..]` in base `r`, of any size.
pub fn read_integer(w: &Vec<char>, from: usize, r: u32) -> (res: Option<Integer>)
    requires
        from <= w.len(),
        2 <= r <= 36,
    ensures
        match radix_literal(w@.subrange(from as int, w@.len() as int), r) {
            Some(v) => res matches Some(x) && x@ == v,
            None => res is None,
        },
{
    let ghost t = w@.subrange(from as int, w@.len() as int);
    let n = w.len();
    let signed = from < n && (w[from] == '+' || w[from] == '-');
    let negative = signed && w[from] == '-';
    let start: usize = if signed { from + 1 } else { from };
    let ghost u = unsigned(t);
    proof {
        assert(u =~= w@.subrange(start as int, n as int));
    }
    if start >= n {
        return None;
    }
    match digit_value(w[start], r) {
        None => {
            proof { assert(u[0] == w@[start as int]); }
            return None;
        },
        Some(_) => {},
    }
    let base = Integer::from_i64(r as i64);
    let mut acc = Integer::zero();
    let mut i: usize = start;
    proof {
        assert(u.subrange(0, 0) =~= Seq::<char>::empty());
    }
    while i < n
        invariant
            start <= i <= n,
            start < n,
            n == w@.len(),
            2 <= r <= 36,
            base@ == r,
            u == w@.subrange(start as int, n as int),
            u == unsigned(t),
            t == w@.subrange(from as int, w@.len() as int),
            negative == (has_sign(t) && t[0] == '-'),
            digit_in(u[0], r) is Some,
            forall|k: int| 0 <= k < i - start ==> digit_in(#[trigger] u[k], r) is Some || u[k] == '_',
            acc@ == radix_value(u.subrange(0, i - start), r),
        decreases n - i,
    {
        let c = w[i];
        let ghost p = u.subrange(0, i + 1 - start);
        proof {
            assert(u[i - start] == c);
            assert(p.drop_last() =~= u.subrange(0, i - start));
            assert(p.last() == c);
        }
        match digit_value(c, r) {
            Some(d) => {
                acc = acc.mul(&base).add(&Integer::from_i64(d as i64));
            },
            None => {
                if c != '_' {
                    proof { assert(!radix_digits(u, r)); }
                    return None;
                }
            },
        }
        i = i + 1;
    }
    proof {
        assert(u.subrange(0, n - start) =~= u);
        assert(radix_digits(u, r));
    }
    if negative {
        Some(acc.neg())
    } else {
        Some(acc)
    }
}

/// Whether `w` is a float literal.
fn is_float_literal(w: &Vec<char>) -> (r: bool)
    ensures
        r == float_literal(w@),
{
    let n = w.len();
    let start: usize = if n > 0 && (w[0] == '+' || w[0] == '-') { 1 } else { 0 };
    let ghost u = unsigned(w@);
    proof {
        assert(u =~= w@.subrange(start as int, n as int));
    }
    let mut count: usize = 0;
    let mut i: usize = start;
    while i < n
        invariant
            start <= i <= n,
            start <= n,
            n == w@.len(),
            u == w@.subrange(start as int, n as int),
            u == unsigned(w@),
            count == dots(u.subrange(0, i - start)),
            count <= i - start,
            forall|k: int| 0 <= k < i - start ==> is_digit(#[trigger] u[k]) || u[k] == '.',
        decreases n - i,
    {
        let c = w[i];
        let ghost p = u.subrange(0, i - start);
        proof {
            assert(u[i - start] == c);
            assert(u.subrange(0, i + 1 - start).drop_last() =~= p);
        }
        if c == '.' {
            count = count + 1;
        } else if !('0' <= c && c <= '9') {
            return false;
        }
        i = i + 1;
    }
    proof {
        assert(u.subrange(0, n - start) =~= u);
    }
    n - start >= 2 && count == 1
}

/// The token that a word stands for; a float's bits come from the host.
fn classify_word<F: FloatArithmetic>(w: &Vec<char>, floats: &F) -> (r: Token)
    ensures
        token_shape(r) == classify(w@),
{
    proof {
        assert(w@.subrange(0, w@.len() as int) =~= w@);
    }
    match read_integer(w, 0, 10) {
        Some(v) => Token::Integer(v),
        None => {
            if is_float_literal(w) {
                Token::Float(floats.parse(&string_from(w)))
            } else {
                Token::Symbol(string_from(w))
            }
        },
    }
}

proof fn lemma_shapes_push(ts: Seq<Token>, t: Token)
    ensures
        shapes(ts.push(t)) == shapes(ts).push(token_shape(t)),
{
    assert(shapes(ts.push(t)) =~= shapes(ts).push(token_shape(t)));
}

/// Ends the word read so far, emitting its token.
fn flush_word<F: FloatArithmetic>(word: &Vec<char>, acc: &mut Vec<Token>, floats: &F)
    ensures
        shapes(final(acc)@) == flush(word@, shapes(old(acc)@)),
{
    if word.len() == 0 {
        return;
    }
    let t = classify_word(word, floats);
    let ghost before = acc@;
    acc.push(t);
    proof { lemma_shapes_push(before, t); }
}

/// Reads a string literal whose opening quote precedes `cs[start]`: its
/// content and the index after the closing quote.
fn read_string(cs: &Vec<char>, start: usize) -> (r: Option<(String, usize)>)
    ensures
        match string_end(cs@, start as int, false, Seq::empty()) {
            None => r is None,
            Some((s, j)) => r matches Some((x, k)) && x@ == s && k == j,
        },
{
    let mut content: Vec<char> = Vec::new();
    let mut escaped = false;
    let mut i: usize = start;
    while i < cs.len()
        invariant
            start <= i,
            string_end(cs@, start as int, false, Seq::empty()) == string_end(cs@, i as int, escaped, content@),
        decreases cs.len() - i,
    {
        let c = cs[i];
        if escaped {
            content.push(if c == 'n' { '\n' } else { c });
            escaped = false;
        } else if c == '\\' {
            escaped = true;
        } else if c == '"' {
            return Some((string_from(&content), i + 1));
        } else {
            content.push(c);
        }
        i = i + 1;
    }
    None
}

/// The index after the end of the line that holds `cs[i]`.
fn skip_line(cs: &Vec<char>, i: usize) -> (r: usize)
    ensures
        r == line_end(cs@, i as int),
{
    let mut k = i;
    while k < cs.len()
        invariant
            i <= k,
            line_end(cs@, i as int) == line_end(cs@, k as int),
        decreases cs.len() - k,
    {
        if cs[k] == '\n' {
            return k + 1;
        }
        k = k + 1;
    }
    cs.len()
}

/// A tokenizer over the characters of one program text.
pub struct TokenStream {
    pub chars: Vec<char>,
}

impl TokenStream {
    pub fn new(s: &str) -> (r: TokenStream)
        ensures
            r.chars@ == s@,
    {
        TokenStream { chars: chars_of(s) }
    }

    /// The tokens of the text, or the first failure.
    pub fn tokenize<F: FloatArithmetic>(&self, floats: &F) -> (r: Result<Vec<Token>, TokenizeError>)
        ensures
            match lex(self.chars@) {
                Ok(ts) => r matches Ok(x) && shapes(x@) == ts,
                Err(e) => r matches Err(x) && lex_error_view(x) == e,
            },
    {
        let cs = &self.chars;
        let n = cs.len();
        let mut acc: Vec<Token> = Vec::new();
        let mut word: Vec<char> = Vec::new();
        let mut i: usize = 0;
        proof {
            assert(shapes(acc@) =~= Seq::<Tok>::empty());
            assert(word@ =~= Seq::<char>::empty());
        }
        while i < n
            invariant
                i <= n,
                n == cs@.len(),
                cs@ == self.chars@,
                lex(cs@) == lex_from(cs@, i as int, word@, shapes(acc@)),
            decreases n - i,
        {
            let c = cs[i];
            if c == '(' || c == '[' || c == ')' || c == ']' || c == ' ' || c == '\n' || c == '\t' {
                flush_word(&word, &mut acc, floats);
                let ghost flushed = acc@;
                if c == '(' || c == '[' {
                    acc.push(Token::LParen);
                    proof { lemma_shapes_push(flushed, Token::LParen); }
                } else if c == ')' || c == ']' {
                    acc.push(Token::RParen);
                    proof { lemma_shapes_push(flushed, Token::RParen); }
                }
                word = Vec::new();
                proof { assert(word@ =~= Seq::<char>::empty()); }
                i = i + 1;
            } else if c == '"' {
                if word.len() > 0 {
                    return Err(TokenizeError::UnexpectedChar('"'));
                }
                assert(word@ =~= Seq::<char>::empty());
                match read_string(cs, i + 1) {
                    Some((text, j)) => {
                        if i < j && j <= n {
                            let ghost before = acc@;
                            let t = Token::String(text);
                            acc.push(t);
                            proof { lemma_shapes_push(before, t); }
                            i = j;
                        } else {
                            return Err(TokenizeError::UnclosedString);
                        }
                    },
                    None => {
                        return Err(TokenizeError::UnclosedString);
                    },
                }
            } else if c == '\'' {
                if word.len() > 0 {
                    return Err(TokenizeError::UnexpectedChar('\''));
                }
                let ghost before = acc@;
                acc.push(Token::Quote);
                proof { lemma_shapes_push(before, Token::Quote); }
                i = i + 1;
            } else if c == ';' {
                flush_word(&word, &mut acc, floats);
                word = Vec::new();
                proof { assert(word@ =~= Seq::<char>::empty()); }
                let j = skip_line(cs, i + 1);
                if i < j && j <= n {
                    i = j;
                } else {
                    return Ok(acc);
                }
            } else if c == '\\' || c == '{' || c == '}' || c == ',' || c == '`' || c == '|' {
                return Err(TokenizeError::UnexpectedChar(c));
            } else {
                word.push(c);
                i = i + 1;
            }
        }
        flush_word(&word, &mut acc, floats);
        Ok(acc)
    }
}

} // verus!
