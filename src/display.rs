use crate::error::{ParseError, RuntimeError, TokenizeError};
use crate::math::FloatArithmetic;
use crate::reader::{push_char, Token};
use crate::integer::{decimal_text, digits_of, Integer};
use crate::value::{value_view, Keyword, Num, Numeric, Val, Value};
use vstd::prelude::*;
use vstd::string::StringExecFns;

verus! {

/// Appends the decimal form of `i`.
pub fn push_integer(s: &mut String, i: &Integer)
    ensures
        final(s)@ == old(s)@ + decimal_text(i@),
{
    let mut cs: Vec<char> = Vec::new();
    i.push_decimal(&mut cs);
    let ghost s0 = s@;
    assert(cs@ =~= decimal_text(i@));
    let mut k: usize = 0;
    while k < cs.len()
        invariant
            k <= cs.len(),
            s@ == s0 + cs@.subrange(0, k as int),
        decreases cs.len() - k,
    {
        push_char(s, cs[k]);
        k = k + 1;
        assert(s@ =~= s0 + cs@.subrange(0, k as int));
    }
    assert(cs@.subrange(0, k as int) =~= cs@);
}

impl Integer {
    /// The decimal form of the integer.
    pub fn to_text(&self) -> (r: String)
        ensures
            r@ == decimal_text(self@),
    {
        let mut s = String::new();
        push_integer(&mut s, self);
        assert(s@ =~= decimal_text(self@));
        s
    }
}

/// The printed name of a keyword.
pub open spec fn keyword_text(k: Keyword) -> Seq<char> {
    match k {
        Keyword::Define => "define"@,
        Keyword::Lambda => "lambda"@,
        Keyword::If => "if"@,
    }
}

pub open spec fn procedure_text(name: Option<Seq<char>>) -> Seq<char> {
    match name {
        Some(n) => "#<procedure:"@ + n + ">"@,
        None => "#<procedure>"@,
    }
}

/// The printed form of a value; `None` where a float's printed form, which
/// is the host's, takes part.
pub open spec fn value_text(v: Val) -> Option<Seq<char>>
    decreases v, 0int,
{
    match v {
        Val::Void => Some("#<void>"@),
        Val::Numeric(Num::Int(i)) => Some(decimal_text(i)),
        Val::Numeric(Num::Float(_)) => None,
        Val::Bool(b) => Some(if b { "#t"@ } else { "#f"@ }),
        Val::Symbol(s) => Some(s),
        Val::String(s) => Some("\""@ + s + "\""@),
        Val::List(items) => match join_upto(items, items.len() as int) {
            Some(t) => Some("("@ + t + ")"@),
            None => None,
        },
        Val::Quoted(b) => match value_text(*b) {
            Some(t) => Some("'"@ + t),
            None => None,
        },
        Val::Keyword(k) => Some("#<keyword:"@ + keyword_text(k) + ">"@),
        Val::Closure(c) => Some(procedure_text(c.name)),
        Val::TailCall(t) => Some(procedure_text(t.closure.name)),
        Val::InternalFunction(n, _) => Some(procedure_text(Some(n))),
    }
}

/// The printed forms of `items[..k]`, separated by spaces.
pub open spec fn join_upto(items: Seq<Val>, k: int) -> Option<Seq<char>>
    decreases items, k,
{
    if k <= 0 || k > items.len() {
        Some(Seq::empty())
    } else {
        match join_upto(items, k - 1) {
            None => None,
            Some(p) => match value_text(items[k - 1]) {
                None => None,
                Some(t) => Some(if k == 1 { t } else { p + " "@ + t }),
            },
        }
    }
}

fn push_procedure(s: &mut String, name: &Option<String>)
    ensures
        final(s)@ == old(s)@ + procedure_text(crate::value::name_view(*name)),
{
    match name {
        Some(n) => {
            s.append("#<procedure:");
            s.append(n.as_str());
            s.append(">");
        },
        None => {
            s.append("#<procedure>");
        },
    }
}

/// Appends the printed form of `v`; floats are printed by the host.
pub fn push_value<F: FloatArithmetic>(s: &mut String, v: &Value, floats: &F)
    ensures
        match value_text(v@) {
            Some(t) => final(s)@ == old(s)@ + t,
            None => true,
        },
    decreases v,
{
    let ghost s0 = s@;
    match v {
        Value::Void => { s.append("#<void>"); proof { assert(s@ =~= s0 + value_text(v@)->0); } },
        Value::Numeric(Numeric::Integer(i)) => { push_integer(s, i); proof { assert(s@ =~= s0 + value_text(v@)->0); } },
        Value::Numeric(Numeric::Float(b)) => {
            let t = floats.show(*b);
            s.append(t.as_str());
        },
        Value::Bool(b) => {
            if *b {
                s.append("#t");
            } else {
                s.append("#f");
            }
            proof { assert(s@ =~= s0 + value_text(v@)->0); }
        },
        Value::Symbol(name) => { s.append(name.as_str()); proof { assert(s@ =~= s0 + value_text(v@)->0); } },
        Value::String(text) => {
            s.append("\"");
            s.append(text.as_str());
            s.append("\"");
            proof { assert(s@ =~= s0 + value_text(v@)->0); }
        },
        Value::List(items) => {
            s.append("(");
            push_items(s, items, floats);
            s.append(")");
            proof {
                crate::value::lemma_values_view(items@);
                assert(v@ == Val::List(crate::value::values_view(items@)));
                match join_upto(crate::value::values_view(items@), items@.len() as int) {
                    Some(t) => {
                        assert(s@ =~= s0 + ("("@ + t + ")"@));
                        assert(value_text(v@) == Some("("@ + t + ")"@));
                    },
                    None => {},
                }
            }
        },
        Value::Quoted(inner) => {
            s.append("'");
            push_value(s, &**inner, floats);
            proof {
                match value_text(value_view(**inner)) {
                    Some(t) => {
                        assert(s@ =~= s0 + ("'"@ + t));
                        assert(value_text(v@) == Some("'"@ + t));
                    },
                    None => {},
                }
            }
        },
        Value::Keyword(k) => {
            s.append("#<keyword:");
            match k {
                Keyword::Define => s.append("define"),
                Keyword::Lambda => s.append("lambda"),
                Keyword::If => s.append("if"),
            }
            s.append(">");
            proof { assert(s@ =~= s0 + value_text(v@)->0); }
        },
        Value::Closure(c) => {
            assert(value_view(Value::Closure(*c)) == Val::Closure(crate::value::closure_view(*c)));
            push_procedure(s, &c.name);
            proof { assert(s@ =~= s0 + value_text(v@)->0); }
        },
        Value::TailCall(t) => {
            assert(crate::value::tail_call_view(*t).closure == crate::value::closure_view(t.closure));
            push_procedure(s, &t.closure.name);
            proof { assert(s@ =~= s0 + value_text(v@)->0); }
        },
        Value::InternalFunction(f) => {
            s.append("#<procedure:");
            s.append(f.name.as_str());
            s.append(">");
            proof { assert(s@ =~= s0 + value_text(v@)->0); }
        },
    }
}

/// Appends the printed forms of `items`, separated by spaces.
fn push_items<F: FloatArithmetic>(s: &mut String, items: &Vec<Value>, floats: &F)
    ensures
        match join_upto(crate::value::values_view(items@), items@.len() as int) {
            Some(t) => final(s)@ == old(s)@ + t,
            None => true,
        },
    decreases items,
{
    let ghost s0 = s@;
    let ghost vs = crate::value::values_view(items@);
    proof { crate::value::lemma_values_view(items@); }
    let mut i: usize = 0;
    proof { assert(s@ =~= s0 + Seq::<char>::empty()); }
    while i < items.len()
        invariant
            i <= items.len(),
            vs == crate::value::values_view(items@),
            vs.len() == items@.len(),
            forall|k: int| 0 <= k < items@.len() ==> #[trigger] vs[k] == value_view(items@[k]),
            match join_upto(vs, i as int) {
                Some(t) => s@ == s0 + t,
                None => true,
            },
        decreases items.len() - i,
    {
        proof {
            vstd::std_specs::vec::axiom_vec_index_decreases(*items, i as int);
        }
        if i > 0 {
            s.append(" ");
        }
        push_value(s, &items[i], floats);
        proof {
            match join_upto(vs, i as int) {
                Some(p) => match value_text(vs[i as int]) {
                    Some(t) => {
                        if i > 0 {
                            assert(s@ =~= s0 + (p + " "@ + t));
                        } else {
                            assert(s@ =~= s0 + t);
                        }
                    },
                    None => {},
                },
                None => {},
            }
        }
        i = i + 1;
    }
}

impl Value {
    /// The printed form of the value; floats are printed by the host.
    pub fn to_text<F: FloatArithmetic>(&self, floats: &F) -> (r: String)
        ensures
            match value_text(self@) {
                Some(t) => r@ == t,
                None => true,
            },
    {
        let mut s = String::new();
        push_value(&mut s, self, floats);
        proof {
            match value_text(self@) {
                Some(t) => assert(s@ =~= t),
                None => {},
            }
        }
        s
    }
}


/// The printed form of a token; `None` for a float, which the host prints.
pub open spec fn token_text(t: Token) -> Option<Seq<char>> {
    match t {
        Token::LParen => Some("("@),
        Token::RParen => Some(")"@),
        Token::Symbol(s) => Some(s@),
        Token::Integer(i) => Some(decimal_text(i@)),
        Token::Float(_) => None,
        Token::String(s) => Some("\""@ + s@ + "\""@),
        Token::Quote => Some("'"@),
    }
}

pub open spec fn tokenize_error_text(e: TokenizeError) -> Seq<char> {
    match e {
        TokenizeError::UnexpectedChar(c) => "Unexpected character: "@ + seq![c],
        TokenizeError::UnclosedString => "Unclosed string"@,
    }
}

pub open spec fn prefixed(p: Seq<char>, t: Option<Seq<char>>) -> Option<Seq<char>> {
    match t {
        Some(x) => Some(p + x),
        None => None,
    }
}

pub open spec fn parse_error_text(e: ParseError) -> Option<Seq<char>> {
    match e {
        ParseError::UnexpectedToken { expected, found } => match (token_text(expected), token_text(found)) {
            (Some(a), Some(b)) => Some("Unexpected token: expected "@ + a + ", found "@ + b),
            _ => None,
        },
        ParseError::MissingToken(t) => prefixed("Missing token: "@, token_text(t)),
        ParseError::InvalidSyntax(t) => prefixed("Invalid syntax: "@, token_text(t)),
        ParseError::InvalidDigit(d) => Some("Invalid digit: "@ + d@),
        ParseError::LexicalError(l) => Some("Lexical error: "@ + tokenize_error_text(l)),
        ParseError::NonConvertibleToken(t) => prefixed("Non-convertible token: "@, token_text(t)),
        ParseError::UnexpectedEOF => Some("Unexpected EOF"@),
    }
}

pub open spec fn runtime_error_text(e: RuntimeError) -> Option<Seq<char>> {
    match e {
        RuntimeError::UndefinedVariable(n) => Some("Undefined variable: "@ + n@),
        RuntimeError::UndefinedFunction(n) => Some("Undefined function: "@ + n@),
        RuntimeError::TypeError { expected, founded } => prefixed(
            "TypeError: expected "@ + expected@ + ", found "@,
            value_text(value_view(founded)),
        ),
        RuntimeError::OperationError { operation, lhs_type, rhs_type } => Some(
            "OperationError: "@ + operation@ + " between "@ + lhs_type@ + " and "@ + rhs_type@,
        ),
        RuntimeError::InvalidListLength { expected, founded } => Some(
            "InvalidListLength: expected "@ + digits_of(expected as nat) + ", found "@ + digits_of(founded as nat),
        ),
        RuntimeError::InvalidArity { expected, founded } => Some(
            "Invalid arity: expected "@ + digits_of(expected as nat) + " arguments, but found "@ + digits_of(
                founded as nat,
            ),
        ),
        RuntimeError::DivideByZero => Some("DivideByZero"@),
        RuntimeError::NonCallableValue(v) => prefixed("NonCallableValue: "@, value_text(value_view(v))),
        RuntimeError::EmptyList => Some("EmptyList"@),
        RuntimeError::SyntaxError(p) => prefixed("SyntaxError: "@, parse_error_text(p)),
        RuntimeError::InvalidClosure => Some("InvalidClosure"@),
        RuntimeError::StepLimitExceeded => Some("StepLimitExceeded"@),
    }
}

fn push_count(s: &mut String, n: usize)
    ensures
        final(s)@ == old(s)@ + digits_of(n as nat),
{
    push_integer(s, &Integer::from_u64(n as u64));
}

/// Appends the printed form of a token.
pub fn push_token<F: FloatArithmetic>(s: &mut String, t: &Token, floats: &F)
    ensures
        match token_text(*t) {
            Some(x) => final(s)@ == old(s)@ + x,
            None => true,
        },
{
    let ghost s0 = s@;
    match t {
        Token::LParen => { s.append("("); proof { assert(s@ =~= s0 + token_text(*t)->0); } },
        Token::RParen => { s.append(")"); proof { assert(s@ =~= s0 + token_text(*t)->0); } },
        Token::Symbol(x) => { s.append(x.as_str()); proof { assert(s@ =~= s0 + token_text(*t)->0); } },
        Token::Integer(i) => { push_integer(s, i); proof { assert(s@ =~= s0 + token_text(*t)->0); } },
        Token::Float(b) => {
            let x = floats.show(*b);
            s.append(x.as_str());
        },
        Token::String(x) => {
            s.append("\"");
            s.append(x.as_str());
            s.append("\"");
            proof { assert(s@ =~= s0 + token_text(*t)->0); }
        },
        Token::Quote => { s.append("'"); proof { assert(s@ =~= s0 + token_text(*t)->0); } },
    }
}

/// Appends the message of a tokenizer failure.
pub fn push_tokenize_error(s: &mut String, e: &TokenizeError)
    ensures
        final(s)@ == old(s)@ + tokenize_error_text(*e),
{
    let ghost s0 = s@;
    match e {
        TokenizeError::UnexpectedChar(c) => {
            s.append("Unexpected character: ");
            push_char(s, *c);
            proof { assert(s@ =~= s0 + tokenize_error_text(*e)); }
        },
        TokenizeError::UnclosedString => { s.append("Unclosed string"); proof { assert(s@ =~= s0 + tokenize_error_text(*e)); } },
    }
}

/// Appends the message of a reader failure.
pub fn push_parse_error<F: FloatArithmetic>(s: &mut String, e: &ParseError, floats: &F)
    ensures
        match parse_error_text(*e) {
            Some(x) => final(s)@ == old(s)@ + x,
            None => true,
        },
{
    let ghost s0 = s@;
    match e {
        ParseError::UnexpectedToken { expected, found } => {
            s.append("Unexpected token: expected ");
            push_token(s, expected, floats);
            s.append(", found ");
            push_token(s, found, floats);
            proof {
                if parse_error_text(*e) is Some {
                    assert(s@ =~= s0 + parse_error_text(*e)->0);
                }
            }
        },
        ParseError::MissingToken(t) => {
            s.append("Missing token: ");
            push_token(s, t, floats);
            proof { if token_text(*t) is Some { assert(s@ =~= s0 + parse_error_text(*e)->0); } }
        },
        ParseError::InvalidSyntax(t) => {
            s.append("Invalid syntax: ");
            push_token(s, t, floats);
            proof { if token_text(*t) is Some { assert(s@ =~= s0 + parse_error_text(*e)->0); } }
        },
        ParseError::InvalidDigit(d) => {
            s.append("Invalid digit: ");
            s.append(d.as_str());
            proof { assert(s@ =~= s0 + parse_error_text(*e)->0); }
        },
        ParseError::LexicalError(l) => {
            s.append("Lexical error: ");
            push_tokenize_error(s, l);
            proof { assert(s@ =~= s0 + parse_error_text(*e)->0); }
        },
        ParseError::NonConvertibleToken(t) => {
            s.append("Non-convertible token: ");
            push_token(s, t, floats);
            proof { if token_text(*t) is Some { assert(s@ =~= s0 + parse_error_text(*e)->0); } }
        },
        ParseError::UnexpectedEOF => { s.append("Unexpected EOF"); proof { assert(s@ =~= s0 + parse_error_text(*e)->0); } },
    }
}

/// Appends the message of an evaluation failure.
pub fn push_runtime_error<F: FloatArithmetic>(s: &mut String, e: &RuntimeError, floats: &F)
    ensures
        match runtime_error_text(*e) {
            Some(x) => final(s)@ == old(s)@ + x,
            None => true,
        },
{
    let ghost s0 = s@;
    match e {
        RuntimeError::UndefinedVariable(n) => {
            s.append("Undefined variable: ");
            s.append(n.as_str());
            proof { assert(s@ =~= s0 + runtime_error_text(*e)->0); }
        },
        RuntimeError::UndefinedFunction(n) => {
            s.append("Undefined function: ");
            s.append(n.as_str());
            proof { assert(s@ =~= s0 + runtime_error_text(*e)->0); }
        },
        RuntimeError::TypeError { expected, founded } => {
            s.append("TypeError: expected ");
            s.append(expected.as_str());
            s.append(", found ");
            push_value(s, founded, floats);
            proof { if value_text(value_view(*founded)) is Some { assert(s@ =~= s0 + runtime_error_text(*e)->0); } }
        },
        RuntimeError::OperationError { operation, lhs_type, rhs_type } => {
            s.append("OperationError: ");
            s.append(operation.as_str());
            s.append(" between ");
            s.append(lhs_type.as_str());
            s.append(" and ");
            s.append(rhs_type.as_str());
            proof { assert(s@ =~= s0 + runtime_error_text(*e)->0); }
        },
        RuntimeError::InvalidListLength { expected, founded } => {
            s.append("InvalidListLength: expected ");
            push_count(s, *expected);
            s.append(", found ");
            push_count(s, *founded);
            proof { assert(s@ =~= s0 + runtime_error_text(*e)->0); }
        },
        RuntimeError::InvalidArity { expected, founded } => {
            s.append("Invalid arity: expected ");
            push_count(s, *expected);
            s.append(" arguments, but found ");
            push_count(s, *founded);
            proof { assert(s@ =~= s0 + runtime_error_text(*e)->0); }
        },
        RuntimeError::DivideByZero => { s.append("DivideByZero"); proof { assert(s@ =~= s0 + runtime_error_text(*e)->0); } },
        RuntimeError::NonCallableValue(v) => {
            s.append("NonCallableValue: ");
            push_value(s, v, floats);
            proof { if value_text(value_view(*v)) is Some { assert(s@ =~= s0 + runtime_error_text(*e)->0); } }
        },
        RuntimeError::EmptyList => { s.append("EmptyList"); proof { assert(s@ =~= s0 + runtime_error_text(*e)->0); } },
        RuntimeError::SyntaxError(p) => {
            s.append("SyntaxError: ");
            push_parse_error(s, p, floats);
            proof { if parse_error_text(*p) is Some { assert(s@ =~= s0 + runtime_error_text(*e)->0); } }
        },
        RuntimeError::InvalidClosure => { s.append("InvalidClosure"); proof { assert(s@ =~= s0 + runtime_error_text(*e)->0); } },
        RuntimeError::StepLimitExceeded => { s.append("StepLimitExceeded"); proof { assert(s@ =~= s0 + runtime_error_text(*e)->0); } },
    }
}

impl RuntimeError {
    /// The message of the failure; floats are printed by the host.
    pub fn to_text<F: FloatArithmetic>(&self, floats: &F) -> (r: String)
        ensures
            match runtime_error_text(*self) {
                Some(t) => r@ == t,
                None => true,
            },
    {
        let mut s = String::new();
        push_runtime_error(&mut s, self, floats);
        proof {
            if let Some(t) = runtime_error_text(*self) {
                assert(s@ =~= t);
            }
        }
        s
    }
}

} // verus!
