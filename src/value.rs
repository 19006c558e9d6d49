use crate::integer::Integer;
use vstd::prelude::*;

verus! {

/// The special forms the evaluator recognises in head position.
#[derive(Debug, Clone, Copy, PartialEq, Eq, Structural)]
pub enum Keyword {
    Define,
    Lambda,
    If,
}

/// A number: an exact integer of any size, or a floating-point number held
/// as its IEEE-754 binary64 bit pattern.
#[derive(Debug, PartialEq)]
pub enum Numeric {
    Integer(Integer),
    Float(u64),
}

/// The model of a number.
pub enum Num {
    Int(int),
    Float(u64),
}

pub open spec fn num_view(n: Numeric) -> Num {
    match n {
        Numeric::Integer(i) => Num::Int(i@),
        Numeric::Float(b) => Num::Float(b),
    }
}

impl View for Numeric {
    type V = Num;

    open spec fn view(&self) -> Num {
        num_view(*self)
    }
}

impl Numeric {
    /// The same number.
    pub fn copy(&self) -> (r: Numeric)
        ensures
            r@ == self@,
    {
        match self {
            Numeric::Integer(i) => Numeric::Integer(i.copy()),
            Numeric::Float(b) => Numeric::Float(*b),
        }
    }

    /// Whether the two numbers have the same model.
    pub fn same(&self, other: &Numeric) -> (r: bool)
        ensures
            r == (self@ == other@),
    {
        match (self, other) {
            (Numeric::Integer(a), Numeric::Integer(b)) => a.equals(b),
            (Numeric::Float(a), Numeric::Float(b)) => *a == *b,
            _ => false,
        }
    }
}

/// The native functions that the top-level scope binds.
#[derive(Debug, Clone, Copy, PartialEq, Eq, Structural)]
pub enum Builtin {
    Add,
    Sub,
    Mul,
    Div,
    NumericEqual,
}

/// A built-in function value: its printed name and which native it runs.
#[derive(Debug, PartialEq)]
pub struct InternalFunction {
    pub name: String,
    pub function: Builtin,
}

/// A function value. `environment` is the index of the defining scope in the
/// environment arena: a non-owning reference that may fail to resolve.
#[derive(Debug)]
pub struct Closure {
    pub name: Option<String>,
    pub params: Vec<String>,
    pub body: Vec<Value>,
    pub environment: usize,
}

/// The loop form of a self-recursive closure.
#[derive(Debug, PartialEq)]
pub struct TailCall {
    pub closure: Closure,
    pub updates: Vec<Value>,
    pub break_condition: Box<Value>,
    pub return_expr: Box<Value>,
}

#[derive(Debug, PartialEq)]
pub enum Value {
    Void,
    Numeric(Numeric),
    Bool(bool),
    Symbol(String),
    String(String),
    List(Vec<Value>),
    Quoted(Box<Value>),
    Keyword(Keyword),
    Closure(Closure),
    TailCall(TailCall),
    InternalFunction(InternalFunction),
}

/// The mathematical model of a `Value`: strings become `Seq<char>` and
/// vectors become sequences.
pub enum Val {
    Void,
    Numeric(Num),
    Bool(bool),
    Symbol(Seq<char>),
    String(Seq<char>),
    List(Seq<Val>),
    Quoted(Box<Val>),
    Keyword(Keyword),
    Closure(ClosureVal),
    TailCall(TailCallVal),
    InternalFunction(Seq<char>, Builtin),
}

pub struct ClosureVal {
    pub name: Option<Seq<char>>,
    pub params: Seq<Seq<char>>,
    pub body: Seq<Val>,
    pub environment: usize,
}

pub struct TailCallVal {
    pub closure: ClosureVal,
    pub updates: Seq<Val>,
    pub break_condition: Box<Val>,
    pub return_expr: Box<Val>,
}

pub open spec fn name_view(n: Option<String>) -> Option<Seq<char>> {
    match n {
        Some(s) => Some(s@),
        None => None,
    }
}

pub open spec fn strings_view(s: Seq<String>) -> Seq<Seq<char>> {
    s.map_values(|x: String| x@)
}

pub open spec fn value_view(v: Value) -> Val
    decreases v, 0int,
{
    match v {
        Value::Void => Val::Void,
        Value::Numeric(n) => Val::Numeric(num_view(n)),
        Value::Bool(b) => Val::Bool(b),
        Value::Symbol(s) => Val::Symbol(s@),
        Value::String(s) => Val::String(s@),
        Value::List(l) => Val::List(values_from(l@, 0)),
        Value::Quoted(b) => Val::Quoted(Box::new(value_view(*b))),
        Value::Keyword(k) => Val::Keyword(k),
        Value::Closure(c) => Val::Closure(closure_view(c)),
        Value::TailCall(t) => Val::TailCall(tail_call_view(t)),
        Value::InternalFunction(f) => Val::InternalFunction(f.name@, f.function),
    }
}

pub open spec fn tail_call_view(t: TailCall) -> TailCallVal
    decreases t, 0int,
{
    TailCallVal {
        closure: closure_view(t.closure),
        updates: values_from(t.updates@, 0),
        break_condition: Box::new(value_view(*t.break_condition)),
        return_expr: Box::new(value_view(*t.return_expr)),
    }
}

pub open spec fn closure_view(c: Closure) -> ClosureVal
    decreases c, 0int,
{
    ClosureVal {
        name: name_view(c.name),
        params: strings_view(c.params@),
        body: values_from(c.body@, 0),
        environment: c.environment,
    }
}

/// The models of `s[i..]`.
pub open spec fn values_from(s: Seq<Value>, i: int) -> Seq<Val>
    decreases s, s.len() - i,
{
    if 0 <= i < s.len() {
        seq![value_view(s[i])] + values_from(s, i + 1)
    } else {
        Seq::empty()
    }
}

/// The models of a sequence of values.
pub open spec fn values_view(s: Seq<Value>) -> Seq<Val> {
    values_from(s, 0)
}

impl View for Value {
    type V = Val;

    open spec fn view(&self) -> Val {
        value_view(*self)
    }
}

impl View for Closure {
    type V = ClosureVal;

    open spec fn view(&self) -> ClosureVal {
        closure_view(*self)
    }
}

pub proof fn lemma_values_from(s: Seq<Value>, i: int)
    requires
        0 <= i <= s.len(),
    ensures
        values_from(s, i).len() == s.len() - i,
        forall|k: int| 0 <= k < s.len() - i ==> #[trigger] values_from(s, i)[k] == value_view(s[i + k]),
    decreases s.len() - i,
{
    if i < s.len() {
        lemma_values_from(s, i + 1);
        assert forall|k: int| 0 <= k < s.len() - i implies #[trigger] values_from(s, i)[k] == value_view(s[i + k]) by {
            if k > 0 {
                assert(values_from(s, i)[k] == values_from(s, i + 1)[k - 1]);
            }
        }
    }
}

/// The model of a sequence is determined by the models of its elements.
pub proof fn lemma_values_view(s: Seq<Value>)
    ensures
        values_view(s).len() == s.len(),
        forall|k: int| 0 <= k < s.len() ==> #[trigger] values_view(s)[k] == value_view(s[k]),
{
    lemma_values_from(s, 0);
}

/// Two sequences with element-wise equal models have equal models.
pub proof fn lemma_values_view_ext(a: Seq<Value>, b: Seq<Value>)
    requires
        a.len() == b.len(),
        forall|k: int| 0 <= k < a.len() ==> value_view(#[trigger] a[k]) == value_view(b[k]),
    ensures
        values_view(a) == values_view(b),
{
    lemma_values_view(a);
    lemma_values_view(b);
    assert(values_view(a) =~= values_view(b));
}

pub fn copy_string(s: &String) -> (r: String)
    ensures
        r == *s,
{
    s.clone()
}

pub fn copy_strings(v: &Vec<String>) -> (r: Vec<String>)
    ensures
        r@ == v@,
{
    let mut r: Vec<String> = Vec::new();
    let mut i: usize = 0;
    while i < v.len()
        invariant
            i <= v.len(),
            r@ == v@.subrange(0, i as int),
        decreases v.len() - i,
    {
        r.push(copy_string(&v[i]));
        i = i + 1;
        assert(r@ =~= v@.subrange(0, i as int));
    }
    assert(r@ =~= v@);
    r
}

impl Value {
    /// A deep copy, equal to the original.
    pub fn copy(&self) -> (r: Value)
        ensures
            r@ == self@,
        decreases self,
    {
        match self {
            Value::Void => Value::Void,
            Value::Numeric(n) => Value::Numeric(n.copy()),
            Value::Bool(b) => Value::Bool(*b),
            Value::Symbol(s) => Value::Symbol(copy_string(s)),
            Value::String(s) => Value::String(copy_string(s)),
            Value::List(l) => Value::List(copy_values(l)),
            Value::Quoted(b) => Value::Quoted(Box::new((**b).copy())),
            Value::Keyword(k) => Value::Keyword(*k),
            Value::Closure(c) => Value::Closure(c.copy()),
            Value::TailCall(t) => Value::TailCall(t.copy()),
            Value::InternalFunction(f) => Value::InternalFunction(
                InternalFunction { name: copy_string(&f.name), function: f.function },
            ),
        }
    }
}

impl Closure {
    /// A closure over the scope `env`.
    pub fn new(name: Option<String>, params: Vec<String>, body: Vec<Value>, env: usize) -> (r: Closure)
        ensures
            r.name == name,
            r.params == params,
            r.body == body,
            r.environment == env,
    {
        Closure { name, params, body, environment: env }
    }

    /// A deep copy, equal to the original.
    pub fn copy(&self) -> (r: Closure)
        ensures
            r@ == self@,
        decreases self,
    {
        let name = match &self.name {
            Some(n) => Some(copy_string(n)),
            None => None,
        };
        Closure {
            name,
            params: copy_strings(&self.params),
            body: copy_values(&self.body),
            environment: self.environment,
        }
    }
}

impl TailCall {
    /// A deep copy, equal to the original.
    pub fn copy(&self) -> (r: TailCall)
        ensures
            tail_call_view(r) == tail_call_view(*self),
        decreases self,
    {
        TailCall {
            closure: self.closure.copy(),
            updates: copy_values(&self.updates),
            break_condition: Box::new((*self.break_condition).copy()),
            return_expr: Box::new((*self.return_expr).copy()),
        }
    }
}

/// A deep copy of a sequence of values.
pub fn copy_values(v: &Vec<Value>) -> (r: Vec<Value>)
    ensures
        values_view(r@) == values_view(v@),
    decreases v,
{
    let mut r: Vec<Value> = Vec::new();
    let mut i: usize = 0;
    while i < v.len()
        invariant
            i <= v.len(),
            r@.len() == i,
            forall|k: int| 0 <= k < i ==> value_view(#[trigger] r@[k]) == value_view(v@[k]),
        decreases v.len() - i,
    {
        proof {
            vstd::std_specs::vec::axiom_vec_index_decreases(*v, i as int);
        }
        r.push(v[i].copy());
        i = i + 1;
    }
    proof {
        lemma_values_view_ext(r@, v@);
    }
    r
}

impl Clone for Value {
    fn clone(&self) -> (r: Value)
        ensures
            r@ == self@,
    {
        self.copy()
    }
}

impl Clone for Closure {
    fn clone(&self) -> (r: Closure)
        ensures
            r@ == self@,
    {
        self.copy()
    }
}

impl Clone for TailCall {
    fn clone(&self) -> (r: TailCall)
        ensures
            tail_call_view(r) == tail_call_view(*self),
    {
        self.copy()
    }
}

impl Clone for InternalFunction {
    fn clone(&self) -> (r: InternalFunction)
        ensures
            r.name@ == self.name@,
            r.function == self.function,
    {
        InternalFunction { name: copy_string(&self.name), function: self.function }
    }
}

/// A deep copy of `v[start..]`.
pub fn copy_values_from(v: &Vec<Value>, start: usize) -> (r: Vec<Value>)
    requires
        start <= v.len(),
    ensures
        values_view(r@) == values_view(v@).subrange(start as int, v@.len() as int),
{
    let mut r: Vec<Value> = Vec::new();
    let mut i: usize = start;
    while i < v.len()
        invariant
            start <= i <= v.len(),
            r@.len() == i - start,
            forall|k: int| 0 <= k < i - start ==> value_view(#[trigger] r@[k]) == value_view(v@[start + k]),
        decreases v.len() - i,
    {
        r.push(v[i].copy());
        i = i + 1;
    }
    proof {
        lemma_values_view(r@);
        lemma_values_view(v@);
        assert(values_view(r@) =~= values_view(v@).subrange(start as int, v@.len() as int));
    }
    r
}

fn same_strings(a: &Vec<String>, b: &Vec<String>) -> (r: bool)
    ensures
        r == (strings_view(a@) == strings_view(b@)),
{
    if a.len() != b.len() {
        proof {
            assert(strings_view(a@).len() != strings_view(b@).len());
        }
        return false;
    }
    let mut i: usize = 0;
    while i < a.len()
        invariant
            i <= a.len(),
            a@.len() == b@.len(),
            forall|k: int| 0 <= k < i ==> (#[trigger] a@[k])@ == b@[k]@,
        decreases a.len() - i,
    {
        if a[i] != b[i] {
            proof {
                assert(strings_view(a@)[i as int] != strings_view(b@)[i as int]);
            }
            return false;
        }
        i = i + 1;
    }
    proof {
        assert(strings_view(a@) =~= strings_view(b@));
    }
    true
}

fn same_name(a: &Option<String>, b: &Option<String>) -> (r: bool)
    ensures
        r == (name_view(*a) == name_view(*b)),
{
    match (a, b) {
        (Some(x), Some(y)) => *x == *y,
        (None, None) => true,
        _ => false,
    }
}

/// Whether two sequences of values have equal models.
pub fn same_values(a: &Vec<Value>, b: &Vec<Value>) -> (r: bool)
    ensures
        r == (values_view(a@) == values_view(b@)),
    decreases a,
{
    proof {
        lemma_values_view(a@);
        lemma_values_view(b@);
    }
    if a.len() != b.len() {
        return false;
    }
    let mut i: usize = 0;
    while i < a.len()
        invariant
            i <= a.len(),
            a@.len() == b@.len(),
            values_view(a@).len() == a@.len(),
            values_view(b@).len() == b@.len(),
            forall|k: int| 0 <= k < a@.len() ==> #[trigger] values_view(a@)[k] == value_view(a@[k]),
            forall|k: int| 0 <= k < b@.len() ==> #[trigger] values_view(b@)[k] == value_view(b@[k]),
            forall|k: int| 0 <= k < i ==> value_view(#[trigger] a@[k]) == value_view(b@[k]),
        decreases a.len() - i,
    {
        proof {
            vstd::std_specs::vec::axiom_vec_index_decreases(*a, i as int);
        }
        if !same_value(&a[i], &b[i]) {
            proof {
                assert(values_view(a@)[i as int] != values_view(b@)[i as int]);
            }
            return false;
        }
        i = i + 1;
    }
    proof {
        assert(values_view(a@) =~= values_view(b@));
    }
    true
}

/// Whether two closures agree in name, parameters and body; with
/// `with_scope`, also in their defining scope.
fn same_closure(a: &Closure, b: &Closure, with_scope: bool) -> (r: bool)
    ensures
        r == (name_view(a.name) == name_view(b.name) && strings_view(a.params@) == strings_view(b.params@)
            && values_view(a.body@) == values_view(b.body@) && (with_scope ==> a.environment == b.environment)),
    decreases a, 0int,
{
    same_name(&a.name, &b.name) && same_strings(&a.params, &b.params) && same_values(&a.body, &b.body)
        && (!with_scope || a.environment == b.environment)
}

/// Whether two values have equal models.
pub fn same_value(a: &Value, b: &Value) -> (r: bool)
    ensures
        r == (a@ == b@),
    decreases a,
{
    match (a, b) {
        (Value::Void, Value::Void) => true,
        (Value::Numeric(x), Value::Numeric(y)) => x.same(y),
        (Value::Bool(x), Value::Bool(y)) => *x == *y,
        (Value::Symbol(x), Value::Symbol(y)) => *x == *y,
        (Value::String(x), Value::String(y)) => *x == *y,
        (Value::List(x), Value::List(y)) => same_values(x, y),
        (Value::Quoted(x), Value::Quoted(y)) => same_value(&**x, &**y),
        (Value::Keyword(x), Value::Keyword(y)) => *x == *y,
        (Value::Closure(x), Value::Closure(y)) => {
            proof {
                assert(a@ == Val::Closure(closure_view(*x)));
                assert(b@ == Val::Closure(closure_view(*y)));
            }
            same_closure(x, y, true)
        },
        (Value::TailCall(x), Value::TailCall(y)) => {
            proof {
                assert(a@ == Val::TailCall(tail_call_view(*x)));
                assert(b@ == Val::TailCall(tail_call_view(*y)));
                assert(tail_call_view(*x).closure == closure_view(x.closure));
                assert(tail_call_view(*y).closure == closure_view(y.closure));
            }
            same_closure(&x.closure, &y.closure, true) && same_values(&x.updates, &y.updates)
                && same_value(&*x.break_condition, &*y.break_condition) && same_value(&*x.return_expr, &*y.return_expr)
        },
        (Value::InternalFunction(x), Value::InternalFunction(y)) => x.name == y.name && x.function == y.function,
        _ => false,
    }
}

/// Closures are equal when their names, parameters and bodies are: the scope
/// they were defined in takes no part.
impl PartialEq for Closure {
    fn eq(&self, other: &Closure) -> (r: bool)
        ensures
            r == (name_view(self.name) == name_view(other.name) && strings_view(self.params@) == strings_view(
                other.params@,
            ) && values_view(self.body@) == values_view(other.body@)),
    {
        same_closure(self, other, false)
    }
}

impl vstd::std_specs::cmp::PartialEqSpecImpl for Closure {
    open spec fn obeys_eq_spec() -> bool {
        true
    }

    open spec fn eq_spec(&self, other: &Closure) -> bool {
        name_view(self.name) == name_view(other.name) && strings_view(self.params@) == strings_view(other.params@)
            && values_view(self.body@) == values_view(other.body@)
    }
}

} // verus!
