use crate::error::{error_view, Fault, RuntimeError};
use crate::value::{value_view, Val, Value};
use vstd::prelude::*;

verus! {

/// One name bound to one value.
pub struct Binding {
    pub name: String,
    pub value: Value,
}

/// One scope: its bindings and, except for the top level, its parent scope.
pub struct Scope {
    pub vars: Vec<Binding>,
    pub parent: Option<usize>,
}

/// All scopes of one interpreter, held in an arena and referred to by index.
/// A child scope is pushed after its parent, so a parent's index is always
/// smaller than its child's.
pub struct Environment {
    pub scopes: Vec<Scope>,
}

/// The model of one scope.
pub struct ScopeVal {
    pub vars: Seq<(Seq<char>, Val)>,
    pub parent: Option<usize>,
}

pub open spec fn scope_view(s: Scope) -> ScopeVal {
    ScopeVal {
        vars: s.vars@.map_values(|b: Binding| (b.name@, value_view(b.value))),
        parent: s.parent,
    }
}

impl View for Environment {
    type V = Seq<ScopeVal>;

    open spec fn view(&self) -> Seq<ScopeVal> {
        self.scopes@.map_values(|s: Scope| scope_view(s))
    }
}

/// Every parent link points to an earlier scope.
pub open spec fn env_wf(env: Seq<ScopeVal>) -> bool {
    forall|i: int|
        0 <= i < env.len() && (#[trigger] env[i]).parent is Some ==> env[i].parent->0 < i
}

/// The index of the last binding of `name` in `vars`, or -1.
pub open spec fn last_index(vars: Seq<(Seq<char>, Val)>, name: Seq<char>) -> int
    decreases vars.len(),
{
    if vars.len() == 0 {
        -1
    } else if vars.last().0 == name {
        vars.len() - 1
    } else {
        last_index(vars.drop_last(), name)
    }
}

/// The value that a scope binds to `name`, if any.
pub open spec fn scope_get(vars: Seq<(Seq<char>, Val)>, name: Seq<char>) -> Option<Val> {
    let i = last_index(vars, name);
    if i >= 0 {
        Some(vars[i].1)
    } else {
        None
    }
}

/// Binding `name` in a scope: the existing binding is overwritten, or a new
/// one is added.
pub open spec fn scope_set(vars: Seq<(Seq<char>, Val)>, name: Seq<char>, v: Val) -> Seq<(Seq<char>, Val)> {
    let i = last_index(vars, name);
    if i >= 0 {
        vars.update(i, (name, v))
    } else {
        vars.push((name, v))
    }
}

/// Lookup from scope `s` outward: the innermost binding of `name` wins.
pub open spec fn lookup(env: Seq<ScopeVal>, s: int, name: Seq<char>) -> Option<Val>
    decreases s,
{
    if 0 <= s < env.len() {
        match scope_get(env[s].vars, name) {
            Some(v) => Some(v),
            None => match env[s].parent {
                Some(p) => if 0 <= p < s {
                    lookup(env, p as int, name)
                } else {
                    None
                },
                None => None,
            },
        }
    } else {
        None
    }
}

/// The innermost scope, from `s` outward, that binds `name`, if any.
pub open spec fn defining_scope(env: Seq<ScopeVal>, s: int, name: Seq<char>) -> Option<int>
    decreases s,
{
    if 0 <= s < env.len() {
        if last_index(env[s].vars, name) >= 0 {
            Some(s)
        } else {
            match env[s].parent {
                Some(p) => if 0 <= p < s {
                    defining_scope(env, p as int, name)
                } else {
                    None
                },
                None => None,
            }
        }
    } else {
        None
    }
}

/// The environment after binding `name` to `v` in scope `s`.
pub open spec fn env_set(env: Seq<ScopeVal>, s: int, name: Seq<char>, v: Val) -> Seq<ScopeVal> {
    env.update(s, ScopeVal { vars: scope_set(env[s].vars, name, v), parent: env[s].parent })
}

/// The environment after a new child scope of `parent` is pushed.
pub open spec fn env_extend(env: Seq<ScopeVal>, parent: int) -> Seq<ScopeVal> {
    env.push(ScopeVal { vars: Seq::empty(), parent: Some(parent as usize) })
}

pub proof fn lemma_last_index_bounds(vars: Seq<(Seq<char>, Val)>, name: Seq<char>)
    ensures
        -1 <= last_index(vars, name) < vars.len(),
        last_index(vars, name) >= 0 ==> vars[last_index(vars, name)].0 == name,
        forall|j: int|
            last_index(vars, name) < j < vars.len() ==> (#[trigger] vars[j]).0 != name,
    decreases vars.len(),
{
    if vars.len() > 0 {
        let d = vars.drop_last();
        lemma_last_index_bounds(d, name);
        if vars.last().0 != name {
            assert forall|j: int| last_index(vars, name) < j < vars.len() implies (#[trigger] vars[j]).0 != name by {
                if j < d.len() {
                    assert(vars[j] == d[j]);
                }
            }
        }
    }
}

/// Lookups through scopes that two environments share agree.
pub proof fn lemma_lookup_frame(a: Seq<ScopeVal>, b: Seq<ScopeVal>, s: int, name: Seq<char>)
    requires
        0 <= s < a.len(),
        s < b.len(),
        forall|j: int| 0 <= j <= s ==> a[j] == b[j],
    ensures
        lookup(a, s, name) == lookup(b, s, name),
        defining_scope(a, s, name) == defining_scope(b, s, name),
    decreases s,
{
    match a[s].parent {
        Some(p) => if 0 <= p < s {
            lemma_lookup_frame(a, b, p as int, name);
        },
        None => {},
    }
}

/// An owned copy of a name.
pub fn owned_name(name: &str) -> (r: String)
    ensures
        r@ == name@,
{
    proof {
        broadcast use vstd::string::to_string_from_display_ensures_for_str;
    }
    name.to_string()
}

impl Environment {
    /// An environment that holds one empty top-level scope, at index 0.
    pub fn new() -> (r: Environment)
        ensures
            r@.len() == 1,
            r@[0].vars.len() == 0,
            r@[0].parent is None,
            env_wf(r@),
    {
        let mut scopes: Vec<Scope> = Vec::new();
        scopes.push(Scope { vars: Vec::new(), parent: None });
        let r = Environment { scopes };
        assert(r@[0].vars =~= Seq::empty());
        r
    }

    /// Pushes a new empty scope whose parent is `parent`; returns its index.
    pub fn extend(&mut self, parent: usize) -> (r: usize)
        requires
            env_wf(old(self)@),
            parent < old(self)@.len(),
            old(self)@.len() < usize::MAX,
        ensures
            r == old(self)@.len(),
            final(self)@ == env_extend(old(self)@, parent as int),
            env_wf(final(self)@),
    {
        let ghost before = self@;
        let r = self.scopes.len();
        self.scopes.push(Scope { vars: Vec::new(), parent: Some(parent) });
        proof {
            assert(self@[r as int].vars =~= Seq::empty());
            assert(self@ =~= env_extend(before, parent as int));
        }
        r
    }

    /// The number of scopes.
    pub fn len(&self) -> (r: usize)
        ensures
            r == self@.len(),
    {
        self.scopes.len()
    }

    /// Releases the scopes from index `n` up.
    pub fn truncate(&mut self, n: usize)
        requires
            env_wf(old(self)@),
            n <= old(self)@.len(),
        ensures
            final(self)@ == old(self)@.subrange(0, n as int),
            env_wf(final(self)@),
    {
        let ghost before = self@;
        self.scopes.truncate(n);
        assert(self@ =~= before.subrange(0, n as int));
    }

    /// Whether `scope` names a scope of this environment.
    pub fn resolves(&self, scope: usize) -> (r: bool)
        ensures
            r == (scope < self@.len()),
    {
        scope < self.scopes.len()
    }

    /// The index of the last binding of `name` in scope `s`, if any.
    fn find_in_scope(&self, s: usize, name: &String) -> (r: Option<usize>)
        requires
            s < self@.len(),
        ensures
            match r {
                Some(i) => i == last_index(self@[s as int].vars, name@),
                None => last_index(self@[s as int].vars, name@) == -1,
            },
    {
        let vars = &self.scopes[s].vars;
        let ghost vs = self@[s as int].vars;
        proof { lemma_last_index_bounds(vs, name@); }
        let mut i: usize = vars.len();
        while i > 0
            invariant
                i <= vars@.len(),
                vs == self@[s as int].vars,
                vs == vars@.map_values(|b: Binding| (b.name@, value_view(b.value))),
                forall|j: int| i <= j < vs.len() ==> (#[trigger] vs[j]).0 != name@,
            decreases i,
        {
            assert(vs[i - 1].0 == vars@[i - 1].name@);
            if vars[i - 1].name == *name {
                proof {
                    lemma_last_index_bounds(vs, name@);
                    let li = last_index(vs, name@);
                    assert(vs[i - 1].0 == name@);
                    if li < i - 1 {
                        assert(vs[i - 1].0 != name@);
                    }
                    if li > i - 1 {
                        assert(vs[li].0 != name@);
                    }
                }
                return Some(i - 1);
            }
            i = i - 1;
        }
        proof {
            lemma_last_index_bounds(vs, name@);
            if last_index(vs, name@) >= 0 {
                assert(vs[last_index(vs, name@)].0 != name@);
            }
        }
        None
    }

    /// The value of `name` as seen from `scope`: the innermost binding wins.
    pub fn get(&self, scope: usize, name: &str) -> (r: Option<Value>)
        requires
            env_wf(self@),
        ensures
            match r {
                Some(v) => lookup(self@, scope as int, name@) == Some(v@),
                None => lookup(self@, scope as int, name@) is None,
            },
    {
        if scope >= self.scopes.len() {
            return None;
        }
        let key = owned_name(name);
        let mut cur = scope;
        loop
            invariant
                env_wf(self@),
                key@ == name@,
                cur < self@.len(),
                lookup(self@, scope as int, name@) == lookup(self@, cur as int, name@),
            decreases cur,
        {
            match self.find_in_scope(cur, &key) {
                Some(i) => {
                    proof { lemma_last_index_bounds(self@[cur as int].vars, name@); }
                    return Some(self.scopes[cur].vars[i].value.copy());
                },
                None => {},
            }
            match self.scopes[cur].parent {
                Some(p) => {
                    assert(self@[cur as int].parent == Some(p));
                    cur = p;
                },
                None => {
                    return None;
                },
            }
        }
    }

    /// Binds `name` to `value` in `scope` itself, overwriting a binding of the
    /// same name there.
    pub fn set(&mut self, scope: usize, name: &str, value: Value)
        requires
            env_wf(old(self)@),
            scope < old(self)@.len(),
        ensures
            final(self)@ == env_set(old(self)@, scope as int, name@, value@),
            env_wf(final(self)@),
    {
        let ghost before = self@;
        let ghost vv = value@;
        let key = owned_name(name);
        let found = self.find_in_scope(scope, &key);
        let mut sc = Scope { vars: Vec::new(), parent: None };
        self.scopes.set_and_swap(scope, &mut sc);
        proof { lemma_last_index_bounds(before[scope as int].vars, name@); }
        match found {
            Some(i) => {
                sc.vars.set(i, Binding { name: owned_name(name), value });
            },
            None => {
                sc.vars.push(Binding { name: owned_name(name), value });
            },
        }
        self.scopes.set(scope, sc);
        proof {
            assert(self@[scope as int].vars =~= scope_set(before[scope as int].vars, name@, vv));
            assert(self@ =~= env_set(before, scope as int, name@, vv));
        }
    }

    /// Rebinds an existing variable in the innermost scope, from `scope`
    /// outward, that binds it.
    pub fn update(&mut self, scope: usize, name: &str, value: Value) -> (r: Result<(), RuntimeError>)
        requires
            env_wf(old(self)@),
        ensures
            env_wf(final(self)@),
            match defining_scope(old(self)@, scope as int, name@) {
                Some(d) => r is Ok && final(self)@ == env_set(old(self)@, d, name@, value@),
                None => final(self)@ == old(self)@ && (r matches Err(e) && error_view(e) == Fault::UndefinedVariable(name@)),
            },
    {
        if scope >= self.scopes.len() {
            return Err(RuntimeError::UndefinedVariable(owned_name(name)));
        }
        let key = owned_name(name);
        let mut cur = scope;
        loop
            invariant
                env_wf(self@),
                self@ == old(self)@,
                key@ == name@,
                cur < self@.len(),
                defining_scope(self@, scope as int, name@) == defining_scope(self@, cur as int, name@),
            decreases cur,
        {
            match self.find_in_scope(cur, &key) {
                Some(_) => {
                    self.set(cur, name, value);
                    return Ok(());
                },
                None => {},
            }
            match self.scopes[cur].parent {
                Some(p) => {
                    assert(self@[cur as int].parent == Some(p));
                    cur = p;
                },
                None => {
                    return Err(RuntimeError::UndefinedVariable(owned_name(name)));
                },
            }
        }
    }
}

} // verus!
