//! The environment: a stack of scopes, each a mapping from names to values.
//! The innermost scope is the last element; lookup walks from innermost to
//! outermost.

use vstd::prelude::*;

use crate::evaluate::{Value, ValueModel};
use crate::token::str_eq;

verus! {

use vstd::string::StringExecFns;

/// One scope holds its bindings in order; the latest binding of a name wins.
pub type Scope = Vec<(String, Value)>;

/// The mapping a scope denotes: later entries override earlier ones.
pub open spec fn scope_map(s: Seq<(String, Value)>) -> Map<Seq<char>, ValueModel>
    decreases s.len(),
{
    if s.len() == 0 {
        Map::empty()
    } else {
        scope_map(s.drop_last()).insert(s.last().0@, s.last().1@)
    }
}

/// The value of a name in a scope stack: the innermost scope that binds it
/// wins; `None` when no scope does.
pub open spec fn lookup_scopes(
    scopes: Seq<Map<Seq<char>, ValueModel>>,
    name: Seq<char>,
) -> Option<ValueModel>
    decreases scopes.len(),
{
    if scopes.len() == 0 {
        None
    } else if scopes.last().contains_key(name) {
        Some(scopes.last()[name])
    } else {
        lookup_scopes(scopes.drop_last(), name)
    }
}

/// The scope stack after assigning to a name: the innermost scope that binds
/// it is updated; `None` when no scope binds it.
pub open spec fn assign_scopes(
    scopes: Seq<Map<Seq<char>, ValueModel>>,
    name: Seq<char>,
    v: ValueModel,
) -> Option<Seq<Map<Seq<char>, ValueModel>>>
    decreases scopes.len(),
{
    if scopes.len() == 0 {
        None
    } else if scopes.last().contains_key(name) {
        Some(scopes.drop_last().push(scopes.last().insert(name, v)))
    } else {
        match assign_scopes(scopes.drop_last(), name, v) {
            Some(rest) => Some(rest.push(scopes.last())),
            None => None,
        }
    }
}

/// A stack of scopes; the global scope sits at the bottom and is never
/// popped.
#[derive(Debug)]
pub struct Environment {
    pub stack: Vec<Scope>,
}

impl View for Environment {
    type V = Seq<Map<Seq<char>, ValueModel>>;

    open spec fn view(&self) -> Seq<Map<Seq<char>, ValueModel>> {
        Seq::new(self.stack@.len(), |i: int| scope_map(self.stack@[i]@))
    }
}

/// Skipping an entry whose name differs does not change what a scope binds.
proof fn lemma_scope_map_prefix(s: Seq<(String, Value)>, i: int, name: Seq<char>)
    requires
        0 <= i <= s.len(),
        forall|k: int| i <= k < s.len() ==> (#[trigger] s[k].0)@ != name,
    ensures
        scope_map(s).contains_key(name) == scope_map(s.subrange(0, i)).contains_key(name),
        scope_map(s).contains_key(name) ==> scope_map(s)[name] == scope_map(s.subrange(0, i))[name],
    decreases s.len() - i,
{
    if i < s.len() {
        let d = s.drop_last();
        assert(s[s.len() - 1].0@ != name);
        assert(s.last() == s[s.len() - 1]);
        assert forall|k: int| i <= k < d.len() implies (#[trigger] d[k].0)@ != name by {
            assert(d[k] == s[k]);
        }
        lemma_scope_map_prefix(d, i, name);
        assert(d.subrange(0, i) =~= s.subrange(0, i));
    } else {
        assert(s.subrange(0, i) =~= s);
    }
}

/// Search one scope from its youngest binding backwards.
fn scope_get<'a>(scope: &'a Scope, name: &str) -> (r: Option<&'a Value>)
    ensures
        match r {
            Some(v) => scope_map(scope@).contains_key(name@) && v@ == scope_map(scope@)[name@],
            None => !scope_map(scope@).contains_key(name@),
        },
{
    let mut i: usize = scope.len();
    while i > 0
        invariant
            i <= scope@.len(),
            forall|k: int| i <= k < scope@.len() ==> (#[trigger] scope@[k].0)@ != name@,
        decreases i,
    {
        i = i - 1;
        if str_eq(scope[i].0.as_str(), name) {
            proof {
                lemma_scope_map_prefix(scope@, i + 1, name@);
                assert(scope@.subrange(0, i + 1).drop_last() =~= scope@.subrange(0, i as int));
                assert(scope@.subrange(0, i + 1).last() == scope@[i as int]);
            }
            return Some(&scope[i].1);
        }
    }
    proof {
        lemma_scope_map_prefix(scope@, 0, name@);
        assert(scope@.subrange(0, 0) =~= Seq::<(String, Value)>::empty());
    }
    None
}

impl Environment {
    /// A fresh environment holding just the empty global scope.
    pub fn new() -> (r: Self)
        ensures
            r@ =~= seq![Map::<Seq<char>, ValueModel>::empty()],
    {
        let mut stack: Vec<Scope> = Vec::new();
        stack.push(Vec::new());
        Environment { stack }
    }

    /// Push a new empty scope; it becomes the innermost.
    pub fn push_scope(&mut self)
        ensures
            final(self)@ =~= old(self)@.push(Map::empty()),
    {
        let ghost pre = *self;
        self.stack.push(Vec::new());
        proof {
            assert forall|i: int| 0 <= i < pre@.len() implies self@[i] == pre@[i] by {}
        }
    }

    /// Discard the innermost scope; the global scope stays.
    pub fn pop(&mut self)
        requires
            old(self)@.len() >= 2,
        ensures
            final(self)@ =~= old(self)@.drop_last(),
    {
        let _ = self.stack.pop();
    }

    /// A child environment: a snapshot of this one with one more empty scope
    /// on top.
    pub fn new_child(env: &Environment) -> (r: Self)
        ensures
            r@ =~= env@.push(Map::empty()),
    {
        let mut stack: Vec<Scope> = Vec::new();
        let mut i: usize = 0;
        while i < env.stack.len()
            invariant
                i <= env.stack@.len(),
                stack@.len() == i as int,
                forall|k: int| 0 <= k < i ==> scope_map(#[trigger] stack@[k]@) == scope_map(
                    env.stack@[k]@,
                ),
            decreases env.stack@.len() - i,
        {
            let src_scope = &env.stack[i];
            let mut copy: Scope = Vec::new();
            let mut j: usize = 0;
            while j < src_scope.len()
                invariant
                    j <= src_scope@.len(),
                    copy@.len() == j as int,
                    forall|k: int|
                        0 <= k < j ==> (#[trigger] copy@[k]).0@ == src_scope@[k].0@ && copy@[k].1@
                            == src_scope@[k].1@,
                decreases src_scope@.len() - j,
            {
                let name = src_scope[j].0.clone();
                let value = src_scope[j].1.clone();
                copy.push((name, value));
                j = j + 1;
            }
            proof {
                lemma_scope_map_congruent(copy@, src_scope@);
            }
            stack.push(copy);
            i = i + 1;
        }
        stack.push(Vec::new());
        let r = Environment { stack };
        proof {
            assert forall|k: int| 0 <= k < env@.len() implies r@[k] == env@[k] by {}
        }
        r
    }

    /// Bind a name in the innermost scope, shadowing any outer binding.
    pub fn define(&mut self, name: String, value: Value)
        requires
            old(self)@.len() >= 1,
        ensures
            final(self)@ =~= old(self)@.update(
                old(self)@.len() - 1,
                old(self)@.last().insert(name@, value@),
            ),
    {
        let ghost pre = *self;
        let n = self.stack.len();
        let top = &mut self.stack[n - 1];
        top.push((name, value));
        proof {
            assert(self.stack@[n - 1]@.drop_last() =~= pre.stack@[n - 1]@);
            assert forall|i: int| 0 <= i < pre@.len() && i != n - 1 implies self@[i] == pre@[i]
                by {}
        }
    }

    /// Look a name up, innermost scope first.
    #[verifier::loop_isolation(false)]
    pub fn get(&self, name: &str) -> (r: Result<Value, String>)
        ensures
            match lookup_scopes(self@, name@) {
                Some(v) => r matches Ok(got) && got@ == v,
                None => r matches Err(m) && m@ == "Undefined variable '"@ + name@ + "'."@,
            },
    {
        let mut i: usize = self.stack.len();
        proof {
            assert(self@.subrange(0, self@.len() as int) =~= self@);
        }
        while i > 0
            invariant
                i <= self.stack@.len(),
                lookup_scopes(self@, name@) == lookup_scopes(
                    self@.subrange(0, i as int),
                    name@,
                ),
            decreases i,
        {
            i = i - 1;
            match scope_get(&self.stack[i], name) {
                Some(v) => {
                    proof {
                        assert(self@.subrange(0, i + 1).last() == self@[i as int]);
                    }
                    return Ok(v.clone());
                },
                None => {
                    proof {
                        assert(self@.subrange(0, i + 1).last() == self@[i as int]);
                        assert(self@.subrange(0, i + 1).drop_last() =~= self@.subrange(
                            0,
                            i as int,
                        ));
                    }
                },
            }
        }
        proof {
            assert(self@.subrange(0, 0) =~= Seq::<Map<Seq<char>, ValueModel>>::empty());
        }
        let mut m = String::from_str("Undefined variable '");
        m.append(name);
        m.append("'.");
        Err(m)
    }

    /// Assign to a name in the innermost scope that binds it; an unbound
    /// name is an error and leaves the environment unchanged.
    #[verifier::loop_isolation(false)]
    pub fn assign(&mut self, name: String, value: Value) -> (r: Result<(), String>)
        ensures
            match assign_scopes(old(self)@, name@, value@) {
                Some(s2) => r is Ok && final(self)@ =~= s2,
                None => (r matches Err(m) && m@ == "Undefined variable '"@ + name@ + "'."@)
                    && final(self)@ =~= old(self)@,
            },
    {
        let ghost env0 = *self;
        let mut i: usize = self.stack.len();
        proof {
            assert(env0@.subrange(0, env0@.len() as int) =~= env0@);
            assert(env0@ + env0@.subrange(env0@.len() as int, env0@.len() as int) =~= env0@);
        }
        while i > 0
            invariant
                i <= self.stack@.len(),
                *self == env0,
                ({
                    let full = assign_scopes(env0@, name@, value@);
                    let part = assign_scopes(env0@.subrange(0, i as int), name@, value@);
                    match part {
                        Some(s2) => full matches Some(f2) && f2 =~= s2 + env0@.subrange(
                            i as int,
                            env0@.len() as int,
                        ),
                        None => full is None,
                    }
                }),
            decreases i,
        {
            i = i - 1;
            let found = {
                let probe = scope_get(&self.stack[i], name.as_str());
                match probe {
                    Some(_) => true,
                    None => false,
                }
            };
            proof {
                assert(env0@.subrange(0, i + 1).last() == env0@[i as int]);
                assert(env0@.subrange(0, i + 1).drop_last() =~= env0@.subrange(0, i as int));
            }
            if found {
                let ghost pre = *self;
                let top = &mut self.stack[i];
                top.push((name, value));
                proof {
                    assert(self.stack@[i as int]@.drop_last() =~= pre.stack@[i as int]@);
                    assert forall|k: int|
                        0 <= k < pre@.len() && k != i implies self@[k] == pre@[k] by {}
                    let f2 = assign_scopes(pre@, name@, value@)->Some_0;
                    assert(self@ =~= f2);
                }
                return Ok(());
            }
        }
        proof {
            assert(self@.subrange(0, 0) =~= Seq::<Map<Seq<char>, ValueModel>>::empty());
        }
        let mut m = String::from_str("Undefined variable '");
        m.append(name.as_str());
        m.append("'.");
        Err(m)
    }
}

/// Scopes whose entries agree name by name and value by value denote the
/// same mapping.
proof fn lemma_scope_map_congruent(a: Seq<(String, Value)>, b: Seq<(String, Value)>)
    requires
        a.len() == b.len(),
        forall|k: int| 0 <= k < a.len() ==> (#[trigger] a[k]).0@ == b[k].0@ && a[k].1@ == b[k].1@,
    ensures
        scope_map(a) == scope_map(b),
    decreases a.len(),
{
    if a.len() > 0 {
        lemma_scope_map_congruent(a.drop_last(), b.drop_last());
        assert(scope_map(a) =~= scope_map(b));
    }
}

} // verus!

verus! {

// --- Laws of scoping --------------------------------------------------------

/// Shadowing: inside a scope that binds a name, lookup yields that binding,
/// whatever any outer scope says of the same name; once the scope is
/// dropped, lookup sees the outer bindings again, exactly as before.
pub proof fn lemma_shadowing(env: Seq<Map<Seq<char>, ValueModel>>, x: Seq<char>, v: ValueModel)
    ensures
        lookup_scopes(env.push(Map::empty().insert(x, v)), x) == Some(v),
        env.push(Map::empty().insert(x, v)).drop_last() == env,
        lookup_scopes(env.push(Map::empty().insert(x, v)).drop_last(), x) == lookup_scopes(env, x),
{
    let pushed = env.push(Map::empty().insert(x, v));
    assert(pushed.last() == Map::empty().insert(x, v));
    assert(pushed.drop_last() =~= env);
}

/// A name the innermost scope does not bind resolves through it, to
/// whatever the outer scopes say.
pub proof fn lemma_lookup_through(
    env: Seq<Map<Seq<char>, ValueModel>>,
    scope: Map<Seq<char>, ValueModel>,
    y: Seq<char>,
)
    requires
        !scope.contains_key(y),
    ensures
        lookup_scopes(env.push(scope), y) == lookup_scopes(env, y),
{
    assert(env.push(scope).drop_last() =~= env);
}

} // verus!
