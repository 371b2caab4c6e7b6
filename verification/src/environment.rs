//! Lexically scoped environments.
//!
//! Scopes live in an arena and name their enclosing scope by index, so the
//! same scope can be held at once by the evaluator, by closures, and by
//! inner scopes: a binding written through any of them is seen through all.
//! `define` writes the local scope, `get` and `assign` walk outward; only
//! `assign` to a name bound nowhere fails.

use vstd::prelude::*;
use crate::interpreter::{RuntimeError, Value, ValueV, value_view};
use crate::parser::{Statement, clone_statement, copy_bytes};

verus! {

/// One scope: its bindings, newest last, and its enclosing scope.
#[derive(Debug, PartialEq)]
pub struct Environment {
    pub bindings: Vec<(Vec<u8>, Value)>,
    pub enclosing: Option<usize>,
}

/// The scope arena.
#[derive(Debug, PartialEq)]
pub struct Environments {
    pub envs: Vec<Environment>,
}

/// Mathematical image of one scope.
#[verifier::ext_equal]
pub struct EnvV {
    pub bindings: Seq<(Seq<u8>, ValueV)>,
    pub enclosing: Option<int>,
}

/// The image of one scope.
pub open spec fn env_view(e: Environment) -> EnvV {
    EnvV {
        bindings: Seq::new(e.bindings@.len(), |i: int| (e.bindings@[i].0@, value_view(
            e.bindings@[i].1,
        ))),
        enclosing: match e.enclosing {
            Option::Some(j) => Option::Some(j as int),
            Option::None => Option::None,
        },
    }
}

/// The image of the arena.
pub open spec fn envs_view(s: Seq<Environment>) -> Seq<EnvV> {
    Seq::new(s.len(), |i: int| env_view(s[i]))
}

/// Every scope's enclosing index points at an older scope, so chains end.
pub open spec fn envs_wf(s: Seq<EnvV>) -> bool {
    forall|i: int|
        0 <= i < s.len() ==> ((#[trigger] s[i].enclosing) is Some ==> 0 <= s[i].enclosing->0 < i)
}

/// The newest binding of `name` in one scope.
pub open spec fn lookup_local(b: Seq<(Seq<u8>, ValueV)>, name: Seq<u8>) -> Option<ValueV>
    decreases b.len(),
{
    if b.len() == 0 {
        Option::None
    } else if b.last().0 == name {
        Option::Some(b.last().1)
    } else {
        lookup_local(b.drop_last(), name)
    }
}

/// The value of `name` seen from scope `id`: the innermost scope that binds
/// it wins.
pub open spec fn env_get(envs: Seq<EnvV>, id: int, name: Seq<u8>) -> Option<ValueV>
    decreases id,
{
    if !(0 <= id < envs.len()) {
        Option::None
    } else {
        match lookup_local(envs[id].bindings, name) {
            Option::Some(v) => Option::Some(v),
            Option::None => match envs[id].enclosing {
                Option::None => Option::None,
                Option::Some(j) => if 0 <= j < id {
                    env_get(envs, j, name)
                } else {
                    Option::None
                },
            },
        }
    }
}

/// Overwrite `name` in the innermost scope, from `id` outward, that binds
/// it; `None` when no scope does.
pub open spec fn env_assign(envs: Seq<EnvV>, id: int, name: Seq<u8>, v: ValueV) -> Option<
    Seq<EnvV>,
>
    decreases id,
{
    if !(0 <= id < envs.len()) {
        Option::None
    } else if lookup_local(envs[id].bindings, name) is Some {
        Option::Some(
            envs.update(
                id,
                EnvV {
                    bindings: envs[id].bindings.push((name, v)),
                    enclosing: envs[id].enclosing,
                },
            ),
        )
    } else {
        match envs[id].enclosing {
            Option::None => Option::None,
            Option::Some(j) => if 0 <= j < id {
                env_assign(envs, j, name, v)
            } else {
                Option::None
            },
        }
    }
}

impl Environments {
    /// The image of the arena.
    pub open spec fn view_envs(self) -> Seq<EnvV> {
        envs_view(self.envs@)
    }

    /// Enclosing indices point at older scopes.
    pub open spec fn wf(self) -> bool {
        envs_wf(self.view_envs())
    }

    /// An empty arena.
    pub fn new() -> (r: Environments)
        ensures
            r.wf(),
            r.view_envs() == Seq::<EnvV>::empty(),
    {
        let r = Environments { envs: Vec::new() };
        proof {
            assert(r.view_envs() =~= Seq::<EnvV>::empty());
        }
        r
    }

    /// A fresh scope with no enclosing scope; its index is returned.
    pub fn new_env(&mut self) -> (id: usize)
        requires
            old(self).wf(),
        ensures
            final(self).wf(),
            id == old(self).view_envs().len(),
            final(self).view_envs() == old(self).view_envs().push(
                EnvV { bindings: Seq::empty(), enclosing: Option::None },
            ),
    {
        let id = self.envs.len();
        self.envs.push(Environment { bindings: Vec::new(), enclosing: Option::None });
        proof {
            assert(self.view_envs() =~~= old(self).view_envs().push(
                EnvV { bindings: Seq::empty(), enclosing: Option::None },
            ));
        }
        id
    }

    /// A fresh scope inside the scope `enclosing`; its index is returned.
    pub fn new_with_enclosing(&mut self, enclosing: usize) -> (id: usize)
        requires
            old(self).wf(),
            enclosing < old(self).view_envs().len(),
        ensures
            final(self).wf(),
            id == old(self).view_envs().len(),
            final(self).view_envs() == old(self).view_envs().push(
                EnvV { bindings: Seq::empty(), enclosing: Option::Some(enclosing as int) },
            ),
    {
        let id = self.envs.len();
        self.envs.push(Environment { bindings: Vec::new(), enclosing: Option::Some(enclosing) });
        proof {
            assert(self.view_envs() =~~= old(self).view_envs().push(
                EnvV { bindings: Seq::empty(), enclosing: Option::Some(enclosing as int) },
            ));
        }
        id
    }

    /// Bind `name` in the scope `env`; a newer binding shadows an older one
    /// of the same name there.
    pub fn define(&mut self, env: usize, name: Vec<u8>, value: Value)
        requires
            old(self).wf(),
            env < old(self).view_envs().len(),
        ensures
            final(self).wf(),
            final(self).view_envs() == old(self).view_envs().update(
                env as int,
                EnvV {
                    bindings: old(self).view_envs()[env as int].bindings.push(
                        (name@, value_view(value)),
                    ),
                    enclosing: old(self).view_envs()[env as int].enclosing,
                },
            ),
    {
        let ghost target = old(self).view_envs().update(
            env as int,
            EnvV {
                bindings: old(self).view_envs()[env as int].bindings.push(
                    (name@, value_view(value)),
                ),
                enclosing: old(self).view_envs()[env as int].enclosing,
            },
        );
        let mut e = self.envs.remove(env);
        e.bindings.push((name, value));
        self.envs.insert(env, e);
        proof {
            assert(self.envs@ =~= old(self).envs@.update(env as int, self.envs@[env as int]));
            assert(env_view(self.envs@[env as int]).bindings =~~= old(self).view_envs()[
                env as int].bindings.push((name@, value_view(value))));
            assert(self.view_envs() =~~= target);
        }
    }

    /// The value of `name` seen from the scope `env`, walking outward; the
    /// returned copy's image equals the binding's.
    pub fn get(&self, env: usize, name: &Vec<u8>) -> (r: Option<Value>)
        requires
            self.wf(),
            env < self.view_envs().len(),
        ensures
            match r {
                Option::Some(v) => env_get(self.view_envs(), env as int, name@)
                    == Option::Some(value_view(v)),
                Option::None => env_get(self.view_envs(), env as int, name@) is None,
            },
    {
        let mut id = env;
        loop
            invariant
                self.wf(),
                id < self.view_envs().len(),
                env_get(self.view_envs(), env as int, name@) == env_get(
                    self.view_envs(),
                    id as int,
                    name@,
                ),
            decreases id,
        {
            if self.has_local(id, name) {
                let v = self.local_get(id, name);
                return Option::Some(v);
            }
            match self.envs[id].enclosing {
                Option::Some(j) => {
                    proof {
                        assert(self.view_envs()[id as int].enclosing == Option::Some(j as int));
                    }
                    id = j;
                },
                Option::None => {
                    proof {
                        assert(self.view_envs()[id as int].enclosing is None);
                    }
                    return Option::None;
                },
            }
        }
    }

    /// The newest local binding of `name` in the scope `id`.
    fn local_get(&self, id: usize, name: &Vec<u8>) -> (r: Value)
        requires
            self.wf(),
            id < self.view_envs().len(),
            lookup_local(self.view_envs()[id as int].bindings, name@) is Some,
        ensures
            lookup_local(self.view_envs()[id as int].bindings, name@) == Option::Some(
                value_view(r),
            ),
    {
        let b = &self.envs[id].bindings;
        let mut k = b.len();
        proof {
            let bv = env_view(self.envs@[id as int]).bindings;
            assert(bv.subrange(0, bv.len() as int) =~= bv);
        }
        loop
            invariant
                0 < k <= b@.len() || (k <= b@.len() && lookup_local(
                    env_view(self.envs@[id as int]).bindings.subrange(0, k as int),
                    name@,
                ) is Some),
                k <= b@.len(),
                b == &self.envs@[id as int].bindings,
                id < self.view_envs().len(),
                lookup_local(env_view(self.envs@[id as int]).bindings, name@) == lookup_local(
                    env_view(self.envs@[id as int]).bindings.subrange(0, k as int),
                    name@,
                ),
                lookup_local(env_view(self.envs@[id as int]).bindings, name@) is Some,
            decreases k,
        {
            proof {
                let bv = env_view(self.envs@[id as int]).bindings;
                if k == 0 {
                    assert(bv.subrange(0, 0) =~= Seq::<(Seq<u8>, ValueV)>::empty());
                    assert(false);
                }
            }
            if bytes_eq(&b[k - 1].0, name) {
                proof {
                    let bv = env_view(self.envs@[id as int]).bindings;
                    assert(bv.subrange(0, k as int).last() == bv[k - 1]);
                    assert(bv[k - 1].0 == b@[k - 1].0@);
                    assert(bv[k - 1].1 == value_view(b@[k - 1].1));
                }
                return clone_value(&b[k - 1].1);
            }
            proof {
                let bv = env_view(self.envs@[id as int]).bindings;
                assert(bv.subrange(0, k as int).drop_last() =~= bv.subrange(0, k - 1));
                assert(bv.subrange(0, k as int).last().0 == b@[k - 1].0@);
            }
            k = k - 1;
        }
    }

    /// Overwrite `name` in the innermost scope, from `env` outward, that
    /// binds it; `UndefinedVariable` when no scope does.
    pub fn assign(&mut self, env: usize, name: &Vec<u8>, value: Value) -> (r: Result<
        (),
        RuntimeError,
    >)
        requires
            old(self).wf(),
            env < old(self).view_envs().len(),
        ensures
            final(self).wf(),
            final(self).view_envs().len() == old(self).view_envs().len(),
            match r {
                Ok(_) => env_assign(old(self).view_envs(), env as int, name@, value_view(value))
                    == Option::Some(final(self).view_envs()),
                Err(e) => {
                    &&& env_assign(old(self).view_envs(), env as int, name@, value_view(value))
                        is None
                    &&& final(self).view_envs() == old(self).view_envs()
                    &&& crate::interpreter::err_view(e) == crate::interpreter::ErrV::UndefinedVariable(
                        name@,
                    )
                },
            },
    {
        let dest = self.find_binding(env, name);
        match dest {
            Option::Some(id) => {
                self.define(id, copy_bytes(name), value);
                Ok(())
            },
            Option::None => {
                Err(RuntimeError::UndefinedVariable(copy_bytes(name)))
            },
        }
    }

    /// The innermost scope, from `env` outward, with a binding for `name`.
    fn find_binding(&self, env: usize, name: &Vec<u8>) -> (r: Option<usize>)
        requires
            self.wf(),
            env < self.view_envs().len(),
        ensures
            match r {
                Option::Some(id) => {
                    &&& id < self.view_envs().len()
                    &&& lookup_local(self.view_envs()[id as int].bindings, name@) is Some
                    &&& forall|v: ValueV|
                        env_assign(self.view_envs(), env as int, name@, v) == Option::Some(
                            self.view_envs().update(
                                id as int,
                                EnvV {
                                    bindings: self.view_envs()[id as int].bindings.push(
                                        (name@, v),
                                    ),
                                    enclosing: self.view_envs()[id as int].enclosing,
                                },
                            ),
                        )
                },
                Option::None => forall|v: ValueV|
                    env_assign(self.view_envs(), env as int, name@, v) is None,
            },
    {
        let mut id = env;
        loop
            invariant
                self.wf(),
                id < self.view_envs().len(),
                forall|v: ValueV|
                    env_assign(self.view_envs(), env as int, name@, v) == env_assign(
                        self.view_envs(),
                        id as int,
                        name@,
                        v,
                    ),
            decreases id,
        {
            if self.has_local(id, name) {
                return Option::Some(id);
            }
            match self.envs[id].enclosing {
                Option::Some(j) => {
                    proof {
                        assert(self.view_envs()[id as int].enclosing == Option::Some(j as int));
                    }
                    id = j;
                },
                Option::None => {
                    return Option::None;
                },
            }
        }
    }

    /// Whether the scope `id` itself binds `name`.
    fn has_local(&self, id: usize, name: &Vec<u8>) -> (r: bool)
        requires
            self.wf(),
            id < self.view_envs().len(),
        ensures
            r == (lookup_local(self.view_envs()[id as int].bindings, name@) is Some),
    {
        let b = &self.envs[id].bindings;
        let mut k = b.len();
        proof {
            let bv = env_view(self.envs@[id as int]).bindings;
            assert(bv.subrange(0, bv.len() as int) =~= bv);
        }
        while k > 0
            invariant
                k <= b@.len(),
                b == &self.envs@[id as int].bindings,
                id < self.view_envs().len(),
                (lookup_local(env_view(self.envs@[id as int]).bindings, name@) is Some)
                    == (lookup_local(
                    env_view(self.envs@[id as int]).bindings.subrange(0, k as int),
                    name@,
                ) is Some),
            decreases k,
        {
            if bytes_eq(&b[k - 1].0, name) {
                proof {
                    let bv = env_view(self.envs@[id as int]).bindings;
                    assert(bv.subrange(0, k as int).last().0 == b@[k - 1].0@);
                }
                return true;
            }
            proof {
                let bv = env_view(self.envs@[id as int]).bindings;
                assert(bv.subrange(0, k as int).drop_last() =~= bv.subrange(0, k - 1));
                assert(bv.subrange(0, k as int).last().0 == b@[k - 1].0@);
            }
            k = k - 1;
        }
        proof {
            assert(env_view(self.envs@[id as int]).bindings.subrange(0, 0) =~= Seq::<
                (Seq<u8>, ValueV),
            >::empty());
        }
        false
    }
}

/// Byte-wise equality of two vectors.
pub fn bytes_eq(a: &Vec<u8>, b: &Vec<u8>) -> (r: bool)
    ensures
        r == (a@ == b@),
{
    if a.len() != b.len() {
        return false;
    }
    let mut m: usize = 0;
    while m < a.len()
        invariant
            m <= a@.len(),
            a@.len() == b@.len(),
            a@.subrange(0, m as int) =~= b@.subrange(0, m as int),
        decreases a@.len() - m,
    {
        if a[m] != b[m] {
            return false;
        }
        proof {
            assert(a@.subrange(0, m + 1) =~= a@.subrange(0, m as int) + seq![a@[m as int]]);
            assert(b@.subrange(0, m + 1) =~= b@.subrange(0, m as int) + seq![b@[m as int]]);
        }
        m = m + 1;
    }
    proof {
        assert(a@.subrange(0, a@.len() as int) =~= a@);
        assert(b@.subrange(0, b@.len() as int) =~= b@);
    }
    true
}

/// A successful assignment never changes the arena's length.
pub proof fn lemma_env_assign_len(envs: Seq<EnvV>, id: int, name: Seq<u8>, v: ValueV)
    ensures
        env_assign(envs, id, name, v) matches Option::Some(s2) ==> s2.len() == envs.len(),
    decreases id,
{
    if 0 <= id < envs.len() && !(lookup_local(envs[id].bindings, name) is Some) {
        match envs[id].enclosing {
            Option::Some(j) => {
                if 0 <= j < id {
                    lemma_env_assign_len(envs, j, name, v);
                }
            },
            Option::None => {},
        }
    }
}

/// A successful assignment touches only scopes at or below the starting
/// one.
pub proof fn lemma_env_assign_above(envs: Seq<EnvV>, id: int, name: Seq<u8>, v: ValueV)
    ensures
        env_assign(envs, id, name, v) matches Option::Some(s2) ==> s2.len() == envs.len()
            && (forall|m: int| id < m < envs.len() ==> s2[m] == envs[m]),
    decreases id,
{
    if 0 <= id < envs.len() && !(lookup_local(envs[id].bindings, name) is Some) {
        match envs[id].enclosing {
            Option::Some(j) => {
                if 0 <= j < id {
                    lemma_env_assign_above(envs, j, name, v);
                }
            },
            Option::None => {},
        }
    }
}

/// Law: a binding written through one holder of a scope is seen through
/// every other holder. After `assign` succeeds from scope `id`, `get` from
/// that same scope returns the assigned value; since the closure of a
/// function and the evaluator's current scope walk the same chain, a
/// closure observes mutations of its captured bindings, and its own
/// mutations are observed outside.
pub proof fn lemma_assign_then_get(envs: Seq<EnvV>, id: int, name: Seq<u8>, v: ValueV)
    ensures
        env_assign(envs, id, name, v) matches Option::Some(s2) ==> env_get(s2, id, name)
            == Option::Some(v),
    decreases id,
{
    if 0 <= id < envs.len() {
        if lookup_local(envs[id].bindings, name) is Some {
            let s2 = envs.update(
                id,
                EnvV {
                    bindings: envs[id].bindings.push((name, v)),
                    enclosing: envs[id].enclosing,
                },
            );
            assert(s2[id].bindings.last() == (name, v));
            assert(lookup_local(s2[id].bindings, name) == Option::Some(v));
        } else {
            match envs[id].enclosing {
                Option::Some(j) => {
                    if 0 <= j < id {
                        lemma_assign_then_get(envs, j, name, v);
                        lemma_env_assign_above(envs, j, name, v);
                        match env_assign(envs, j, name, v) {
                            Option::Some(s2) => {
                                assert(s2[id] == envs[id]);
                                assert(lookup_local(s2[id].bindings, name) is None);
                                assert(env_get(s2, id, name) == env_get(s2, j, name));
                            },
                            Option::None => {},
                        }
                    }
                },
                Option::None => {},
            }
        }
    }
}

/// Copy of a value. A function value's body is shared structure at the
/// mathematical level, so the copy's image equals the original's.
pub fn clone_value(v: &Value) -> (r: Value)
    ensures
        value_view(r) == value_view(*v),
{
    match v {
        Value::Number(x) => Value::Number(*x),
        Value::String(s) => Value::String(copy_bytes(s)),
        Value::Bool(b) => Value::Bool(*b),
        Value::Nil => Value::Nil,
        Value::NativeFunction(nf) => Value::NativeFunction(
            crate::interpreter::NativeFunction { name: copy_bytes(&nf.name) },
        ),
        Value::Function { name, params, body, closure } => {
            let mut ps: Vec<Vec<u8>> = Vec::new();
            let mut i: usize = 0;
            while i < params.len()
                invariant
                    i <= params@.len(),
                    crate::interpreter::names_view(ps@) == crate::interpreter::names_view(
                        params@.subrange(0, i as int),
                    ),
                decreases params@.len() - i,
            {
                let ghost pre = ps@;
                let cp = copy_bytes(&params[i]);
                ps.push(cp);
                i = i + 1;
                proof {
                    assert(ps@ =~= pre.push(cp));
                    assert(params@.subrange(0, i as int) =~= params@.subrange(0, i - 1).push(
                        params@[i - 1],
                    ));
                    assert(crate::interpreter::names_view(pre.push(cp))
                        =~= crate::interpreter::names_view(pre).push(cp@));
                    assert(crate::interpreter::names_view(params@.subrange(0, i - 1).push(
                        params@[i - 1],
                    )) =~= crate::interpreter::names_view(params@.subrange(0, i - 1)).push(
                        params@[i - 1]@,
                    ));
                    assert(crate::interpreter::names_view(ps@) =~= crate::interpreter::names_view(
                        params@.subrange(0, i as int),
                    ));
                }
            }
            let mut bs: Vec<Statement> = Vec::new();
            let mut j: usize = 0;
            while j < body.len()
                invariant
                    j <= body@.len(),
                    crate::parser::stmts_view(bs@) == crate::parser::stmts_view(
                        body@.subrange(0, j as int),
                    ),
                decreases body@.len() - j,
            {
                let s = clone_statement(&body[j]);
                let ghost pre = bs@;
                bs.push(s);
                j = j + 1;
                proof {
                    assert(bs@ =~= pre.push(s));
                    crate::parser::lemma_stmts_view_push(pre, s);
                    assert(body@.subrange(0, j as int) =~= body@.subrange(0, j - 1).push(
                        body@[j - 1],
                    ));
                    crate::parser::lemma_stmts_view_push(body@.subrange(0, j - 1), body@[j - 1]);
                    assert(crate::parser::stmts_view(bs@) =~= crate::parser::stmts_view(
                        body@.subrange(0, j as int),
                    ));
                }
            }
            proof {
                assert(params@.subrange(0, params@.len() as int) =~= params@);
                assert(body@.subrange(0, body@.len() as int) =~= body@);
            }
            Value::Function { name: copy_bytes(name), params: ps, body: bs, closure: *closure }
        },
    }
}

} // verus!
