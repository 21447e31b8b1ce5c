//! Environments: the chain of variable scopes.
//!
//! All scopes live in one store, the [`Environment`], and an environment
//! handle ([`Env`]) is the index of a scope.  Each scope holds its variable
//! bindings, the names declared `const` in it, and the handle of its
//! enclosing scope, which always comes earlier in the store.  Looking a
//! variable up walks the chain outwards; a child scope of any scope can be
//! made at any time, so functions can keep the scope they were defined in.

use crate::ast::names_view;
use crate::errors::{RuntimeError, SRuntimeError};
use crate::value::{value_ok, SValue, Value};
use vstd::prelude::*;

verus! {

/// A handle to a scope: its index in the [`Environment`].
pub type Env = usize;

/// One scope: its bindings, its constant names and its enclosing scope.
#[derive(Debug)]
pub struct Scope {
    vars: Vec<(String, Value)>,
    consts: Vec<String>,
    parent: Option<Env>,
}

/// The view of a [`Scope`].
pub struct SScope {
    pub vars: Seq<(Seq<char>, SValue)>,
    pub consts: Seq<Seq<char>>,
    pub parent: Option<usize>,
}

/// The views of a scope's bindings.
pub open spec fn vars_view(v: Seq<(String, Value)>) -> Seq<(Seq<char>, SValue)> {
    v.map_values(|p: (String, Value)| (p.0@, p.1@))
}

/// The view of a scope.
pub closed spec fn scope_view(s: Scope) -> SScope {
    SScope { vars: vars_view(s.vars@), consts: names_view(s.consts@), parent: s.parent }
}

/// The store of all scopes.
#[derive(Debug)]
pub struct Environment {
    scopes: Vec<Scope>,
}

impl View for Environment {
    type V = Seq<SScope>;

    closed spec fn view(&self) -> Seq<SScope> {
        self.scopes@.map_values(|s: Scope| scope_view(s))
    }
}

/// Every scope's enclosing scope comes before it.
pub open spec fn scopes_wf(sc: Seq<SScope>) -> bool {
    forall|i: int|
        0 <= i < sc.len() ==> match #[trigger] sc[i].parent {
            Some(p) => p < i,
            None => true,
        }
}

/// Every bound value refers only to existing arrays and functions.
pub open spec fn env_values_ok(sc: Seq<SScope>, arrays: nat, funcs: nat) -> bool {
    forall|i: int, j: int|
        0 <= i < sc.len() && 0 <= j < sc[i].vars.len() ==> value_ok(
            #[trigger] sc[i].vars[j].1,
            arrays,
            funcs,
        )
}

/// The first index at or after `i` of a binding of `name`.
pub open spec fn find_var(vars: Seq<(Seq<char>, SValue)>, name: Seq<char>, i: int) -> Option<int>
    decreases vars.len() - i,
{
    if i < 0 || i >= vars.len() {
        None
    } else if vars[i].0 == name {
        Some(i)
    } else {
        find_var(vars, name, i + 1)
    }
}

/// The value bound to `name` in scope `env` or the nearest enclosing scope
/// that binds it.
pub open spec fn lookup(sc: Seq<SScope>, env: int, name: Seq<char>) -> Option<SValue>
    decreases env,
{
    if env < 0 || env >= sc.len() {
        None
    } else {
        match find_var(sc[env].vars, name, 0) {
            Some(i) => Some(sc[env].vars[i].1),
            None => match sc[env].parent {
                Some(p) => if p < env {
                    lookup(sc, p as int, name)
                } else {
                    None
                },
                None => None,
            },
        }
    }
}

/// Whether `name` is declared `const` in scope `env` or an enclosing scope.
pub open spec fn is_const_spec(sc: Seq<SScope>, env: int, name: Seq<char>) -> bool
    decreases env,
{
    if env < 0 || env >= sc.len() {
        false
    } else if sc[env].consts.contains(name) {
        true
    } else {
        match sc[env].parent {
            Some(p) => p < env && is_const_spec(sc, p as int, name),
            None => false,
        }
    }
}

/// The bindings after binding `name` to `v`: an existing binding of the
/// name is replaced, otherwise the binding is added.
pub open spec fn bind(vars: Seq<(Seq<char>, SValue)>, name: Seq<char>, v: SValue) -> Seq<
    (Seq<char>, SValue),
> {
    match find_var(vars, name, 0) {
        Some(i) => vars.update(i, (name, v)),
        None => vars.push((name, v)),
    }
}

/// The scopes after binding `name` to `v` in scope `env`.
pub open spec fn define_spec(sc: Seq<SScope>, env: int, name: Seq<char>, v: SValue) -> Seq<SScope> {
    sc.update(env, SScope { vars: bind(sc[env].vars, name, v), ..sc[env] })
}

/// The scopes after declaring `name` constant in scope `env` and binding
/// it to `v` there.
pub open spec fn define_const_spec(sc: Seq<SScope>, env: int, name: Seq<char>, v: SValue) -> Seq<
    SScope,
> {
    let consts = if sc[env].consts.contains(name) {
        sc[env].consts
    } else {
        sc[env].consts.push(name)
    };
    sc.update(env, SScope { vars: bind(sc[env].vars, name, v), consts, parent: sc[env].parent })
}

/// Assigning `v` to the existing variable `name`, looked up from scope
/// `env` outwards: it fails if no scope binds the name, or if the scope
/// that binds it finds the name declared `const` in itself or an
/// enclosing scope.
pub open spec fn assign_spec(sc: Seq<SScope>, env: int, name: Seq<char>, v: SValue) -> Result<
    Seq<SScope>,
    SRuntimeError,
>
    decreases env,
{
    if env < 0 || env >= sc.len() {
        Err(SRuntimeError::UndefinedVar(name))
    } else {
        match find_var(sc[env].vars, name, 0) {
            Some(i) => if is_const_spec(sc, env, name) {
                Err(SRuntimeError::ReassignConst(name))
            } else {
                Ok(sc.update(env, SScope { vars: sc[env].vars.update(i, (name, v)), ..sc[env] }))
            },
            None => match sc[env].parent {
                Some(p) => if p < env {
                    assign_spec(sc, p as int, name, v)
                } else {
                    Err(SRuntimeError::UndefinedVar(name))
                },
                None => Err(SRuntimeError::UndefinedVar(name)),
            },
        }
    }
}

/// The scopes after adding an empty child scope of `parent`.
pub open spec fn child_spec(sc: Seq<SScope>, parent: usize) -> Seq<SScope> {
    sc.push(SScope { vars: Seq::empty(), consts: Seq::empty(), parent: Some(parent) })
}

// ─── Lemmas ──────────────────────────────────────────────────

pub proof fn lemma_find_var(vars: Seq<(Seq<char>, SValue)>, name: Seq<char>, i: int)
    requires
        0 <= i,
    ensures
        find_var(vars, name, i) matches Some(k) ==> i <= k < vars.len() && vars[k].0 == name,
        find_var(vars, name, i) is None ==> forall|k: int|
            i <= k < vars.len() ==> #[trigger] vars[k].0 != name,
    decreases vars.len() - i,
{
    if i < vars.len() && vars[i].0 != name {
        lemma_find_var(vars, name, i + 1);
    }
}

/// A looked-up value refers only to existing arrays and functions.
pub proof fn lemma_lookup_ok(sc: Seq<SScope>, env: int, name: Seq<char>, arrays: nat, funcs: nat)
    requires
        env_values_ok(sc, arrays, funcs),
    ensures
        lookup(sc, env, name) matches Some(v) ==> value_ok(v, arrays, funcs),
    decreases env,
{
    if 0 <= env < sc.len() {
        lemma_find_var(sc[env].vars, name, 0);
        match find_var(sc[env].vars, name, 0) {
            Some(i) => {
                assert(value_ok(sc[env].vars[i].1, arrays, funcs));
            },
            None => match sc[env].parent {
                Some(p) => if p < env {
                    lemma_lookup_ok(sc, p as int, name, arrays, funcs);
                },
                None => {},
            },
        }
    }
}

/// Binding a value that refers only to existing arrays and functions keeps
/// every binding so.
pub proof fn lemma_define_ok(sc: Seq<SScope>, env: int, name: Seq<char>, v: SValue, arrays: nat, funcs: nat)
    requires
        env_values_ok(sc, arrays, funcs),
        value_ok(v, arrays, funcs),
        0 <= env < sc.len(),
    ensures
        env_values_ok(define_spec(sc, env, name, v), arrays, funcs),
        env_values_ok(define_const_spec(sc, env, name, v), arrays, funcs),
        define_spec(sc, env, name, v).len() == sc.len(),
        define_const_spec(sc, env, name, v).len() == sc.len(),
        scopes_wf(sc) ==> scopes_wf(define_spec(sc, env, name, v)),
        scopes_wf(sc) ==> scopes_wf(define_const_spec(sc, env, name, v)),
{
    lemma_find_var(sc[env].vars, name, 0);
    let sc2 = define_spec(sc, env, name, v);
    assert forall|i: int, j: int|
        0 <= i < sc2.len() && 0 <= j < sc2[i].vars.len() implies value_ok(
        #[trigger] sc2[i].vars[j].1,
        arrays,
        funcs,
    ) by {
        if i == env {
            let b = bind(sc[env].vars, name, v);
            if j < sc[env].vars.len() && b[j] != (name, v) {
                assert(b[j] == sc[env].vars[j]);
            }
        }
    }
    let sc3 = define_const_spec(sc, env, name, v);
    assert forall|i: int, j: int|
        0 <= i < sc3.len() && 0 <= j < sc3[i].vars.len() implies value_ok(
        #[trigger] sc3[i].vars[j].1,
        arrays,
        funcs,
    ) by {
        if i == env {
            let b = bind(sc[env].vars, name, v);
            if j < sc[env].vars.len() && b[j] != (name, v) {
                assert(b[j] == sc[env].vars[j]);
            }
        }
    }
    if scopes_wf(sc) {
        assert forall|i: int| 0 <= i < sc2.len() implies match #[trigger] sc2[i].parent {
            Some(p) => p < i,
            None => true,
        } by {
            assert(sc[i].parent == sc2[i].parent);
        }
        assert forall|i: int| 0 <= i < sc3.len() implies match #[trigger] sc3[i].parent {
            Some(p) => p < i,
            None => true,
        } by {
            assert(sc[i].parent == sc3[i].parent);
        }
    }
}

/// Assigning a value that refers only to existing arrays and functions
/// keeps every binding so, and keeps the scopes' shape.
pub proof fn lemma_assign_ok(sc: Seq<SScope>, env: int, name: Seq<char>, v: SValue, arrays: nat, funcs: nat)
    requires
        env_values_ok(sc, arrays, funcs),
        value_ok(v, arrays, funcs),
        scopes_wf(sc),
    ensures
        assign_spec(sc, env, name, v) matches Ok(sc2) ==> env_values_ok(sc2, arrays, funcs)
            && scopes_wf(sc2) && sc2.len() == sc.len(),
    decreases env,
{
    if 0 <= env < sc.len() {
        match find_var(sc[env].vars, name, 0) {
            Some(i) => {
                lemma_find_var(sc[env].vars, name, 0);
                if !is_const_spec(sc, env, name) {
                    let sc2 = sc.update(env, SScope { vars: sc[env].vars.update(i, (name, v)), ..sc[env] });
                    assert forall|a: int, b: int|
                        0 <= a < sc2.len() && 0 <= b < sc2[a].vars.len() implies value_ok(
                        #[trigger] sc2[a].vars[b].1,
                        arrays,
                        funcs,
                    ) by {
                        if a == env && b != i {
                            assert(sc2[a].vars[b] == sc[a].vars[b]);
                        }
                    }
                    assert forall|a: int| 0 <= a < sc2.len() implies match #[trigger] sc2[a].parent {
                        Some(p) => p < a,
                        None => true,
                    } by {
                        assert(sc[a].parent == sc2[a].parent);
                    }
                }
            },
            None => match sc[env].parent {
                Some(p) => if p < env {
                    lemma_assign_ok(sc, p as int, name, v, arrays, funcs);
                },
                None => {},
            },
        }
    }
}

/// Adding a child scope keeps the scopes well formed and every binding
/// referring only to existing arrays and functions.
pub proof fn lemma_child_ok(sc: Seq<SScope>, parent: usize, arrays: nat, funcs: nat)
    requires
        env_values_ok(sc, arrays, funcs),
        scopes_wf(sc),
        parent < sc.len(),
    ensures
        env_values_ok(child_spec(sc, parent), arrays, funcs),
        scopes_wf(child_spec(sc, parent)),
{
    let sc2 = child_spec(sc, parent);
    assert forall|i: int, j: int|
        0 <= i < sc2.len() && 0 <= j < sc2[i].vars.len() implies value_ok(
        #[trigger] sc2[i].vars[j].1,
        arrays,
        funcs,
    ) by {
        assert(i < sc.len());
        assert(sc2[i] == sc[i]);
    }
    assert forall|i: int| 0 <= i < sc2.len() implies match #[trigger] sc2[i].parent {
        Some(p) => p < i,
        None => true,
    } by {
        if i < sc.len() {
            assert(sc2[i] == sc[i]);
        }
    }
}

/// Growing the array and function stores keeps every binding referring
/// only to existing ones.
pub proof fn lemma_env_values_grow(sc: Seq<SScope>, a1: nat, f1: nat, a2: nat, f2: nat)
    requires
        env_values_ok(sc, a1, f1),
        a1 <= a2,
        f1 <= f2,
    ensures
        env_values_ok(sc, a2, f2),
{
    assert forall|i: int, j: int|
        0 <= i < sc.len() && 0 <= j < sc[i].vars.len() implies value_ok(
        #[trigger] sc[i].vars[j].1,
        a2,
        f2,
    ) by {
        assert(value_ok(sc[i].vars[j].1, a1, f1));
    }
}

// ─── Laws ────────────────────────────────────────────────────

/// `find_var` from `i` finds `name` at index `k` when `vars[k]` binds it
/// and no binding in `vars[i..k]` does.
pub proof fn lemma_find_var_at(vars: Seq<(Seq<char>, SValue)>, name: Seq<char>, i: int, k: int)
    requires
        0 <= i <= k < vars.len(),
        vars[k].0 == name,
        forall|j: int| i <= j < k ==> #[trigger] vars[j].0 != name,
    ensures
        find_var(vars, name, i) == Some(k),
    decreases k - i,
{
    if i < k {
        lemma_find_var_at(vars, name, i + 1, k);
    }
}

/// After binding `name` to `v`, the first binding of `name` holds `v`.
proof fn lemma_find_var_bind(vars: Seq<(Seq<char>, SValue)>, name: Seq<char>, v: SValue)
    ensures
        find_var(bind(vars, name, v), name, 0) matches Some(k) && bind(vars, name, v)[k] == (name, v),
{
    lemma_find_var(vars, name, 0);
    let b = bind(vars, name, v);
    match find_var(vars, name, 0) {
        Some(i) => {
            assert forall|j: int| 0 <= j < i implies #[trigger] b[j].0 != name by {
                lemma_find_var_first(vars, name, 0, j);
            }
            lemma_find_var_at(b, name, 0, i);
        },
        None => {
            assert forall|j: int| 0 <= j < vars.len() implies #[trigger] b[j].0 != name by {
                assert(b[j] == vars[j]);
            }
            lemma_find_var_at(b, name, 0, vars.len() as int);
        },
    }
}

/// `find_var` from `i` finds no binding of `name` before the one it
/// returns.
proof fn lemma_find_var_first(vars: Seq<(Seq<char>, SValue)>, name: Seq<char>, i: int, j: int)
    requires
        0 <= i <= j,
        find_var(vars, name, i) matches Some(k) && j < k,
    ensures
        vars[j].0 != name,
    decreases j - i,
{
    if i < j {
        lemma_find_var_first(vars, name, i + 1, j);
    }
}

/// A lookup from scope `env` reads only `env` and its enclosing scopes,
/// which come before it: scopes that agree on indices up to `env` give
/// the same lookups from `env`.
pub proof fn lemma_lookup_frame(sc: Seq<SScope>, sc2: Seq<SScope>, env: int, name: Seq<char>)
    requires
        0 <= env < sc.len(),
        env < sc2.len(),
        forall|k: int| 0 <= k <= env ==> #[trigger] sc2[k] == sc[k],
    ensures
        lookup(sc2, env, name) == lookup(sc, env, name),
    decreases env,
{
    match sc[env].parent {
        Some(p) => if p < env {
            lemma_lookup_frame(sc, sc2, p as int, name);
        },
        None => {},
    }
}

/// A variable defined in a scope is found there with the defined value
/// (the read gives back the write).
pub proof fn lemma_define_then_lookup(sc: Seq<SScope>, env: int, name: Seq<char>, v: SValue)
    requires
        0 <= env < sc.len(),
    ensures
        lookup(define_spec(sc, env, name, v), env, name) == Some(v),
        lookup(define_const_spec(sc, env, name, v), env, name) == Some(v),
{
    lemma_find_var_bind(sc[env].vars, name, v);
}

/// A variable declared `const` in a scope cannot be assigned from that
/// scope: the assignment fails with `ReassignConst`.
pub proof fn lemma_const_refuses_assign(sc: Seq<SScope>, env: int, name: Seq<char>, v: SValue, w: SValue)
    requires
        0 <= env < sc.len(),
    ensures
        assign_spec(define_const_spec(sc, env, name, v), env, name, w) == Err::<Seq<SScope>, SRuntimeError>(
            SRuntimeError::ReassignConst(name),
        ),
{
    let sc2 = define_const_spec(sc, env, name, v);
    lemma_find_var_bind(sc[env].vars, name, v);
    if !sc[env].consts.contains(name) {
        let c = sc[env].consts.push(name);
        assert(c[c.len() - 1] == name);
    }
    assert(sc2[env].consts.contains(name));
}

/// An assignment that succeeds is seen by a lookup from the same scope.
pub proof fn lemma_assign_then_lookup(sc: Seq<SScope>, env: int, name: Seq<char>, v: SValue)
    requires
        scopes_wf(sc),
    ensures
        assign_spec(sc, env, name, v) matches Ok(sc2) ==> lookup(sc2, env, name) == Some(v),
    decreases env,
{
    if 0 <= env < sc.len() {
        lemma_find_var(sc[env].vars, name, 0);
        match find_var(sc[env].vars, name, 0) {
            Some(i) => {
                if !is_const_spec(sc, env, name) {
                    let vars2 = sc[env].vars.update(i, (name, v));
                    assert forall|j: int| 0 <= j < i implies #[trigger] vars2[j].0 != name by {
                        lemma_find_var_first(sc[env].vars, name, 0, j);
                    }
                    lemma_find_var_at(vars2, name, 0, i);
                }
            },
            None => match sc[env].parent {
                Some(p) => if p < env {
                    lemma_assign_then_lookup(sc, p as int, name, v);
                    if let Ok(sc2) = assign_spec(sc, p as int, name, v) {
                        lemma_assign_shape(sc, p as int, name, v);
                        assert(sc2[env] == sc[env]);
                    }
                },
                None => {},
            },
        }
    }
}

/// A successful assignment from scope `env` changes one scope at or
/// before `env`, and only its bindings.
proof fn lemma_assign_shape(sc: Seq<SScope>, env: int, name: Seq<char>, v: SValue)
    requires
        scopes_wf(sc),
    ensures
        assign_spec(sc, env, name, v) matches Ok(sc2) ==> {
            &&& sc2.len() == sc.len()
            &&& 0 <= env < sc.len()
            &&& forall|k: int| env < k < sc.len() ==> #[trigger] sc2[k] == sc[k]
        },
    decreases env,
{
    if 0 <= env < sc.len() {
        match find_var(sc[env].vars, name, 0) {
            Some(i) => {},
            None => match sc[env].parent {
                Some(p) => if p < env {
                    lemma_assign_shape(sc, p as int, name, v);
                },
                None => {},
            },
        }
    }
}

/// A new child scope sees what its parent sees.
pub proof fn lemma_child_sees_parent(sc: Seq<SScope>, parent: usize, name: Seq<char>)
    requires
        parent < sc.len(),
    ensures
        lookup(child_spec(sc, parent), sc.len() as int, name) == lookup(sc, parent as int, name),
{
    let sc2 = child_spec(sc, parent);
    assert(find_var(sc2[sc.len() as int].vars, name, 0) is None);
    lemma_lookup_frame(sc, sc2, parent as int, name);
}

/// A variable defined in a child scope shadows the parent's without
/// changing what the parent sees.
pub proof fn lemma_child_define_keeps_parent(sc: Seq<SScope>, parent: usize, name: Seq<char>, v: SValue, other: Seq<char>)
    requires
        parent < sc.len(),
    ensures
        lookup(define_spec(child_spec(sc, parent), sc.len() as int, name, v), sc.len() as int, name)
            == Some(v),
        lookup(define_spec(child_spec(sc, parent), sc.len() as int, name, v), parent as int, other)
            == lookup(sc, parent as int, other),
{
    let sc2 = define_spec(child_spec(sc, parent), sc.len() as int, name, v);
    lemma_define_then_lookup(child_spec(sc, parent), sc.len() as int, name, v);
    lemma_lookup_frame(sc, sc2, parent as int, other);
}

// ─── The store ───────────────────────────────────────────────

impl Environment {
    /// How the view of the store relates to the scopes it holds.
    proof fn lemma_views(&self)
        ensures
            self@.len() == self.scopes@.len(),
            forall|i: int| 0 <= i < self@.len() ==> #[trigger] self@[i] == scope_view(self.scopes@[i]),
            forall|i: int|
                0 <= i < self@.len() ==> (#[trigger] self@[i]).vars.len()
                    == self.scopes@[i].vars@.len(),
            forall|i: int, j: int|
                0 <= i < self@.len() && 0 <= j < self.scopes@[i].vars@.len() ==> #[trigger] self@[i].vars[j]
                    == (self.scopes@[i].vars@[j].0@, self.scopes@[i].vars@[j].1@),
            forall|i: int|
                0 <= i < self@.len() ==> (#[trigger] self@[i]).consts.len()
                    == self.scopes@[i].consts@.len(),
            forall|i: int, j: int|
                0 <= i < self@.len() && 0 <= j < self.scopes@[i].consts@.len() ==> #[trigger] self@[i].consts[j]
                    == self.scopes@[i].consts@[j]@,
            forall|i: int| 0 <= i < self@.len() ==> #[trigger] self@[i].parent == self.scopes@[i].parent,
    {
    }

    /// A store holding one root scope (handle 0), with no bindings.
    pub fn new() -> (r: Environment)
        ensures
            r@ == seq![SScope { vars: Seq::empty(), consts: Seq::empty(), parent: None }],
    {
        let mut scopes: Vec<Scope> = Vec::new();
        scopes.push(Scope { vars: Vec::new(), consts: Vec::new(), parent: None });
        let r = Environment { scopes };
        proof {
            assert(vars_view(Seq::<(String, Value)>::empty()) =~= Seq::empty());
            assert(names_view(Seq::<String>::empty()) =~= Seq::empty());
            assert(r@ =~= seq![SScope { vars: Seq::empty(), consts: Seq::empty(), parent: None }]);
        }
        r
    }

    /// A store holding one root scope (handle 0) with the given bindings.
    pub fn with_bindings(vars: Vec<(String, Value)>) -> (r: Environment)
        ensures
            r@ == seq![SScope { vars: vars_view(vars@), consts: Seq::empty(), parent: None }],
    {
        let ghost vv = vars_view(vars@);
        let mut scopes: Vec<Scope> = Vec::new();
        scopes.push(Scope { vars, consts: Vec::new(), parent: None });
        let r = Environment { scopes };
        proof {
            assert(names_view(Seq::<String>::empty()) =~= Seq::empty());
            assert(r@ =~= seq![SScope { vars: vv, consts: Seq::empty(), parent: None }]);
        }
        r
    }

    /// The number of scopes.
    pub fn len(&self) -> (r: usize)
        ensures
            r == self@.len(),
    {
        self.scopes.len()
    }

    /// Adds an empty child scope of `parent` and returns its handle.
    pub fn child(&mut self, parent: Env) -> (r: Env)
        requires
            parent < old(self)@.len(),
        ensures
            final(self)@ == child_spec(old(self)@, parent),
            r == old(self)@.len(),
    {
        let r = self.scopes.len();
        self.scopes.push(Scope { vars: Vec::new(), consts: Vec::new(), parent: Some(parent) });
        proof {
            assert(vars_view(Seq::<(String, Value)>::empty()) =~= Seq::empty());
            assert(names_view(Seq::<String>::empty()) =~= Seq::empty());
            assert(final(self)@ =~= child_spec(old(self)@, parent));
        }
        r
    }

    /// The index of the binding of `name` in scope `env`, if any.
    fn find(&self, env: Env, name: &String) -> (r: Option<usize>)
        requires
            env < self@.len(),
        ensures
            r matches Some(i) ==> find_var(self@[env as int].vars, name@, 0) == Some(i as int),
            r is None ==> find_var(self@[env as int].vars, name@, 0) is None,
    {
        proof {
            self.lemma_views();
        }
        let vars = &self.scopes[env].vars;
        let ghost sv = self@[env as int].vars;
        assert(sv == vars_view(vars@));
        let mut i: usize = 0;
        while i < vars.len()
            invariant
                i <= vars@.len(),
                env < self@.len(),
                sv == self@[env as int].vars,
                sv == vars_view(vars@),
                find_var(sv, name@, 0) == find_var(sv, name@, i as int),
            decreases vars@.len() - i,
        {
            assert(sv[i as int] == (vars@[i as int].0@, vars@[i as int].1@));
            if vars[i].0 == *name {
                return Some(i);
            }
            i = i + 1;
        }
        None
    }

    /// Binds `name` to `value` in scope `env`, replacing a binding of the
    /// same name there.
    pub fn define(&mut self, env: Env, name: String, value: Value)
        requires
            env < old(self)@.len(),
        ensures
            final(self)@ == define_spec(old(self)@, env as int, name@, value@),
    {
        let ghost old_sc = self@;
        proof {
            self.lemma_views();
        }
        match self.find(env, &name) {
            Some(i) => {
                proof {
                    lemma_find_var(old_sc[env as int].vars, name@, 0);
                }
                self.scopes[env].vars[i] = (name, value);
            },
            None => {
                self.scopes[env].vars.push((name, value));
            },
        }
        proof {
            assert(self@[env as int].vars =~= bind(old_sc[env as int].vars, name@, value@));
            assert(self@ =~= define_spec(old_sc, env as int, name@, value@));
        }
    }

    /// Whether `name` is among the constant names of scope `env`.
    fn has_const(&self, env: Env, name: &String) -> (r: bool)
        requires
            env < self@.len(),
        ensures
            r == self@[env as int].consts.contains(name@),
    {
        proof {
            self.lemma_views();
        }
        let consts = &self.scopes[env].consts;
        let ghost sc = self@[env as int].consts;
        assert(sc == names_view(consts@));
        let mut i: usize = 0;
        while i < consts.len()
            invariant
                i <= consts@.len(),
                env < self@.len(),
                sc == self@[env as int].consts,
                sc == names_view(consts@),
                forall|k: int| 0 <= k < i ==> sc[k] != name@,
            decreases consts@.len() - i,
        {
            assert(sc[i as int] == consts@[i as int]@);
            if consts[i] == *name {
                assert(sc[i as int] == name@);
                return true;
            }
            i = i + 1;
        }
        false
    }

    /// Declares `name` constant in scope `env` and binds it to `value`.
    pub fn define_const(&mut self, env: Env, name: String, value: Value)
        requires
            env < old(self)@.len(),
        ensures
            final(self)@ == define_const_spec(old(self)@, env as int, name@, value@),
    {
        let ghost old_sc = self@;
        proof {
            self.lemma_views();
        }
        if !self.has_const(env, &name) {
            self.scopes[env].consts.push(name.clone());
        }
        let ghost mid = self@;
        proof {
            self.lemma_views();
            assert(mid[env as int].vars =~= old_sc[env as int].vars);
        }
        match self.find(env, &name) {
            Some(i) => {
                proof {
                    lemma_find_var(old_sc[env as int].vars, name@, 0);
                }
                self.scopes[env].vars[i] = (name, value);
            },
            None => {
                self.scopes[env].vars.push((name, value));
            },
        }
        proof {
            assert(self@[env as int].vars =~= bind(old_sc[env as int].vars, name@, value@));
            assert(self@[env as int].consts =~= (if old_sc[env as int].consts.contains(name@) {
                old_sc[env as int].consts
            } else {
                old_sc[env as int].consts.push(name@)
            }));
            assert(self@ =~= define_const_spec(old_sc, env as int, name@, value@));
        }
    }

    /// Whether `name` is declared constant in scope `env` or an enclosing
    /// scope.
    fn is_const(&self, env: Env, name: &String) -> (r: bool)
        requires
            env < self@.len(),
            scopes_wf(self@),
        ensures
            r == is_const_spec(self@, env as int, name@),
    {
        let mut cur = env;
        loop
            invariant
                cur < self@.len(),
                scopes_wf(self@),
                is_const_spec(self@, env as int, name@) == is_const_spec(self@, cur as int, name@),
            decreases cur,
        {
            if self.has_const(cur, name) {
                return true;
            }
            assert(self@[cur as int].parent == self.scopes@[cur as int].parent);
            match self.scopes[cur].parent {
                Some(p) => {
                    cur = p;
                },
                None => {
                    return false;
                },
            }
        }
    }

    /// The value bound to `name` in scope `env` or the nearest enclosing
    /// scope that binds it.
    pub fn get(&self, env: Env, name: &String) -> (r: Option<Value>)
        requires
            env < self@.len(),
            scopes_wf(self@),
        ensures
            match lookup(self@, env as int, name@) {
                Some(v) => r matches Some(x) && x@ == v,
                None => r is None,
            },
    {
        let mut cur = env;
        loop
            invariant
                cur < self@.len(),
                scopes_wf(self@),
                lookup(self@, env as int, name@) == lookup(self@, cur as int, name@),
            decreases cur,
        {
            proof {
                self.lemma_views();
            }
            match self.find(cur, name) {
                Some(i) => {
                    proof {
                        lemma_find_var(self@[cur as int].vars, name@, 0);
                    }
                    assert(self@[cur as int].vars[i as int] == (
                        self.scopes@[cur as int].vars@[i as int].0@,
                        self.scopes@[cur as int].vars@[i as int].1@,
                    ));
                    return Some(self.scopes[cur].vars[i].1.duplicate());
                },
                None => {},
            }
            assert(self@[cur as int].parent == self.scopes@[cur as int].parent);
            match self.scopes[cur].parent {
                Some(p) => {
                    cur = p;
                },
                None => {
                    return None;
                },
            }
        }
    }

    /// Assigns `value` to the existing variable `name`, looked up from
    /// scope `env` outwards.
    pub fn assign(&mut self, env: Env, name: &String, value: Value) -> (r: Result<(), RuntimeError>)
        requires
            env < old(self)@.len(),
            scopes_wf(old(self)@),
        ensures
            match assign_spec(old(self)@, env as int, name@, value@) {
                Ok(sc) => r is Ok && final(self)@ == sc,
                Err(e) => r matches Err(x) && x@ == e && final(self)@ == old(self)@,
            },
    {
        let mut cur = env;
        loop
            invariant
                cur < self@.len(),
                self@ == old(self)@,
                scopes_wf(self@),
                assign_spec(self@, env as int, name@, value@) == assign_spec(
                    self@,
                    cur as int,
                    name@,
                    value@,
                ),
            decreases cur,
        {
            proof {
                self.lemma_views();
            }
            match self.find(cur, name) {
                Some(i) => {
                    proof {
                        lemma_find_var(self@[cur as int].vars, name@, 0);
                    }
                    if self.is_const(cur, name) {
                        return Err(RuntimeError::ReassignConst(name.clone()));
                    }
                    let ghost old_sc = self@;
                    self.scopes[cur].vars[i] = (name.clone(), value);
                    proof {
                        assert(self@[cur as int].vars =~= old_sc[cur as int].vars.update(
                            i as int,
                            (name@, value@),
                        ));
                        assert(self@ =~= old_sc.update(
                            cur as int,
                            SScope {
                                vars: old_sc[cur as int].vars.update(i as int, (name@, value@)),
                                ..old_sc[cur as int]
                            },
                        ));
                    }
                    return Ok(());
                },
                None => {},
            }
            assert(self@[cur as int].parent == self.scopes@[cur as int].parent);
            match self.scopes[cur].parent {
                Some(p) => {
                    cur = p;
                },
                None => {
                    return Err(RuntimeError::UndefinedVar(name.clone()));
                },
            }
        }
    }

    /// The enclosing scope of scope `env`, if any.
    pub fn parent(&self, env: Env) -> (r: Option<Env>)
        requires
            env < self@.len(),
        ensures
            r == self@[env as int].parent,
    {
        self.scopes[env].parent
    }
}

impl Default for Environment {
    /// A store holding one empty root scope.
    fn default() -> (r: Environment)
        ensures
            r@ == seq![SScope { vars: Seq::empty(), consts: Seq::empty(), parent: None }],
    {
        Environment::new()
    }
}

} // verus!
