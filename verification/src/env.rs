//! Values, scopes and the arena that owns the scopes.
use crate::error::EvalError;
use crate::lexer::texts;
use crate::model::{
    assign, empty_scope, lookup_owner, scope_numeric, store_numeric, store_ok, value_numeric,
    value_ok, values_numeric, with_binding, Closure, Failure, Scope, Store, Value,
};
use crate::numeric::{
    law_native_bindings_numeric, law_native_result_numeric, lemma_assign_numeric,
};
use crate::number::Number;
use crate::semantics::{native_bindings, native_result, pi_digits, pi_word, times_word};
use crate::syntax::AstNode;
use rustc_hash::{FxBuildHasher, FxHashMap};
use vstd::prelude::*;

verus! {

/// The hasher factory of `rustc_hash`; nothing is known of it but that it
/// is a type.
#[verifier::external_type_specification]
#[verifier::external_body]
pub struct ExFxBuildHasher(FxBuildHasher);

/// The identifier of a scope in an [`EnvManager`]. Identifiers are handed
/// out by the arena and cannot be made in any other way.
#[derive(Debug, Clone, Copy, PartialEq, Eq)]
pub struct EnvId(usize);

impl View for EnvId {
    type V = nat;

    /// The position of the scope in the store.
    closed spec fn view(&self) -> nat {
        self.0 as nat
    }
}

/// A closure: parameter names, the body in the syntax forest, and the
/// scope that was current where the `lambda` form was evaluated.
#[derive(Debug)]
pub struct ProcInfo<'a> {
    args: Vec<String>,
    body: &'a AstNode,
    captured: EnvId,
}

impl<'a> View for ProcInfo<'a> {
    type V = Closure;

    closed spec fn view(&self) -> Closure {
        Closure { params: texts(self.args@), body: self.body@, captured: self.captured@ }
    }
}

/// A copy of `names`, name by name.
fn clone_names(names: &Vec<String>) -> (copy: Vec<String>)
    ensures
        texts(copy@) == texts(names@),
{
    let mut copy: Vec<String> = Vec::new();
    let mut i: usize = 0;
    while i < names.len()
        invariant
            i <= names.len(),
            copy.len() == i,
            forall|k: int| 0 <= k < i ==> copy@[k]@ == names@[k]@,
        decreases names.len() - i,
    {
        copy.push(names[i].clone());
        i = i + 1;
    }
    copy
}

impl<'a> Clone for ProcInfo<'a> {
    fn clone(&self) -> (r: Self)
        ensures
            r@ == self@,
    {
        Self { args: clone_names(&self.args), body: self.body, captured: self.captured }
    }
}

impl<'a> ProcInfo<'a> {
    /// The closure of `body` with parameters `args` over scope `captured`.
    pub fn new(args: Vec<String>, body: &'a AstNode, captured: EnvId) -> (r: Self)
        ensures
            r@ == (Closure { params: texts(args@), body: body@, captured: captured@ }),
    {
        Self { args, body, captured }
    }

    /// The parameter names, in order.
    pub fn args(&self) -> (r: &Vec<String>)
        ensures
            texts(r@) == self@.params,
    {
        &self.args
    }

    /// The body.
    pub fn body(&self) -> (r: &'a AstNode)
        ensures
            r@ == self@.body,
    {
        self.body
    }

    /// The captured scope.
    pub fn captured(&self) -> (r: EnvId)
        ensures
            r@ == self@.captured,
    {
        self.captured
    }
}

/// A value: a number, a closure, or a native procedure by its name.
#[derive(Debug)]
pub enum EnvType<'a> {
    Number(Number),
    Proc(ProcInfo<'a>),
    NativeProc(String),
}

impl<'a> View for EnvType<'a> {
    type V = Value;

    open spec fn view(&self) -> Value {
        match self {
            EnvType::Number(n) => Value::Number(n@),
            EnvType::Proc(p) => Value::Proc(p@),
            EnvType::NativeProc(name) => Value::NativeProc(name@),
        }
    }
}

impl<'a> Clone for EnvType<'a> {
    fn clone(&self) -> (r: Self)
        ensures
            r@ == self@,
    {
        match self {
            EnvType::Number(n) => EnvType::Number(n.clone()),
            EnvType::Proc(p) => EnvType::Proc(p.clone()),
            EnvType::NativeProc(name) => EnvType::NativeProc(name.clone()),
        }
    }
}

/// The views of a sequence of values.
pub open spec fn values_of(values: Seq<EnvType<'_>>) -> Seq<Value> {
    Seq::new(values.len(), |i: int| values[i]@)
}

/// No binding at all.
pub open spec fn no_bindings() -> Map<Seq<char>, Value> {
    Map::empty()
}

/// What a table of bindings holds: the value bound to each name. The
/// table is a `rustc_hash::FxHashMap`, that is a `HashMap` of the standard
/// library that hashes with `FxBuildHasher`; its keys are strings, which
/// are equal exactly when their characters are.
pub uninterp spec fn bindings(table: FxHashMap<String, EnvType<'_>>) -> Map<Seq<char>, Value>;

/// `FxHashMap::default`: the new table holds nothing.
#[verifier::external_body]
fn bindings_new<'a>() -> (fresh: FxHashMap<String, EnvType<'a>>)
    ensures
        bindings(fresh) == no_bindings(),
{
    FxHashMap::default()
}

/// `HashMap::insert` on an `FxHashMap`: `name` is bound to `val`, in place
/// of what it was bound to, and every other name is left as it was.
#[verifier::external_body]
fn bindings_insert<'a>(table: &mut FxHashMap<String, EnvType<'a>>, name: String, val: EnvType<'a>)
    ensures
        bindings(*final(table)) == bindings(*old(table)).insert(name@, val@),
{
    table.insert(name, val);
}

/// `HashMap::get` on an `FxHashMap`: the value bound to `name`, or
/// nothing if the name is not bound.
#[verifier::external_body]
fn bindings_get<'b, 'a>(table: &'b FxHashMap<String, EnvType<'a>>, name: &String) -> (r: Option<
    &'b EnvType<'a>,
>)
    ensures
        match r {
            Some(v) => bindings(*table).contains_key(name@) && v@ == bindings(*table)[name@],
            None => !bindings(*table).contains_key(name@),
        },
{
    table.get(name)
}

/// `HashMap::contains_key` on an `FxHashMap`: whether `name` is bound.
#[verifier::external_body]
fn bindings_contains(table: &FxHashMap<String, EnvType<'_>>, name: &String) -> (r: bool)
    ensures
        r == bindings(*table).contains_key(name@),
{
    table.contains_key(name)
}

/// One scope: its identifier, its parent and its local bindings.
#[derive(Debug)]
pub struct Env<'a> {
    id: EnvId,
    parent: Option<EnvId>,
    variables: FxHashMap<String, EnvType<'a>>,
}

/// The view of an optional identifier.
pub open spec fn id_of(id: Option<EnvId>) -> Option<nat> {
    match id {
        Some(id) => Some(id@),
        None => None,
    }
}

impl<'a> View for Env<'a> {
    type V = Scope;

    closed spec fn view(&self) -> Scope {
        Scope { id: self.id@, parent: id_of(self.parent), variables: bindings(self.variables) }
    }
}

impl<'a> Env<'a> {
    /// An empty scope.
    pub fn new(id: EnvId, parent: Option<EnvId>) -> (env: Self)
        ensures
            env@ == empty_scope(id@, id_of(parent)),
    {
        Self { id, parent, variables: bindings_new() }
    }

    /// Adds the native bindings: the procedure `*` and the constant `pi`.
    /// A scope that held numbers only still does.
    pub fn standard(&mut self)
        ensures
            final(self)@ == (Scope {
                variables: old(self)@.variables.union_prefer_right(native_bindings()),
                ..old(self)@
            }),
            scope_numeric(old(self)@) ==> scope_numeric(final(self)@),
    {
        proof {
            law_native_bindings_numeric();
            reveal_strlit("*");
            reveal_strlit("pi");
            reveal_strlit("3.141592653589793");
            assert("*"@ =~= times_word());
            assert("pi"@ =~= pi_word());
            assert("3.141592653589793"@ =~= pi_digits());
        }
        self.set(String::from_str("*"), EnvType::NativeProc(String::from_str("*")));
        self.set(
            String::from_str("pi"),
            EnvType::Number(Number::literal(String::from_str("3.141592653589793"))),
        );
        assert(final(self)@.variables =~= old(self)@.variables.union_prefer_right(
            native_bindings(),
        ));
    }

    /// Applies the native procedure `name` to `args`. Applied to numbers,
    /// it yields a number.
    pub fn native_call(name: &String, args: Vec<EnvType<'a>>) -> (r: Result<
        EnvType<'a>,
        EvalError<'a>,
    >)
        ensures
            native_result(name@, values_of(args@)) == (match r {
                Ok(v) => Ok(v@),
                Err(e) => Err(e@),
            }),
            values_numeric(values_of(args@)) ==> (r matches Ok(v) ==> value_numeric(v@)),
    {
        proof {
            if values_numeric(values_of(args@)) {
                law_native_result_numeric(name@, values_of(args@));
            }
            reveal_strlit("*");
            assert("*"@ =~= times_word());
        }
        if !name.as_str().eq("*") {
            return Err(EvalError::UnknownNativeProcedure(name.clone()));
        }
        if args.len() != 2 {
            return Err(EvalError::NativeArity);
        }
        let mut args = args;
        let second: Option<EnvType<'a>> = args.pop();
        let first: Option<EnvType<'a>> = args.pop();
        match (first, second) {
            (Some(EnvType::Number(a)), Some(EnvType::Number(b))) => Ok(
                EnvType::Number(a.times(b)),
            ),
            _ => Err(EvalError::NativeType),
        }
    }

    /// Binds `name` to `val` in this scope.
    pub fn set(&mut self, name: String, val: EnvType<'a>)
        ensures
            final(self)@ == with_binding(old(self)@, name@, val@),
            scope_numeric(old(self)@) && value_numeric(val@) ==> scope_numeric(final(self)@),
    {
        bindings_insert(&mut self.variables, name, val);
    }

    /// A copy of the value bound to `name` in this scope.
    pub fn get(&self, name: &String) -> (r: Option<EnvType<'a>>)
        ensures
            match r {
                Some(v) => self@.variables.contains_key(name@) && v@ == self@.variables[name@],
                None => !self@.variables.contains_key(name@),
            },
    {
        match bindings_get(&self.variables, name) {
            Some(v) => Some(v.clone()),
            None => None,
        }
    }

    /// Whether this scope binds `name`.
    pub fn contains(&self, name: &String) -> (r: bool)
        ensures
            r == self@.variables.contains_key(name@),
    {
        bindings_contains(&self.variables, name)
    }

    /// The identifier of this scope.
    pub fn id(&self) -> (r: EnvId)
        ensures
            r@ == self@.id,
    {
        self.id
    }

    /// The scope in which lookups continue, if there is one.
    pub fn parent(&self) -> (r: Option<EnvId>)
        ensures
            id_of(r) == self@.parent,
    {
        self.parent
    }
}

/// What an arena holds: the scope kept under each key. The arena is a
/// `rustc_hash::FxHashMap` with integer keys.
pub uninterp spec fn scopes(arena: FxHashMap<usize, Env<'_>>) -> Map<usize, Scope>;

/// No scope at all.
pub open spec fn no_scopes() -> Map<usize, Scope> {
    Map::empty()
}

/// `FxHashMap::default`: the new arena holds nothing.
#[verifier::external_body]
fn scopes_new<'a>() -> (fresh: FxHashMap<usize, Env<'a>>)
    ensures
        scopes(fresh) == no_scopes(),
{
    FxHashMap::default()
}

/// `HashMap::insert` on an `FxHashMap`: `env` is kept under `key`, in
/// place of what was there, and every other key is left as it was.
#[verifier::external_body]
fn scopes_insert<'a>(arena: &mut FxHashMap<usize, Env<'a>>, key: usize, env: Env<'a>)
    ensures
        scopes(*final(arena)) == scopes(*old(arena)).insert(key, env@),
{
    arena.insert(key, env);
}

/// `HashMap::get` on an `FxHashMap`: the scope kept under `key`, or
/// nothing if there is none.
#[verifier::external_body]
fn scopes_get<'b, 'a>(arena: &'b FxHashMap<usize, Env<'a>>, key: usize) -> (r: Option<
    &'b Env<'a>,
>)
    ensures
        match r {
            Some(env) => scopes(*arena).contains_key(key) && env@ == scopes(*arena)[key],
            None => !scopes(*arena).contains_key(key),
        },
{
    arena.get(&key)
}

/// `HashMap::get_mut` on an `FxHashMap`: the scope kept under `key` is
/// lent out, or nothing if there is none; when the loan ends the arena
/// holds under `key` what the scope has become, and is otherwise as it
/// was.
#[verifier::external_body]
fn scopes_get_mut<'b, 'a>(arena: &'b mut FxHashMap<usize, Env<'a>>, key: usize) -> (r: Option<
    &'b mut Env<'a>,
>)
    ensures
        match r {
            Some(env) => scopes(*old(arena)).contains_key(key) && env@ == scopes(*old(arena))[key]
                && scopes(*final(arena)) == scopes(*old(arena)).insert(key, final(env)@),
            None => !scopes(*old(arena)).contains_key(key) && scopes(*final(arena)) == scopes(
                *old(arena),
            ),
        },
{
    arena.get_mut(&key)
}

/// `HashMap::len` on an `FxHashMap`: the number of keys.
#[verifier::external_body]
fn scopes_len(arena: &FxHashMap<usize, Env<'_>>) -> (n: usize)
    ensures
        n == scopes(*arena).dom().len(),
{
    arena.len()
}

/// The arena of scopes. Scopes are made one after another and never
/// removed; the identifier of a scope is the number of scopes made before
/// it.
#[derive(Debug)]
pub struct EnvManager<'a> {
    envs: FxHashMap<usize, Env<'a>>,
    counter: usize,
}

impl<'a> View for EnvManager<'a> {
    type V = Store;

    closed spec fn view(&self) -> Store {
        Seq::new(self.counter as nat, |i: int| scopes(self.envs)[i as usize])
    }
}

impl<'a> EnvManager<'a> {
    /// The arena holds exactly the scopes counted.
    pub closed spec fn inv(&self) -> bool {
        &&& scopes(self.envs).dom().finite()
        &&& scopes(self.envs).dom().len() == self.counter
        &&& forall|key: usize| scopes(self.envs).contains_key(key) <==> key < self.counter
    }

    /// The arena is in order and its scopes satisfy the store invariant.
    pub open spec fn wf(&self) -> bool {
        self.inv() && store_ok(self@)
    }

    /// An arena without scopes.
    pub fn new() -> (r: Self)
        ensures
            r.wf(),
            r@ == Seq::<Scope>::empty(),
            store_numeric(r@),
    {
        Self { envs: scopes_new(), counter: 0 }
    }

    /// The scope `id`.
    pub fn get(&self, id: &EnvId) -> (r: Result<&Env<'a>, EvalError<'a>>)
        requires
            self.inv(),
        ensures
            match r {
                Ok(env) => id@ < self@.len() && env@ == self@[id@ as int],
                Err(e) => id@ >= self@.len() && e@ == Failure::InvalidScopeId(id@),
            },
    {
        match scopes_get(&self.envs, id.0) {
            Some(env) => Ok(env),
            None => Err(EvalError::InvalidScopeId(*id)),
        }
    }

    /// The scope `id`, to be changed in place.
    pub fn get_mut(&mut self, id: &EnvId) -> (r: Result<&mut Env<'a>, EvalError<'a>>)
        requires
            old(self).inv(),
        ensures
            match r {
                Ok(env) => {
                    &&& id@ < old(self)@.len()
                    &&& env@ == old(self)@[id@ as int]
                    &&& final(self).inv()
                    &&& final(self)@ == old(self)@.update(id@ as int, final(env)@)
                },
                Err(e) => {
                    &&& id@ >= old(self)@.len()
                    &&& e@ == Failure::InvalidScopeId(id@)
                    &&& final(self).inv()
                    &&& final(self)@ == old(self)@
                },
            },
    {
        match scopes_get_mut(&mut self.envs, id.0) {
            Some(env) => Ok(env),
            None => Err(EvalError::InvalidScopeId(*id)),
        }
    }

    /// The parent of scope `id`; `None` for a root and for an unknown
    /// scope.
    pub fn parent(&self, id: &EnvId) -> (r: Option<EnvId>)
        requires
            self.inv(),
        ensures
            id_of(r) == (if id@ < self@.len() {
                self@[id@ as int].parent
            } else {
                None
            }),
    {
        match scopes_get(&self.envs, id.0) {
            Some(env) => env.parent(),
            None => None,
        }
    }

    /// The nearest scope that binds `name`, from `id` towards the root, or
    /// `None` if no scope on the way binds it. It fails exactly when `id`
    /// is not a scope of this arena.
    pub fn find_var(&self, id: &EnvId, name: &String) -> (r: Result<Option<EnvId>, EvalError<'a>>)
        requires
            self.wf(),
        ensures
            match r {
                Ok(owner) => id@ < self@.len() && id_of(owner) == lookup_owner(
                    self@,
                    id@,
                    name@,
                ),
                Err(e) => id@ >= self@.len() && e@ == Failure::InvalidScopeId(id@),
            },
        decreases id@,
    {
        match scopes_get(&self.envs, id.0) {
            Some(env) => {
                if env.contains(name) {
                    Ok(Some(*id))
                } else {
                    match env.parent() {
                        Some(p) => self.find_var(&p, name),
                        None => Ok(None),
                    }
                }
            },
            None => Err(EvalError::InvalidScopeId(*id)),
        }
    }

    /// Makes a new, empty scope under `parent` and returns its
    /// identifier.
    pub fn new_env(&mut self, parent: Option<EnvId>) -> (id: EnvId)
        requires
            old(self).wf(),
            parent matches Some(p) ==> p@ < old(self)@.len(),
        ensures
            final(self).wf(),
            id@ == old(self)@.len(),
            final(self)@ == old(self)@.push(empty_scope(id@, id_of(parent))),
            store_numeric(old(self)@) ==> store_numeric(final(self)@),
    {
        let id: usize = self.counter;
        let env: Env<'a> = Env::new(EnvId(id), parent);
        scopes_insert(&mut self.envs, id, env);
        self.counter = scopes_len(&self.envs);
        assert(self@ =~= old(self)@.push(empty_scope(id as nat, id_of(parent))));
        EnvId(id)
    }

    /// Binds `name` to `val` in scope `id` and in no other.
    pub fn assign(&mut self, id: &EnvId, name: String, val: EnvType<'a>) -> (r: Result<
        (),
        EvalError<'a>,
    >)
        requires
            old(self).wf(),
            value_ok(val@, old(self)@.len()),
        ensures
            final(self).wf(),
            store_numeric(old(self)@) && value_numeric(val@) ==> store_numeric(final(self)@),
            match r {
                Ok(_) => id@ < old(self)@.len() && final(self)@ == assign(
                    old(self)@,
                    id@,
                    name@,
                    val@,
                ),
                Err(e) => id@ >= old(self)@.len() && e@ == Failure::InvalidScopeId(
                    id@,
                ) && final(self)@ == old(self)@,
            },
    {
        proof {
            if id@ < self@.len() && store_numeric(self@) && value_numeric(val@) {
                lemma_assign_numeric(self@, id@, name@, val@);
            }
        }
        match self.get_mut(id) {
            Ok(env) => {
                env.set(name, val);
                Ok(())
            },
            Err(e) => Err(e),
        }
    }

    /// Makes the root scope, with the native bindings in it. A store that
    /// held numbers only still does.
    pub fn std_env(&mut self) -> (id: EnvId)
        requires
            old(self).wf(),
        ensures
            final(self).wf(),
            id@ == old(self)@.len(),
            final(self)@ == old(self)@.push(
                Scope { id: id@, parent: None, variables: native_bindings() },
            ),
            store_numeric(old(self)@) ==> store_numeric(final(self)@),
    {
        proof {
            law_native_bindings_numeric();
        }
        let env: EnvId = self.new_env(None);
        match self.get_mut(&env) {
            Ok(scope) => {
                scope.standard();
            },
            Err(_) => {},
        }
        assert(no_bindings().union_prefer_right(native_bindings()) =~= native_bindings());
        env
    }
}

} // verus!
