//! The mathematical model of values, scopes and the scope store.
use crate::number::{numeric, Quantity};
use crate::syntax::{tree_numeric, Tree};
use vstd::prelude::*;

verus! {

/// A user-defined procedure: its parameter names, its body, and the scope
/// that was current when its `lambda` form was evaluated.
pub struct Closure {
    pub params: Seq<Seq<char>>,
    pub body: Tree,
    pub captured: nat,
}

/// What an expression can evaluate to.
pub enum Value {
    Number(Quantity),
    Proc(Closure),
    NativeProc(Seq<char>),
}

/// One scope: its own identifier, the scope that lookups continue in, and
/// its local bindings.
pub struct Scope {
    pub id: nat,
    pub parent: Option<nat>,
    pub variables: Map<Seq<char>, Value>,
}

/// The scope store: the scope with identifier `i` stands at index `i`.
pub type Store = Seq<Scope>;

/// Why an evaluation stopped without a result.
pub enum Failure {
    UnboundSymbol(Seq<char>),
    NotCallable(Value),
    NativeArity,
    NativeType,
    UnknownNativeProcedure(Seq<char>),
    MalformedSpecialForm,
    InvalidScopeId(nat),
    NoValue,
    EmptyForm,
    DepthExceeded,
}

/// A procedure value refers only to a scope among the first `n`.
pub open spec fn value_ok(v: Value, n: nat) -> bool {
    v matches Value::Proc(c) ==> c.captured < n
}

/// Every value of `values` is in order for a store of `n` scopes.
pub open spec fn values_ok(values: Seq<Value>, n: nat) -> bool {
    forall|i: int| 0 <= i < values.len() ==> value_ok(#[trigger] values[i], n)
}

/// The store invariant: identifiers match positions, every parent link
/// points to an earlier scope, and every scope that a stored procedure
/// captured exists.
pub open spec fn store_ok(store: Store) -> bool {
    &&& forall|i: int| 0 <= i < store.len() ==> (#[trigger] store[i]).id == i
    &&& forall|i: int|
        0 <= i < store.len() ==> ((#[trigger] store[i]).parent matches Some(p) ==> p < i)
    &&& forall|i: int, name: Seq<char>|
        0 <= i < store.len() && (#[trigger] store[i].variables.contains_key(name)) ==> value_ok(
            store[i].variables[name],
            store.len(),
        )
}

/// `v` holds numbers only: a number value is made of floating-point
/// literals, and so is every number leaf in the body of a procedure.
pub open spec fn value_numeric(v: Value) -> bool {
    match v {
        Value::Number(q) => numeric(q),
        Value::Proc(c) => tree_numeric(c.body),
        Value::NativeProc(_) => true,
    }
}

/// Every value of `values` holds numbers only.
pub open spec fn values_numeric(values: Seq<Value>) -> bool {
    forall|i: int| 0 <= i < values.len() ==> value_numeric(#[trigger] values[i])
}

/// Every value bound in `scope` holds numbers only.
pub open spec fn scope_numeric(scope: Scope) -> bool {
    forall|name: Seq<char>| #[trigger]
        scope.variables.contains_key(name) ==> value_numeric(scope.variables[name])
}

/// Every value bound in a scope of `store` holds numbers only.
pub open spec fn store_numeric(store: Store) -> bool {
    forall|i: int| 0 <= i < store.len() ==> scope_numeric(#[trigger] store[i])
}

/// A new scope with no bindings.
pub open spec fn empty_scope(id: nat, parent: Option<nat>) -> Scope {
    Scope { id, parent, variables: Map::empty() }
}

/// `scope` with `name` bound to `v`, whatever it was bound to before.
pub open spec fn with_binding(scope: Scope, name: Seq<char>, v: Value) -> Scope {
    Scope { variables: scope.variables.insert(name, v), ..scope }
}

/// `store` after binding `name` to `v` in scope `id` and nowhere else.
pub open spec fn assign(store: Store, id: nat, name: Seq<char>, v: Value) -> Store
    recommends
        id < store.len(),
{
    store.update(id as int, with_binding(store[id as int], name, v))
}

/// The nearest scope that binds `name`, starting at `id` and following
/// parent links; `None` if no scope on the way binds it. (For an `id`
/// outside the store it is `None` too; the functions that look names up
/// report such an `id` as a failure and do not get that far.)
pub open spec fn lookup_owner(store: Store, id: nat, name: Seq<char>) -> Option<nat>
    decreases id,
{
    if id >= store.len() {
        None
    } else if store[id as int].variables.contains_key(name) {
        Some(id)
    } else {
        match store[id as int].parent {
            Some(p) => if p < id {
                lookup_owner(store, p, name)
            } else {
                None
            },
            None => None,
        }
    }
}

/// `new` keeps what `old` had: every scope of `old` is still there with
/// its identifier and parent, and every name bound in it is still bound.
pub open spec fn extends(old: Store, new: Store) -> bool {
    &&& old.len() <= new.len()
    &&& forall|i: int|
        0 <= i < old.len() ==> {
            &&& (#[trigger] new[i]).id == old[i].id
            &&& new[i].parent == old[i].parent
            &&& old[i].variables.dom().subset_of(new[i].variables.dom())
        }
}

/// No scope of `old` other than `scope` differs in `new`.
pub open spec fn only_touches(old: Store, new: Store, scope: nat) -> bool {
    forall|i: int| 0 <= i < old.len() && i != scope ==> #[trigger] new[i] == old[i]
}

} // verus!
