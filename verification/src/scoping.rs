//! What holds of every evaluation: the store stays in order, scopes are
//! neither lost nor changed from outside, and closures keep access to what
//! they captured.
use crate::model::{
    assign, extends, lookup_owner, only_touches, store_ok, value_ok, values_ok, Closure, Scope,
    Store, Value,
};
use crate::semantics::{
    apply, bound, call_scope, define_shape, define_word, eval, eval_args, is_word, lambda_shape,
    lambda_word, paired,
};
use crate::syntax::{Atom, Tree};
use vstd::prelude::*;

verus! {

/// The owner that a lookup finds is a scope of the store, not younger than
/// the scope where the lookup began, and it binds the name.
pub proof fn lemma_owner_binds(store: Store, id: nat, name: Seq<char>)
    ensures
        lookup_owner(store, id, name) matches Some(owner) ==> owner <= id && owner < store.len()
            && store[owner as int].variables.contains_key(name),
    decreases id,
{
    if id < store.len() && !store[id as int].variables.contains_key(name) {
        match store[id as int].parent {
            Some(p) => {
                if p < id {
                    lemma_owner_binds(store, p, name);
                }
            },
            None => {},
        }
    }
}

/// Every value that the first `n` parameters are bound to is one of the
/// first `n` arguments.
proof fn lemma_bound_values(params: Seq<Seq<char>>, args: Seq<Value>, n: nat, limit: nat)
    requires
        n <= args.len(),
        values_ok(args, limit),
    ensures
        forall|name: Seq<char>| #[trigger]
            bound(params, args, n).contains_key(name) ==> value_ok(
                bound(params, args, n)[name],
                limit,
            ),
    decreases n,
{
    if n > 0 {
        lemma_bound_values(params, args, (n - 1) as nat, limit);
        let before = bound(params, args, (n - 1) as nat);
        assert forall|name: Seq<char>| #[trigger]
            bound(params, args, n).contains_key(name) implies value_ok(
            bound(params, args, n)[name],
            limit,
        ) by {
            if name == params[n - 1] {
                assert(value_ok(args[n - 1], limit));
            } else {
                assert(before.contains_key(name));
            }
        }
    }
}

/// An evaluation keeps the store in order, keeps every scope and every
/// name bound in it, changes no scope that existed before but the one it
/// runs in, and yields only values that are in order for the new store.
pub proof fn lemma_eval_orderly(node: Tree, store: Store, scope: nat, depth: nat)
    requires
        store_ok(store),
    ensures
        store_ok(eval(node, store, scope, depth).store),
        extends(store, eval(node, store, scope, depth).store),
        only_touches(store, eval(node, store, scope, depth).store, scope),
        eval(node, store, scope, depth).result matches Ok(Some(v)) ==> value_ok(
            v,
            eval(node, store, scope, depth).store.len(),
        ),
    decreases depth, 0nat, 0nat,
{
    if scope < store.len() {
        match node {
            Tree::Leaf(atom) => {
                if let Atom::Symbol(name) = atom {
                    lemma_owner_binds(store, scope, name);
                }
            },
            Tree::Body(children) => {
                if children.len() == 0 {
                } else if is_word(children[0], define_word()) {
                    if define_shape(children) && depth > 0 {
                        let sub = eval(children[2], store, scope, (depth - 1) as nat);
                        lemma_eval_orderly(children[2], store, scope, (depth - 1) as nat);
                        if let Ok(Some(v)) = sub.result {
                            let name = children[1]->Leaf_0->Symbol_0;
                            lemma_assign_orderly(sub.store, scope, name, v);
                        }
                    }
                } else if is_word(children[0], lambda_word()) {
                } else if depth > 0 {
                    let d = (depth - 1) as nat;
                    let operator = eval(children[0], store, scope, d);
                    lemma_eval_orderly(children[0], store, scope, d);
                    if let Ok(Some(f)) = operator.result {
                        let args = eval_args(children, 1, Seq::empty(), operator.store, scope, d);
                        lemma_eval_args_orderly(
                            children,
                            1,
                            Seq::empty(),
                            operator.store,
                            scope,
                            d,
                        );
                        if let Ok(values) = args.result {
                            lemma_apply_orderly(f, values, args.store, d);
                        }
                    }
                }
            },
        }
    }
}

/// Binding a name to a value that is in order keeps the store in order
/// and touches the one scope only.
proof fn lemma_assign_orderly(store: Store, scope: nat, name: Seq<char>, v: Value)
    requires
        store_ok(store),
        scope < store.len(),
        value_ok(v, store.len()),
    ensures
        store_ok(assign(store, scope, name, v)),
        extends(store, assign(store, scope, name, v)),
        only_touches(store, assign(store, scope, name, v), scope),
{
}

/// The evaluation of a list of arguments is as orderly as that of each.
pub proof fn lemma_eval_args_orderly(
    children: Seq<Tree>,
    from: nat,
    acc: Seq<Value>,
    store: Store,
    scope: nat,
    depth: nat,
)
    requires
        store_ok(store),
        values_ok(acc, store.len()),
    ensures
        store_ok(eval_args(children, from, acc, store, scope, depth).store),
        extends(store, eval_args(children, from, acc, store, scope, depth).store),
        only_touches(store, eval_args(children, from, acc, store, scope, depth).store, scope),
        eval_args(children, from, acc, store, scope, depth).result matches Ok(values)
            ==> values_ok(values, eval_args(children, from, acc, store, scope, depth).store.len()),
    decreases depth, 1nat, children.len() - from,
{
    if from < children.len() {
        let next = eval(children[from as int], store, scope, depth);
        lemma_eval_orderly(children[from as int], store, scope, depth);
        if let Ok(Some(v)) = next.result {
            lemma_eval_args_orderly(children, from + 1, acc.push(v), next.store, scope, depth);
        }
    }
}

/// An application is orderly, and changes no scope that existed before
/// it.
pub proof fn lemma_apply_orderly(f: Value, args: Seq<Value>, store: Store, depth: nat)
    requires
        store_ok(store),
        value_ok(f, store.len()),
        values_ok(args, store.len()),
    ensures
        store_ok(apply(f, args, store, depth).store),
        extends(store, apply(f, args, store, depth).store),
        forall|i: int|
            0 <= i < store.len() ==> #[trigger] apply(f, args, store, depth).store[i] == store[i],
        apply(f, args, store, depth).result matches Ok(Some(v)) ==> value_ok(
            v,
            apply(f, args, store, depth).store.len(),
        ),
    decreases depth, 1nat, 0nat,
{
    match f {
        Value::Proc(c) => {
            let inner = store.push(call_scope(c, args, store.len()));
            lemma_bound_values(c.params, args, paired(c.params, args), inner.len());
            assert(store_ok(inner));
            lemma_eval_orderly(c.body, inner, store.len(), depth);
        },
        _ => {},
    }
}

/// Keeping is reflexive and transitive: what a store keeps of an earlier
/// one, every later store keeps too.
pub proof fn lemma_extends_chain(a: Store, b: Store, c: Store)
    requires
        extends(a, b),
        extends(b, c),
    ensures
        extends(a, a),
        extends(a, c),
{
    assert forall|i: int| 0 <= i < a.len() implies {
        &&& (#[trigger] c[i]).id == a[i].id
        &&& c[i].parent == a[i].parent
        &&& a[i].variables.dom().subset_of(c[i].variables.dom())
    } by {
        assert(b[i].id == a[i].id);
    }
}

/// A name that resolves from a scope still resolves from it in every
/// later store.
pub proof fn lemma_lookup_persists(then: Store, now: Store, id: nat, name: Seq<char>)
    requires
        store_ok(then),
        extends(then, now),
        lookup_owner(then, id, name) is Some,
    ensures
        lookup_owner(now, id, name) is Some,
    decreases id,
{
    assert(now[id as int].parent == then[id as int].parent);
    if then[id as int].variables.contains_key(name) {
        assert(then[id as int].variables.dom().contains(name));
    } else if !now[id as int].variables.contains_key(name) {
        let p = then[id as int].parent->Some_0;
        lemma_lookup_persists(then, now, p, name);
    }
}

/// Lexical shadowing, for any evaluation: whatever is evaluated in a
/// scope, a `define` included, no other scope that existed before is
/// changed by it, so no binding of an ancestor is.
pub proof fn law_evaluation_is_local(
    node: Tree,
    store: Store,
    scope: nat,
    depth: nat,
    other: nat,
)
    requires
        store_ok(store),
        other < store.len(),
        other != scope,
    ensures
        eval(node, store, scope, depth).store[other as int] == store[other as int],
{
    lemma_eval_orderly(node, store, scope, depth);
}

/// Lexical shadowing, for a call: the body of a closure runs in a scope
/// of its own, so whatever it defines, every scope that existed before the
/// call, the captured scope and its ancestors among them, is after the
/// call as it was before.
pub proof fn law_call_is_local(c: Closure, args: Seq<Value>, store: Store, depth: nat, other: nat)
    requires
        store_ok(store),
        c.captured < store.len(),
        values_ok(args, store.len()),
        other < store.len(),
    ensures
        apply(Value::Proc(c), args, store, depth).store[other as int] == store[other as int],
{
    lemma_apply_orderly(Value::Proc(c), args, store, depth);
}

/// Closure capture, first half: a well-formed `lambda` form evaluates to
/// a closure over the scope it is evaluated in, and changes nothing.
pub proof fn law_lambda_captures(children: Seq<Tree>, store: Store, scope: nat, depth: nat)
    requires
        scope < store.len(),
        children.len() > 0,
        is_word(children[0], lambda_word()),
        lambda_shape(children),
    ensures
        eval(Tree::Body(children), store, scope, depth).store == store,
        eval(Tree::Body(children), store, scope, depth).result matches Ok(Some(Value::Proc(c)))
            && c.captured == scope && c.body == children[2],
{
    assert(!is_word(children[0], define_word())) by {
        assert(define_word()[0] != lambda_word()[0]);
    }
}

/// Closure capture, second half: a name that resolved from the captured
/// scope when the closure was made resolves in the body of the closure
/// whenever it is applied later, in whatever store the evaluations in
/// between have left, and whether or not the call that made the captured
/// scope has returned.
pub proof fn law_closure_capture(
    c: Closure,
    args: Seq<Value>,
    then: Store,
    now: Store,
    depth: nat,
    name: Seq<char>,
)
    requires
        store_ok(then),
        extends(then, now),
        lookup_owner(then, c.captured, name) is Some,
    ensures
        lookup_owner(now.push(call_scope(c, args, now.len())), now.len(), name) is Some,
        eval(
            Tree::Leaf(Atom::Symbol(name)),
            now.push(call_scope(c, args, now.len())),
            now.len(),
            depth,
        ).result matches Ok(Some(_)),
{
    let inner = now.push(call_scope(c, args, now.len()));
    lemma_owner_binds(then, c.captured, name);
    assert(extends(now, inner));
    lemma_extends_chain(then, now, inner);
    lemma_lookup_persists(then, inner, c.captured, name);
    assert(inner[now.len() as int].parent == Some(c.captured));
}

/// Every evaluation leaves a store that keeps what the store before it
/// had, so "later" in [`law_closure_capture`] covers any number of
/// evaluations.
pub proof fn law_evaluation_keeps(node: Tree, store: Store, scope: nat, depth: nat)
    requires
        store_ok(store),
    ensures
        store_ok(eval(node, store, scope, depth).store),
        extends(store, eval(node, store, scope, depth).store),
{
    lemma_eval_orderly(node, store, scope, depth);
}

/// Whatever is done to a store, a new scope made or a name bound, every
/// scope that it had keeps its identifier and its parent, and every name
/// bound in it stays bound; by [`lemma_extends_chain`], so it is after any
/// number of such steps.
pub proof fn law_scopes_are_kept(store: Store, scope: Scope, id: nat, name: Seq<char>, v: Value)
    ensures
        extends(store, store.push(scope)),
        id < store.len() ==> extends(store, assign(store, id, name, v)),
{
}

} // verus!
