//! Numbers stay numbers: what is parsed, what the root scope starts with
//! and what evaluation yields is made of floating-point literals only.
use crate::grammar::{all_proper, law_parsed_is_proper, parsed, proper};
use crate::model::{
    assign, lookup_owner, scope_numeric, store_numeric, value_numeric, values_numeric, Store,
    Value,
};
use crate::number::{all_digits, dot_splits, is_digit, is_float_literal, splits_at};
use crate::scoping::lemma_owner_binds;
use crate::semantics::{
    apply, bound, call_scope, define_shape, define_word, eval, eval_args, is_word, lambda_shape,
    lambda_word, native_bindings, native_result, paired, pi_digits,
};
use crate::syntax::{forest_numeric, tree_numeric, Atom, Tree};
use vstd::prelude::*;

verus! {

/// The digits bound to `pi` are a floating-point literal.
pub proof fn law_pi_is_a_literal()
    ensures
        is_float_literal(pi_digits()),
{
    let s = pi_digits();
    let m = s.subrange(0, 17);
    let whole = m.subrange(0, 1);
    let fraction = m.subrange(2, 17);
    assert(all_digits(whole)) by {
        assert(whole[0] == s[0]);
    }
    assert(all_digits(fraction)) by {
        assert(is_digit(s[2]) && is_digit(s[3]) && is_digit(s[4]) && is_digit(s[5]) && is_digit(
            s[6],
        ) && is_digit(s[7]) && is_digit(s[8]) && is_digit(s[9]));
        assert(is_digit(s[10]) && is_digit(s[11]) && is_digit(s[12]) && is_digit(s[13])
            && is_digit(s[14]) && is_digit(s[15]) && is_digit(s[16]));
        assert forall|i: int| 0 <= i < fraction.len() implies is_digit(#[trigger] fraction[i]) by {
            assert(fraction[i] == s[i + 2]);
        }
    }
    assert(dot_splits(m, 1));
    assert(splits_at(s, 17));
}

/// The bindings that the root scope starts with hold numbers only.
pub proof fn law_native_bindings_numeric()
    ensures
        forall|name: Seq<char>| #[trigger]
            native_bindings().contains_key(name) ==> value_numeric(native_bindings()[name]),
{
    law_pi_is_a_literal();
}

/// A native procedure applied to numbers yields a number.
pub proof fn law_native_result_numeric(name: Seq<char>, args: Seq<Value>)
    requires
        values_numeric(args),
    ensures
        native_result(name, args) matches Ok(v) ==> value_numeric(v),
{
    if args.len() == 2 {
        assert(value_numeric(args[0]) && value_numeric(args[1]));
    }
}

/// A proper tree, such as a parse yields, holds numbers only.
pub proof fn lemma_proper_is_numeric(tree: Tree)
    requires
        proper(tree),
    ensures
        tree_numeric(tree),
    decreases tree,
{
    if let Tree::Body(children) = tree {
        assert forall|i: int| 0 <= i < children.len() implies tree_numeric(
            #[trigger] children[i],
        ) by {
            lemma_proper_is_numeric(children[i]);
        }
    }
}

/// Every number leaf of a parsed forest holds a floating-point literal.
pub proof fn law_parsed_is_numeric(tokens: Seq<Seq<char>>)
    ensures
        parsed(tokens) matches Some(forest) ==> forest_numeric(forest),
{
    law_parsed_is_proper(tokens);
    if let Some(forest) = parsed(tokens) {
        assert(all_proper(forest));
        assert forall|i: int| 0 <= i < forest.len() implies tree_numeric(#[trigger] forest[i]) by {
            lemma_proper_is_numeric(forest[i]);
        }
    }
}

/// Binding a name to a value that holds numbers only keeps the store so.
pub proof fn lemma_assign_numeric(store: Store, scope: nat, name: Seq<char>, v: Value)
    requires
        store_numeric(store),
        scope < store.len(),
        value_numeric(v),
    ensures
        store_numeric(assign(store, scope, name, v)),
{
    let after = assign(store, scope, name, v);
    assert forall|i: int| 0 <= i < after.len() implies scope_numeric(#[trigger] after[i]) by {
        assert(scope_numeric(store[i]));
    }
}

/// The values that parameters are bound to hold numbers only if the
/// arguments do.
proof fn lemma_bound_numeric(params: Seq<Seq<char>>, args: Seq<Value>, n: nat)
    requires
        n <= args.len(),
        values_numeric(args),
    ensures
        forall|name: Seq<char>| #[trigger]
            bound(params, args, n).contains_key(name) ==> value_numeric(
                bound(params, args, n)[name],
            ),
    decreases n,
{
    if n > 0 {
        lemma_bound_numeric(params, args, (n - 1) as nat);
        let before = bound(params, args, (n - 1) as nat);
        assert forall|name: Seq<char>| #[trigger]
            bound(params, args, n).contains_key(name) implies value_numeric(
            bound(params, args, n)[name],
        ) by {
            if name == params[n - 1] {
                assert(value_numeric(args[n - 1]));
            } else {
                assert(before.contains_key(name));
            }
        }
    }
}

/// Evaluation keeps numbers numbers: in a store that holds numbers only,
/// a tree whose number leaves are floating-point literals leaves such a
/// store, and yields such a value if it yields one.
pub proof fn law_eval_numeric(node: Tree, store: Store, scope: nat, depth: nat)
    requires
        store_numeric(store),
        tree_numeric(node),
    ensures
        store_numeric(eval(node, store, scope, depth).store),
        eval(node, store, scope, depth).result matches Ok(Some(v)) ==> value_numeric(v),
        store.len() <= eval(node, store, scope, depth).store.len(),
    decreases depth, 0nat, 0nat,
{
    match node {
        Tree::Leaf(atom) => {
            if let Atom::Symbol(name) = atom {
                lemma_owner_binds(store, scope, name);
                if scope < store.len() {
                    if let Some(owner) = lookup_owner(store, scope, name) {
                        assert(scope_numeric(store[owner as int]));
                    }
                }
            }
        },
        Tree::Body(children) => {
            if scope < store.len() && children.len() > 0 {
                if is_word(children[0], define_word()) {
                    if define_shape(children) && depth > 0 {
                        let sub = eval(children[2], store, scope, (depth - 1) as nat);
                        assert(tree_numeric(children[2]));
                        law_eval_numeric(children[2], store, scope, (depth - 1) as nat);
                        if let Ok(Some(v)) = sub.result {
                            lemma_assign_numeric(
                                sub.store,
                                scope,
                                children[1]->Leaf_0->Symbol_0,
                                v,
                            );
                        }
                    }
                } else if is_word(children[0], lambda_word()) {
                    if lambda_shape(children) {
                        assert(tree_numeric(children[2]));
                    }
                } else if depth > 0 {
                    let d = (depth - 1) as nat;
                    let operator = eval(children[0], store, scope, d);
                    assert(tree_numeric(children[0]));
                    law_eval_numeric(children[0], store, scope, d);
                    if let Ok(Some(f)) = operator.result {
                        let args = eval_args(children, 1, Seq::empty(), operator.store, scope, d);
                        lemma_eval_args_numeric(
                            children,
                            1,
                            Seq::empty(),
                            operator.store,
                            scope,
                            d,
                        );
                        if let Ok(values) = args.result {
                            lemma_apply_numeric(f, values, args.store, d);
                        }
                    }
                }
            }
        },
    }
}

/// The same of the evaluation of a list of arguments.
proof fn lemma_eval_args_numeric(
    children: Seq<Tree>,
    from: nat,
    acc: Seq<Value>,
    store: Store,
    scope: nat,
    depth: nat,
)
    requires
        store_numeric(store),
        forest_numeric(children),
        values_numeric(acc),
    ensures
        store_numeric(eval_args(children, from, acc, store, scope, depth).store),
        eval_args(children, from, acc, store, scope, depth).result matches Ok(values)
            ==> values_numeric(values),
        store.len() <= eval_args(children, from, acc, store, scope, depth).store.len(),
    decreases depth, 1nat, children.len() - from,
{
    if from < children.len() {
        let next = eval(children[from as int], store, scope, depth);
        law_eval_numeric(children[from as int], store, scope, depth);
        if let Ok(Some(v)) = next.result {
            lemma_eval_args_numeric(children, from + 1, acc.push(v), next.store, scope, depth);
        }
    }
}

/// The same of an application.
proof fn lemma_apply_numeric(f: Value, args: Seq<Value>, store: Store, depth: nat)
    requires
        store_numeric(store),
        value_numeric(f),
        values_numeric(args),
    ensures
        store_numeric(apply(f, args, store, depth).store),
        apply(f, args, store, depth).result matches Ok(Some(v)) ==> value_numeric(v),
        store.len() <= apply(f, args, store, depth).store.len(),
    decreases depth, 1nat, 0nat,
{
    match f {
        Value::NativeProc(name) => {
            law_native_result_numeric(name, args);
        },
        Value::Proc(c) => {
            let inner = store.push(call_scope(c, args, store.len()));
            lemma_bound_numeric(c.params, args, paired(c.params, args));
            assert forall|i: int| 0 <= i < inner.len() implies scope_numeric(
                #[trigger] inner[i],
            ) by {
                if i < store.len() {
                    assert(scope_numeric(store[i]));
                }
            }
            law_eval_numeric(c.body, inner, store.len(), depth);
        },
        Value::Number(_) => {},
    }
}

} // verus!
