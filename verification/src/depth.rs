//! The depth of an evaluation is only a bound: it decides whether an
//! evaluation is carried through, never what comes of it.
use crate::model::{Failure, Store, Value};
use crate::semantics::{
    apply, call_scope, define_shape, define_word, eval, eval_args, is_word, lambda_word,
    ArgsOutcome, Outcome,
};
use crate::syntax::Tree;
use vstd::prelude::*;

verus! {

/// The evaluation ran out of depth.
pub open spec fn out_of_depth(o: Outcome) -> bool {
    o.result == Err::<Option<Value>, Failure>(Failure::DepthExceeded)
}

/// The evaluation of the arguments ran out of depth.
pub open spec fn args_out_of_depth(o: ArgsOutcome) -> bool {
    o.result == Err::<Seq<Value>, Failure>(Failure::DepthExceeded)
}

/// An evaluation that does not run out of depth comes out the same at
/// every greater depth: the same store, and the same value, lack of a
/// value, or failure.
pub proof fn law_depth_is_only_a_bound(node: Tree, store: Store, scope: nat, d: nat, e: nat)
    requires
        d <= e,
        !out_of_depth(eval(node, store, scope, d)),
    ensures
        eval(node, store, scope, e) == eval(node, store, scope, d),
    decreases d, 0nat, 0nat,
{
    if let Tree::Body(children) = node {
        if scope < store.len() && children.len() > 0 && d > 0 {
            let d1 = (d - 1) as nat;
            let e1 = (e - 1) as nat;
            if is_word(children[0], define_word()) {
                if define_shape(children) {
                    law_depth_is_only_a_bound(children[2], store, scope, d1, e1);
                }
            } else if !is_word(children[0], lambda_word()) {
                let operator = eval(children[0], store, scope, d1);
                law_depth_is_only_a_bound(children[0], store, scope, d1, e1);
                if let Ok(Some(f)) = operator.result {
                    let args = eval_args(children, 1, Seq::empty(), operator.store, scope, d1);
                    lemma_args_depth(children, 1, Seq::empty(), operator.store, scope, d1, e1);
                    if let Ok(values) = args.result {
                        lemma_apply_depth(f, values, args.store, d1, e1);
                    }
                }
            }
        }
    }
}

/// The same of the evaluation of a list of arguments.
proof fn lemma_args_depth(
    children: Seq<Tree>,
    from: nat,
    acc: Seq<Value>,
    store: Store,
    scope: nat,
    d: nat,
    e: nat,
)
    requires
        d <= e,
        !args_out_of_depth(eval_args(children, from, acc, store, scope, d)),
    ensures
        eval_args(children, from, acc, store, scope, e) == eval_args(
            children,
            from,
            acc,
            store,
            scope,
            d,
        ),
    decreases d, 1nat, children.len() - from,
{
    if from < children.len() {
        let next = eval(children[from as int], store, scope, d);
        law_depth_is_only_a_bound(children[from as int], store, scope, d, e);
        if let Ok(Some(v)) = next.result {
            lemma_args_depth(children, from + 1, acc.push(v), next.store, scope, d, e);
        }
    }
}

/// The same of an application.
proof fn lemma_apply_depth(f: Value, args: Seq<Value>, store: Store, d: nat, e: nat)
    requires
        d <= e,
        !out_of_depth(apply(f, args, store, d)),
    ensures
        apply(f, args, store, e) == apply(f, args, store, d),
    decreases d, 1nat, 0nat,
{
    if let Value::Proc(c) = f {
        law_depth_is_only_a_bound(
            c.body,
            store.push(call_scope(c, args, store.len())),
            store.len(),
            d,
            e,
        );
    }
}

/// An evaluation that runs out of depth at some depth runs out of depth
/// at every smaller one.
pub proof fn law_less_depth_runs_out(node: Tree, store: Store, scope: nat, d: nat, e: nat)
    requires
        d <= e,
        out_of_depth(eval(node, store, scope, e)),
    ensures
        out_of_depth(eval(node, store, scope, d)),
{
    if !out_of_depth(eval(node, store, scope, d)) {
        law_depth_is_only_a_bound(node, store, scope, d, e);
    }
}

} // verus!
