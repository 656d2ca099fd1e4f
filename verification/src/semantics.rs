//! What evaluation means: a big-step semantics over the store model.
//!
//! Evaluation is bounded by a depth: a leaf needs none, and a form needs
//! one more than what its parts and the body of the procedure it applies
//! need.
use crate::model::{assign, lookup_owner, Closure, Failure, Scope, Store, Value};
use crate::number::Quantity;
use crate::syntax::{Atom, Tree};
use vstd::prelude::*;

verus! {

/// The store after an evaluation, and what it produced: a value, no value
/// (`define`), or a failure.
pub struct Outcome {
    pub store: Store,
    pub result: Result<Option<Value>, Failure>,
}

/// The store after evaluating a list of arguments, and their values.
pub struct ArgsOutcome {
    pub store: Store,
    pub result: Result<Seq<Value>, Failure>,
}

/// The name `define`.
pub open spec fn define_word() -> Seq<char> {
    seq!['d', 'e', 'f', 'i', 'n', 'e']
}

/// The name `lambda`.
pub open spec fn lambda_word() -> Seq<char> {
    seq!['l', 'a', 'm', 'b', 'd', 'a']
}

/// The name `*`.
pub open spec fn times_word() -> Seq<char> {
    seq!['*']
}

/// The name `pi`.
pub open spec fn pi_word() -> Seq<char> {
    seq!['p', 'i']
}

/// The digits of the constant bound to `pi`.
pub open spec fn pi_digits() -> Seq<char> {
    seq!['3', '.', '1', '4', '1', '5', '9', '2', '6', '5', '3', '5', '8', '9', '7', '9', '3']
}

/// The bindings that the root scope starts with.
pub open spec fn native_bindings() -> Map<Seq<char>, Value> {
    Map::empty().insert(times_word(), Value::NativeProc(times_word())).insert(
        pi_word(),
        Value::Number(Quantity::Literal(pi_digits())),
    )
}

/// What the native procedure `name` returns for `args`.
///
/// `*` takes exactly two numbers and returns their product; no other
/// native procedure exists.
pub open spec fn native_result(name: Seq<char>, args: Seq<Value>) -> Result<Value, Failure> {
    if name == times_word() {
        if args.len() != 2 {
            Err(Failure::NativeArity)
        } else {
            match (args[0], args[1]) {
                (Value::Number(a), Value::Number(b)) => Ok(
                    Value::Number(Quantity::Product(Box::new(a), Box::new(b))),
                ),
                _ => Err(Failure::NativeType),
            }
        }
    } else {
        Err(Failure::UnknownNativeProcedure(name))
    }
}

/// `tree` is the symbol `word`.
pub open spec fn is_word(tree: Tree, word: Seq<char>) -> bool {
    tree == Tree::Leaf(Atom::Symbol(word))
}

/// Every tree of `trees` is a symbol.
pub open spec fn all_symbols(trees: Seq<Tree>) -> bool {
    forall|i: int| 0 <= i < trees.len() ==> #[trigger] trees[i] is Leaf && trees[i]->Leaf_0 is Symbol
}

/// The names of a sequence of symbols.
pub open spec fn names_of(trees: Seq<Tree>) -> Seq<Seq<char>> {
    Seq::new(trees.len(), |i: int| trees[i]->Leaf_0->Symbol_0)
}

/// `(define name expression)`: a symbol and one expression follow the
/// keyword.
pub open spec fn define_shape(children: Seq<Tree>) -> bool {
    children.len() == 3 && children[1] is Leaf && children[1]->Leaf_0 is Symbol
}

/// `(lambda (name ...) body)`: a form of symbols and one expression
/// follow the keyword.
pub open spec fn lambda_shape(children: Seq<Tree>) -> bool {
    children.len() == 3 && children[1] is Body && all_symbols(children[1]->Body_0)
}

/// The bindings of the first `n` parameters to the first `n` arguments,
/// made in order, so that of two parameters of one name the later wins.
pub open spec fn bound(params: Seq<Seq<char>>, args: Seq<Value>, n: nat) -> Map<Seq<char>, Value>
    decreases n,
{
    if n == 0 {
        Map::empty()
    } else {
        bound(params, args, (n - 1) as nat).insert(params[n - 1], args[n - 1])
    }
}

/// How many parameters get an argument: extra arguments are dropped, and
/// parameters without an argument stay unbound.
pub open spec fn paired(params: Seq<Seq<char>>, args: Seq<Value>) -> nat {
    if params.len() <= args.len() {
        params.len()
    } else {
        args.len()
    }
}

/// The scope in which the body of `c` runs when it is applied to `args`
/// in a store of `n` scopes: a new one, whose parent is the scope that `c`
/// captured.
pub open spec fn call_scope(c: Closure, args: Seq<Value>, n: nat) -> Scope {
    Scope {
        id: n,
        parent: Some(c.captured),
        variables: bound(c.params, args, paired(c.params, args)),
    }
}

/// An outcome with a result.
pub open spec fn done(store: Store, value: Option<Value>) -> Outcome {
    Outcome { store, result: Ok(value) }
}

/// An outcome without one.
pub open spec fn failed(store: Store, failure: Failure) -> Outcome {
    Outcome { store, result: Err(failure) }
}

/// What a symbol or a literal evaluates to in `scope`: a literal is its
/// own value and the scope plays no part; a symbol has the value that the
/// nearest scope binding it gives it, or none.
pub open spec fn resolved(atom: Atom, store: Store, scope: nat) -> Option<Value> {
    match atom {
        Atom::Number(text) => Some(Value::Number(Quantity::Literal(text))),
        Atom::Symbol(name) => match lookup_owner(store, scope, name) {
            Some(owner) => Some(store[owner as int].variables[name]),
            None => None,
        },
    }
}

/// The evaluation of `node` in scope `scope` of `store`, to depth `depth`.
///
/// A literal is its own value, whatever the scope; everything else is
/// evaluated in `scope`, which must be a scope of the store.
pub open spec fn eval(node: Tree, store: Store, scope: nat, depth: nat) -> Outcome
    decreases depth, 0nat, 0nat,
{
    if node is Leaf && node->Leaf_0 is Number {
        done(store, resolved(node->Leaf_0, store, scope))
    } else if scope >= store.len() {
        failed(store, Failure::InvalidScopeId(scope))
    } else {
        match node {
            Tree::Leaf(atom) => match resolved(atom, store, scope) {
                Some(v) => done(store, Some(v)),
                None => failed(store, Failure::UnboundSymbol(atom->Symbol_0)),
            },
            Tree::Body(children) => if children.len() == 0 {
                failed(store, Failure::EmptyForm)
            } else if is_word(children[0], define_word()) {
                if !define_shape(children) {
                    failed(store, Failure::MalformedSpecialForm)
                } else if depth == 0 {
                    failed(store, Failure::DepthExceeded)
                } else {
                    let sub = eval(children[2], store, scope, (depth - 1) as nat);
                    match sub.result {
                        Err(failure) => failed(sub.store, failure),
                        Ok(None) => failed(sub.store, Failure::NoValue),
                        Ok(Some(v)) => done(
                            assign(sub.store, scope, children[1]->Leaf_0->Symbol_0, v),
                            None,
                        ),
                    }
                }
            } else if is_word(children[0], lambda_word()) {
                if !lambda_shape(children) {
                    failed(store, Failure::MalformedSpecialForm)
                } else {
                    done(
                        store,
                        Some(
                            Value::Proc(
                                Closure {
                                    params: names_of(children[1]->Body_0),
                                    body: children[2],
                                    captured: scope,
                                },
                            ),
                        ),
                    )
                }
            } else if depth == 0 {
                failed(store, Failure::DepthExceeded)
            } else {
                let operator = eval(children[0], store, scope, (depth - 1) as nat);
                match operator.result {
                    Err(failure) => failed(operator.store, failure),
                    // Nothing to apply: the form yields no value either,
                    // and its arguments are not evaluated.
                    Ok(None) => done(operator.store, None),
                    Ok(Some(f)) => {
                        let args = eval_args(
                            children,
                            1,
                            Seq::empty(),
                            operator.store,
                            scope,
                            (depth - 1) as nat,
                        );
                        match args.result {
                            Err(failure) => failed(args.store, failure),
                            Ok(values) => apply(f, values, args.store, (depth - 1) as nat),
                        }
                    },
                }
            },
        }
    }
}

/// The evaluation, left to right, of the children of a form from index
/// `from` on, after the values `acc` of those before; it stops at the
/// first child that fails or yields no value.
pub open spec fn eval_args(
    children: Seq<Tree>,
    from: nat,
    acc: Seq<Value>,
    store: Store,
    scope: nat,
    depth: nat,
) -> ArgsOutcome
    decreases depth, 1nat, children.len() - from,
{
    if from >= children.len() {
        ArgsOutcome { store, result: Ok(acc) }
    } else {
        let next = eval(children[from as int], store, scope, depth);
        match next.result {
            Err(failure) => ArgsOutcome { store: next.store, result: Err(failure) },
            Ok(None) => ArgsOutcome { store: next.store, result: Err(Failure::NoValue) },
            Ok(Some(v)) => eval_args(children, from + 1, acc.push(v), next.store, scope, depth),
        }
    }
}

/// The application of the value `f` to `args`.
///
/// A native procedure is looked up by its name; a closure gets a new
/// scope under the one it captured, with its parameters bound, and its
/// body is evaluated there; anything else cannot be called.
pub open spec fn apply(f: Value, args: Seq<Value>, store: Store, depth: nat) -> Outcome
    decreases depth, 1nat, 0nat,
{
    match f {
        Value::NativeProc(name) => match native_result(name, args) {
            Ok(v) => done(store, Some(v)),
            Err(failure) => failed(store, failure),
        },
        Value::Proc(c) => eval(
            c.body,
            store.push(call_scope(c, args, store.len())),
            store.len(),
            depth,
        ),
        Value::Number(_) => failed(store, Failure::NotCallable(f)),
    }
}

} // verus!
