//! The evaluator.
use crate::env::{values_of, Env, EnvId, EnvManager, EnvType, ProcInfo};
use crate::error::EvalError;
use crate::lexer::texts;
use crate::model::{
    store_numeric, value_numeric, value_ok, values_ok, Failure, Scope, Value,
};
use crate::numeric::law_eval_numeric;
use crate::number::{Number, Quantity};
use crate::parser::Parser;
use crate::scoping::{lemma_eval_args_orderly, lemma_eval_orderly, lemma_owner_binds};
use crate::semantics::{
    all_symbols, apply, bound, define_word, eval, eval_args, is_word, lambda_word, names_of,
    paired, resolved, ArgsOutcome, Outcome,
};
use crate::syntax::{
    atom_numeric, forest_of, lemma_body_view, tree_numeric, AstNode, Atom, Node, Tree,
};
use vstd::prelude::*;

verus! {

/// The view of an optional value.
pub open spec fn value_of(v: Option<EnvType<'_>>) -> Option<Value> {
    match v {
        Some(v) => Some(v@),
        None => None,
    }
}

/// The view of what an evaluation returns.
pub open spec fn result_of(r: Result<Option<EnvType<'_>>, EvalError<'_>>) -> Result<
    Option<Value>,
    Failure,
> {
    match r {
        Ok(v) => Ok(value_of(v)),
        Err(e) => Err(e@),
    }
}

impl Node {
    /// What this terminal evaluates to in scope `env_id`: a literal is
    /// its own value, whatever the scope, and a symbol has the value that
    /// the nearest scope binding it gives it, or none if no scope does. It
    /// fails exactly when a symbol is looked up in an `env_id` that is not
    /// a scope of the arena.
    pub fn resolve<'a>(&self, env_manager: &EnvManager<'a>, env_id: &EnvId) -> (r: Result<
        Option<EnvType<'a>>,
        EvalError<'a>,
    >)
        requires
            env_manager.wf(),
        ensures
            match r {
                Ok(v) => (self is Number || env_id@ < env_manager@.len()) && value_of(v)
                    == resolved(self@, env_manager@, env_id@),
                Err(e) => self is Symbol && env_id@ >= env_manager@.len() && e@
                    == Failure::InvalidScopeId(env_id@),
            },
            self matches Node::Number(text) ==> r matches Ok(Some(v)) && v@ == Value::Number(
                Quantity::Literal(text@),
            ),
            store_numeric(env_manager@) && atom_numeric(self@) ==> (r matches Ok(Some(v))
                ==> value_numeric(v@)),
    {
        proof {
            if store_numeric(env_manager@) && atom_numeric(self@) {
                law_eval_numeric(Tree::Leaf(self@), env_manager@, env_id@, 0);
            }
        }
        match self {
            Node::Symbol(name) => {
                proof {
                    lemma_owner_binds(env_manager@, env_id@, name@);
                }
                match env_manager.find_var(env_id, name) {
                    Ok(Some(owner)) => match env_manager.get(&owner) {
                        Ok(env) => Ok(env.get(name)),
                        Err(e) => Err(e),
                    },
                    Ok(None) => Ok(None),
                    Err(e) => Err(e),
                }
            },
            Node::Number(text) => Ok(Some(EnvType::Number(Number::literal(text.clone())))),
        }
    }
}

/// Whether `node` is the symbol `word`.
fn is_symbol(node: &AstNode, word: &str) -> (b: bool)
    ensures
        b == is_word(node@, word@),
{
    match node {
        AstNode::Leaf(Node::Symbol(name)) => name.as_str().eq(word),
        AstNode::Leaf(Node::Number(_)) => false,
        AstNode::Body(children) => {
            proof {
                lemma_body_view(*children);
            }
            false
        },
    }
}

/// The names of `nodes`, if they are all symbols.
fn symbol_names(nodes: &Vec<AstNode>) -> (r: Option<Vec<String>>)
    ensures
        match r {
            Some(names) => all_symbols(forest_of(nodes@)) && texts(names@) == names_of(
                forest_of(nodes@),
            ),
            None => !all_symbols(forest_of(nodes@)),
        },
{
    let mut names: Vec<String> = Vec::new();
    let mut i: usize = 0;
    while i < nodes.len()
        invariant
            i <= nodes.len(),
            names.len() == i,
            forall|k: int|
                0 <= k < i ==> (#[trigger] forest_of(nodes@)[k]) == Tree::Leaf(
                    Atom::Symbol(names@[k]@),
                ),
        decreases nodes.len() - i,
    {
        match &nodes[i] {
            AstNode::Leaf(Node::Symbol(name)) => {
                names.push(name.clone());
            },
            AstNode::Leaf(Node::Number(_)) => {
                return None;
            },
            AstNode::Body(children) => {
                proof {
                    lemma_body_view(*children);
                }
                assert(!(forest_of(nodes@)[i as int] is Leaf));
                return None;
            },
        }
        i = i + 1;
    }
    Some(names)
}

impl Parser {
    /// Evaluates `ast` in scope `env_id`, to at most `depth` nested forms
    /// and calls.
    ///
    /// The result is a value, no value (a `define`, or a form whose
    /// operator yields no value), or the failure that stopped the
    /// evaluation; scopes made and names bound before a failure stay.
    /// Where the store and `ast` hold numbers only, so do the store
    /// afterwards and the value.
    pub fn eval<'a>(
        ast: &'a AstNode,
        env_manager: &mut EnvManager<'a>,
        env_id: EnvId,
        depth: usize,
    ) -> (r: Result<Option<EnvType<'a>>, EvalError<'a>>)
        requires
            old(env_manager).wf(),
        ensures
            final(env_manager).wf(),
            eval(ast@, old(env_manager)@, env_id@, depth as nat) == (Outcome {
                store: final(env_manager)@,
                result: result_of(r),
            }),
            store_numeric(old(env_manager)@) && tree_numeric(ast@) ==> store_numeric(
                final(env_manager)@,
            ) && (r matches Ok(Some(v)) ==> value_numeric(v@)),
        decreases depth, 0nat,
    {
        let ghost store = env_manager@;
        proof {
            if store_numeric(store) && tree_numeric(ast@) {
                law_eval_numeric(ast@, store, env_id@, depth as nat);
            }
        }
        let body: &Vec<AstNode> = match ast {
            AstNode::Leaf(node) => {
                return match node.resolve(env_manager, &env_id) {
                    Ok(Some(v)) => Ok(Some(v)),
                    Ok(None) => Err(EvalError::UnboundSymbol(node.unwrap_symbol().clone())),
                    Err(e) => Err(e),
                };
            },
            AstNode::Body(body) => body,
        };
        if env_manager.get(&env_id).is_err() {
            return Err(EvalError::InvalidScopeId(env_id));
        }
        proof {
            lemma_body_view(*body);
            reveal_strlit("define");
            reveal_strlit("lambda");
            assert("define"@ =~= define_word());
            assert("lambda"@ =~= lambda_word());
        }
        let ghost children = forest_of(body@);
        if body.len() == 0 {
            return Err(EvalError::EmptyForm);
        }
        if is_symbol(&body[0], "define") {
            if body.len() != 3 {
                return Err(EvalError::MalformedSpecialForm);
            }
            let name: &String = match &body[1] {
                AstNode::Leaf(Node::Symbol(name)) => name,
                AstNode::Leaf(Node::Number(_)) => {
                    return Err(EvalError::MalformedSpecialForm);
                },
                AstNode::Body(inner) => {
                    proof {
                        lemma_body_view(*inner);
                    }
                    return Err(EvalError::MalformedSpecialForm);
                },
            };
            if depth == 0 {
                return Err(EvalError::DepthExceeded);
            }
            proof {
                lemma_eval_orderly(children[2], store, env_id@, (depth - 1) as nat);
            }
            return match Self::eval(&body[2], env_manager, env_id, depth - 1) {
                Err(e) => Err(e),
                Ok(None) => Err(EvalError::NoValue),
                Ok(Some(v)) => match env_manager.assign(&env_id, name.clone(), v) {
                    Ok(_) => Ok(None),
                    Err(e) => Err(e),
                },
            };
        }
        if is_symbol(&body[0], "lambda") {
            if body.len() != 3 {
                return Err(EvalError::MalformedSpecialForm);
            }
            let params: &Vec<AstNode> = match &body[1] {
                AstNode::Leaf(_) => {
                    return Err(EvalError::MalformedSpecialForm);
                },
                AstNode::Body(params) => {
                    proof {
                        lemma_body_view(*params);
                    }
                    params
                },
            };
            return match symbol_names(params) {
                Some(names) => Ok(Some(EnvType::Proc(ProcInfo::new(names, &body[2], env_id)))),
                None => Err(EvalError::MalformedSpecialForm),
            };
        }
        if depth == 0 {
            return Err(EvalError::DepthExceeded);
        }
        proof {
            lemma_eval_orderly(children[0], store, env_id@, (depth - 1) as nat);
        }
        let operator: EnvType<'a> = match Self::eval(&body[0], env_manager, env_id, depth - 1) {
            Err(e) => {
                return Err(e);
            },
            Ok(None) => {
                return Ok(None);
            },
            Ok(Some(f)) => f,
        };
        let ghost after_operator = env_manager@;
        proof {
            lemma_eval_args_orderly(
                children,
                1,
                Seq::empty(),
                after_operator,
                env_id@,
                (depth - 1) as nat,
            );
        }
        let args: Vec<EnvType<'a>> = match Self::eval_args(body, env_manager, env_id, depth - 1) {
            Err(e) => {
                return Err(e);
            },
            Ok(args) => args,
        };
        Self::apply(operator, args, env_manager, depth - 1)
    }

    /// Evaluates the arguments of the form `body`, that is its children
    /// after the first, from left to right.
    fn eval_args<'a>(
        body: &'a Vec<AstNode>,
        env_manager: &mut EnvManager<'a>,
        env_id: EnvId,
        depth: usize,
    ) -> (r: Result<Vec<EnvType<'a>>, EvalError<'a>>)
        requires
            old(env_manager).wf(),
            body.len() >= 1,
        ensures
            final(env_manager).wf(),
            eval_args(
                forest_of(body@),
                1,
                Seq::empty(),
                old(env_manager)@,
                env_id@,
                depth as nat,
            ) == (ArgsOutcome {
                store: final(env_manager)@,
                result: match r {
                    Ok(values) => Ok(values_of(values@)),
                    Err(e) => Err(e@),
                },
            }),
        decreases depth, 1nat,
    {
        let ghost children = forest_of(body@);
        let ghost start = env_manager@;
        let mut values: Vec<EnvType<'a>> = Vec::new();
        let mut i: usize = 1;
        assert(values_of(values@) =~= Seq::<Value>::empty());
        while i < body.len()
            invariant
                1 <= i <= body.len(),
                env_manager.wf(),
                children == forest_of(body@),
                start == old(env_manager)@,
                eval_args(children, i as nat, values_of(values@), env_manager@, env_id@, depth as nat)
                    == eval_args(children, 1, Seq::empty(), start, env_id@, depth as nat),
            decreases body.len() - i,
        {
            let ghost acc = values_of(values@);
            match Self::eval(&body[i], env_manager, env_id, depth) {
                Err(e) => {
                    return Err(e);
                },
                Ok(None) => {
                    return Err(EvalError::NoValue);
                },
                Ok(Some(v)) => {
                    values.push(v);
                    assert(values_of(values@) =~= acc.push(v@));
                },
            }
            i = i + 1;
        }
        Ok(values)
    }

    /// Applies `operator` to `args`.
    fn apply<'a>(
        operator: EnvType<'a>,
        args: Vec<EnvType<'a>>,
        env_manager: &mut EnvManager<'a>,
        depth: usize,
    ) -> (r: Result<Option<EnvType<'a>>, EvalError<'a>>)
        requires
            old(env_manager).wf(),
            value_ok(operator@, old(env_manager)@.len()),
            values_ok(values_of(args@), old(env_manager)@.len()),
        ensures
            final(env_manager).wf(),
            apply(operator@, values_of(args@), old(env_manager)@, depth as nat) == (Outcome {
                store: final(env_manager)@,
                result: result_of(r),
            }),
        decreases depth, 1nat,
    {
        let ghost store = env_manager@;
        match operator {
            EnvType::NativeProc(name) => match Env::native_call(&name, args) {
                Ok(v) => Ok(Some(v)),
                Err(e) => Err(e),
            },
            EnvType::Proc(closure) => {
                let ghost c = closure@;
                let ghost values = values_of(args@);
                let scope: EnvId = env_manager.new_env(Some(closure.captured()));
                let params: &Vec<String> = closure.args();
                let mut i: usize = 0;
                while i < params.len() && i < args.len()
                    invariant
                        i <= params.len(),
                        i <= args.len(),
                        env_manager.wf(),
                        scope@ == store.len(),
                        texts(params@) == c.params,
                        values == values_of(args@),
                        values_ok(values, store.len()),
                        env_manager@ == store.push(
                            Scope {
                                id: store.len(),
                                parent: Some(c.captured),
                                variables: bound(c.params, values, i as nat),
                            },
                        ),
                    decreases params.len() - i,
                {
                    assert(values[i as int] == args@[i as int]@);
                    let _ = env_manager.assign(&scope, params[i].clone(), args[i].clone());
                    i = i + 1;
                }
                Self::eval(closure.body(), env_manager, scope, depth)
            },
            EnvType::Number(n) => Err(EvalError::NotCallable(EnvType::Number(n))),
        }
    }
}

} // verus!
