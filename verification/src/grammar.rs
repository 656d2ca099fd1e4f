//! The parse of a token sequence into a forest of syntax trees.
use crate::number::is_float_literal;
use crate::syntax::{Atom, Tree};
use vstd::prelude::*;

verus! {

/// The token `(`.
pub open spec fn is_open(token: Seq<char>) -> bool {
    token == seq!['(']
}

/// The token `)`.
pub open spec fn is_close(token: Seq<char>) -> bool {
    token == seq![')']
}

/// The atom that a token other than a parenthesis stands for: a number if
/// the whole token is a floating-point literal, a symbol if not.
pub open spec fn atom_of(token: Seq<char>) -> Atom {
    if is_float_literal(token) {
        Atom::Number(token)
    } else {
        Atom::Symbol(token)
    }
}

/// One step of the parse. `stack` holds the children read so far of every
/// form that is still open, outermost first; its first entry is the forest
/// itself. The result is `None` when `token` closes a form and none is open.
pub open spec fn step(stack: Seq<Seq<Tree>>, token: Seq<char>) -> Option<Seq<Seq<Tree>>> {
    if stack.len() == 0 {
        None
    } else if is_open(token) {
        Some(stack.push(Seq::empty()))
    } else if is_close(token) {
        if stack.len() < 2 {
            None
        } else {
            let form = Tree::Body(stack.last());
            let outer = stack.drop_last();
            Some(outer.drop_last().push(outer.last().push(form)))
        }
    } else {
        Some(stack.drop_last().push(stack.last().push(Tree::Leaf(atom_of(token)))))
    }
}

/// The stack after all of `tokens`, or `None` if a step fails.
pub open spec fn run(stack: Seq<Seq<Tree>>, tokens: Seq<Seq<char>>) -> Option<Seq<Seq<Tree>>>
    decreases tokens.len(),
{
    if tokens.len() == 0 {
        Some(stack)
    } else {
        match step(stack, tokens[0]) {
            Some(next) => run(next, tokens.drop_first()),
            None => None,
        }
    }
}

/// The forest that `tokens` spell, or `None` if their parentheses do not
/// balance.
pub open spec fn parsed(tokens: Seq<Seq<char>>) -> Option<Seq<Tree>> {
    match run(seq![Seq::empty()], tokens) {
        Some(stack) => if stack.len() == 1 {
            Some(stack[0])
        } else {
            None
        },
        None => None,
    }
}

/// The nesting depth after `tokens`, starting from `depth`, or `None` if a
/// `)` comes when the depth is zero.
pub open spec fn depth_after(depth: nat, tokens: Seq<Seq<char>>) -> Option<nat>
    decreases tokens.len(),
{
    if tokens.len() == 0 {
        Some(depth)
    } else if is_open(tokens[0]) {
        depth_after(depth + 1, tokens.drop_first())
    } else if is_close(tokens[0]) {
        if depth == 0 {
            None
        } else {
            depth_after((depth - 1) as nat, tokens.drop_first())
        }
    } else {
        depth_after(depth, tokens.drop_first())
    }
}

/// Every `)` closes an open `(`, and no `(` is left open.
pub open spec fn balanced(tokens: Seq<Seq<char>>) -> bool {
    depth_after(0, tokens) == Some(0nat)
}

/// How many of `tokens` are `(`.
pub open spec fn opens(tokens: Seq<Seq<char>>) -> nat
    decreases tokens.len(),
{
    if tokens.len() == 0 {
        0
    } else {
        (if is_open(tokens[0]) {
            1nat
        } else {
            0nat
        }) + opens(tokens.drop_first())
    }
}

/// How many of `tokens` are `)`.
pub open spec fn closes(tokens: Seq<Seq<char>>) -> nat
    decreases tokens.len(),
{
    if tokens.len() == 0 {
        0
    } else {
        (if is_close(tokens[0]) {
            1nat
        } else {
            0nat
        }) + closes(tokens.drop_first())
    }
}

/// How many forms `tokens` complete at depth zero, starting from `depth`:
/// an atom read at depth zero is one, and so is a `)` that returns to depth
/// zero.
pub open spec fn top_level_forms(depth: nat, tokens: Seq<Seq<char>>) -> nat
    decreases tokens.len(),
{
    if tokens.len() == 0 {
        0
    } else if is_open(tokens[0]) {
        top_level_forms(depth + 1, tokens.drop_first())
    } else if is_close(tokens[0]) {
        if depth == 0 {
            0
        } else {
            (if depth == 1 {
                1nat
            } else {
                0nat
            }) + top_level_forms((depth - 1) as nat, tokens.drop_first())
        }
    } else {
        (if depth == 0 {
            1nat
        } else {
            0nat
        }) + top_level_forms(depth, tokens.drop_first())
    }
}

/// The parse follows the nesting depth: it fails where the depth does, and
/// otherwise ends with `depth + 1` open entries, the first of which has
/// grown by the forms completed at depth zero.
proof fn lemma_run_depth(stack: Seq<Seq<Tree>>, tokens: Seq<Seq<char>>)
    requires
        stack.len() >= 1,
    ensures
        match run(stack, tokens) {
            Some(end) => {
                &&& depth_after((stack.len() - 1) as nat, tokens) == Some((end.len() - 1) as nat)
                &&& end.len() >= 1
                &&& end[0].len() == stack[0].len() + top_level_forms(
                    (stack.len() - 1) as nat,
                    tokens,
                )
            },
            None => depth_after((stack.len() - 1) as nat, tokens) is None,
        },
    decreases tokens.len(),
{
    if tokens.len() > 0 {
        if let Some(next) = step(stack, tokens[0]) {
            lemma_run_depth(next, tokens.drop_first());
        }
    }
}

/// The depth after `tokens`, where there is one, is the starting depth
/// plus the number of `(` less the number of `)`.
proof fn lemma_depth_counts(depth: nat, tokens: Seq<Seq<char>>)
    ensures
        depth_after(depth, tokens) matches Some(end) ==> end == depth + opens(tokens) - closes(
            tokens,
        ),
    decreases tokens.len(),
{
    if tokens.len() > 0 {
        assert(!(is_open(tokens[0]) && is_close(tokens[0]))) by {
            assert(seq!['('][0] != seq![')'][0]);
        }
        if is_open(tokens[0]) {
            lemma_depth_counts(depth + 1, tokens.drop_first());
        } else if is_close(tokens[0]) {
            if depth > 0 {
                lemma_depth_counts((depth - 1) as nat, tokens.drop_first());
            }
        } else {
            lemma_depth_counts(depth, tokens.drop_first());
        }
    }
}

/// A token sequence has a parse exactly when its parentheses balance.
pub proof fn law_parse_iff_balanced(tokens: Seq<Seq<char>>)
    ensures
        parsed(tokens) is Some <==> balanced(tokens),
{
    lemma_run_depth(seq![Seq::empty()], tokens);
}

/// A token sequence with unequal numbers of `(` and `)` has no parse.
pub proof fn law_unequal_counts_fail(tokens: Seq<Seq<char>>)
    requires
        opens(tokens) != closes(tokens),
    ensures
        parsed(tokens) is None,
{
    lemma_run_depth(seq![Seq::empty()], tokens);
    lemma_depth_counts(0, tokens);
}

/// The forest parsed from a balanced token sequence has one tree for each
/// top-level form.
pub proof fn law_forest_size(tokens: Seq<Seq<char>>)
    requires
        balanced(tokens),
    ensures
        parsed(tokens) matches Some(forest) && forest.len() == top_level_forms(0, tokens),
{
    lemma_run_depth(seq![Seq::empty()], tokens);
}

/// The text of an atom.
pub open spec fn atom_text(atom: Atom) -> Seq<char> {
    match atom {
        Atom::Symbol(name) => name,
        Atom::Number(text) => text,
    }
}

/// The tokens that spell `tree`: the text of a leaf; for a form, `(`, the
/// spellings of its children, and `)`.
pub open spec fn spelling(tree: Tree) -> Seq<Seq<char>>
    decreases tree, 0nat,
{
    match tree {
        Tree::Leaf(atom) => seq![atom_text(atom)],
        Tree::Body(children) => seq![seq!['(']] + spelling_all(children, children.len())
            + seq![seq![')']],
    }
}

/// The spellings of the first `n` trees of `trees`, one after another.
pub open spec fn spelling_all(trees: Seq<Tree>, n: nat) -> Seq<Seq<char>>
    decreases trees, n,
{
    if n == 0 || n > trees.len() {
        Seq::empty()
    } else {
        spelling_all(trees, (n - 1) as nat) + spelling(trees[n - 1])
    }
}

/// The spelling of a forest.
pub open spec fn spelling_of(forest: Seq<Tree>) -> Seq<Seq<char>> {
    spelling_all(forest, forest.len())
}

/// `tree` is one that a parse can yield: the text of each leaf is not a
/// parenthesis, and the leaf is the atom that its text stands for.
pub open spec fn proper(tree: Tree) -> bool
    decreases tree,
{
    match tree {
        Tree::Leaf(atom) => !is_open(atom_text(atom)) && !is_close(atom_text(atom)) && atom_of(
            atom_text(atom),
        ) == atom,
        Tree::Body(children) => forall|i: int|
            0 <= i < children.len() ==> proper(#[trigger] children[i]),
    }
}

/// Every tree of `forest` is proper.
pub open spec fn all_proper(forest: Seq<Tree>) -> bool {
    forall|i: int| 0 <= i < forest.len() ==> proper(#[trigger] forest[i])
}

/// What has been read when the parse stack is `stack`, as far as its
/// first `k` entries tell: the spelling of the forest, and for every open
/// form its `(` and the spelling of its children so far.
spec fn spelling_of_stack(stack: Seq<Seq<Tree>>, k: nat) -> Seq<Seq<char>>
    decreases k,
{
    if k == 0 || k > stack.len() {
        Seq::empty()
    } else if k == 1 {
        spelling_of(stack[0])
    } else {
        spelling_of_stack(stack, (k - 1) as nat) + seq![seq!['(']] + spelling_of(stack[k - 1])
    }
}

/// The spelling of the first `n` trees depends on those trees only.
proof fn lemma_spelling_prefix(a: Seq<Tree>, b: Seq<Tree>, n: nat)
    requires
        n <= a.len(),
        n <= b.len(),
        forall|i: int| 0 <= i < n ==> a[i] == b[i],
    ensures
        spelling_all(a, n) == spelling_all(b, n),
    decreases n,
{
    if n > 0 {
        lemma_spelling_prefix(a, b, (n - 1) as nat);
    }
}

/// The spelling of a forest with one more tree.
proof fn lemma_spelling_push(forest: Seq<Tree>, tree: Tree)
    ensures
        spelling_of(forest.push(tree)) == spelling_of(forest) + spelling(tree),
{
    lemma_spelling_prefix(forest.push(tree), forest, forest.len());
}

/// What the first `k` entries of a stack spell depends on those entries
/// only.
proof fn lemma_stack_prefix(a: Seq<Seq<Tree>>, b: Seq<Seq<Tree>>, k: nat)
    requires
        k <= a.len(),
        k <= b.len(),
        forall|i: int| 0 <= i < k ==> a[i] == b[i],
    ensures
        spelling_of_stack(a, k) == spelling_of_stack(b, k),
    decreases k,
{
    if k > 0 {
        lemma_stack_prefix(a, b, (k - 1) as nat);
    }
}

/// A step of the parse adds the token it reads to what the stack spells.
proof fn lemma_step_spells(stack: Seq<Seq<Tree>>, token: Seq<char>)
    ensures
        step(stack, token) matches Some(next) ==> spelling_of_stack(next, next.len())
            == spelling_of_stack(stack, stack.len()).push(token),
{
    let n = stack.len();
    if n == 0 {
    } else if is_open(token) {
        lemma_stack_prefix(stack.push(Seq::empty()), stack, n);
    } else if is_close(token) {
        if n >= 2 {
            // The closed form joins the children of the form around it.
            let form = Tree::Body(stack.last());
            let outer = stack.drop_last();
            let next = outer.drop_last().push(outer.last().push(form));
            let open = seq![seq!['(']];
            lemma_spelling_push(outer.last(), form);
            lemma_stack_prefix(next, stack, (n - 2) as nat);
            if n == 2 {
                assert(spelling_of_stack(stack, 2) == spelling_of_stack(stack, 1) + open
                    + spelling_of(stack.last()));
            } else {
                assert(spelling_of_stack(stack, (n - 1) as nat) == spelling_of_stack(
                    stack,
                    (n - 2) as nat,
                ) + open + spelling_of(outer.last()));
            }
        }
    } else {
        let leaf = Tree::Leaf(atom_of(token));
        let next = stack.drop_last().push(stack.last().push(leaf));
        lemma_spelling_push(stack.last(), leaf);
        lemma_stack_prefix(next, stack, (n - 1) as nat);
    }
}

/// The parse adds the tokens it reads to what the stack spells.
proof fn lemma_run_spells(stack: Seq<Seq<Tree>>, tokens: Seq<Seq<char>>)
    ensures
        run(stack, tokens) matches Some(end) ==> spelling_of_stack(end, end.len())
            == spelling_of_stack(stack, stack.len()) + tokens,
    decreases tokens.len(),
{
    if tokens.len() > 0 {
        lemma_step_spells(stack, tokens[0]);
        if let Some(next) = step(stack, tokens[0]) {
            lemma_run_spells(next, tokens.drop_first());
        }
    }
}

/// A parse loses nothing and adds nothing: the forest parsed from a token
/// sequence spells that very sequence.
pub proof fn law_parse_then_spell(tokens: Seq<Seq<char>>)
    ensures
        parsed(tokens) matches Some(forest) ==> spelling_of(forest) == tokens,
{
    lemma_run_spells(seq![Seq::<Tree>::empty()], tokens);
}

/// The parse of one token sequence after another.
proof fn lemma_run_concat(stack: Seq<Seq<Tree>>, a: Seq<Seq<char>>, b: Seq<Seq<char>>)
    ensures
        run(stack, a + b) == (match run(stack, a) {
            Some(mid) => run(mid, b),
            None => None,
        }),
    decreases a.len(),
{
    if a.len() > 0 {
        assert((a + b).drop_first() =~= a.drop_first() + b);
        if let Some(next) = step(stack, a[0]) {
            lemma_run_concat(next, a.drop_first(), b);
        }
    }
}

/// The parse of a single token is one step.
proof fn lemma_run_one(stack: Seq<Seq<Tree>>, token: Seq<char>)
    ensures
        run(stack, seq![token]) == step(stack, token),
{
    if let Some(next) = step(stack, token) {
        assert(run(next, seq![token].drop_first()) == Some(next));
    }
}

/// Reading the spelling of a proper tree appends that tree to the
/// innermost open form.
proof fn lemma_run_spelling(tree: Tree, stack: Seq<Seq<Tree>>)
    requires
        stack.len() >= 1,
        proper(tree),
    ensures
        run(stack, spelling(tree)) == Some(stack.drop_last().push(stack.last().push(tree))),
    decreases tree, 0nat,
{
    match tree {
        Tree::Leaf(atom) => {
            lemma_run_one(stack, atom_text(atom));
        },
        Tree::Body(children) => {
            // `(` opens a form, the children fill it, and `)` closes it.
            let open = seq![seq!['(']];
            let close = seq![seq![')']];
            let inside = spelling_all(children, children.len());
            let opened = stack.push(Seq::empty());
            let filled = stack.push(children);
            lemma_run_concat(stack, open + inside, close);
            lemma_run_concat(stack, open, inside);
            lemma_run_one(stack, seq!['(']);
            lemma_run_spelling_all(children, children.len(), opened);
            assert(opened.last() + children.take(children.len() as int) =~= children);
            assert(opened.drop_last().push(children) =~= filled);
            lemma_run_one(filled, seq![')']);
        },
    }
}

/// Reading the spellings of the first `n` trees of a forest of proper
/// trees appends those trees to the innermost open form.
proof fn lemma_run_spelling_all(trees: Seq<Tree>, n: nat, stack: Seq<Seq<Tree>>)
    requires
        stack.len() >= 1,
        n <= trees.len(),
        forall|i: int| 0 <= i < n ==> proper(#[trigger] trees[i]),
    ensures
        run(stack, spelling_all(trees, n)) == Some(
            stack.drop_last().push(stack.last() + trees.take(n as int)),
        ),
    decreases trees, n,
{
    if n > 0 {
        let before = stack.drop_last().push(stack.last() + trees.take(n - 1));
        lemma_run_spelling_all(trees, (n - 1) as nat, stack);
        lemma_run_concat(stack, spelling_all(trees, (n - 1) as nat), spelling(trees[n - 1]));
        lemma_run_spelling(trees[n - 1], before);
        assert(before.last().push(trees[n - 1]) =~= stack.last() + trees.take(n as int));
    }
}

/// Spelling a forest of proper trees and parsing the tokens gives the
/// forest back: with [`law_parse_then_spell`], parsing and spelling are
/// inverse to each other.
pub proof fn law_spell_then_parse(forest: Seq<Tree>)
    requires
        all_proper(forest),
    ensures
        parsed(spelling_of(forest)) == Some(forest),
{
    lemma_run_spelling_all(forest, forest.len(), seq![Seq::<Tree>::empty()]);
}

/// Every entry of `stack` holds proper trees only.
spec fn stack_proper(stack: Seq<Seq<Tree>>) -> bool {
    forall|i: int| 0 <= i < stack.len() ==> all_proper(#[trigger] stack[i])
}

/// The parse keeps a stack of proper trees proper.
proof fn lemma_run_proper(stack: Seq<Seq<Tree>>, tokens: Seq<Seq<char>>)
    requires
        stack_proper(stack),
    ensures
        run(stack, tokens) matches Some(end) ==> stack_proper(end),
    decreases tokens.len(),
{
    if tokens.len() > 0 {
        if let Some(next) = step(stack, tokens[0]) {
            assert(stack_proper(next));
            lemma_run_proper(next, tokens.drop_first());
        }
    }
}

/// Every tree that a parse yields is proper.
pub proof fn law_parsed_is_proper(tokens: Seq<Seq<char>>)
    ensures
        parsed(tokens) matches Some(forest) ==> all_proper(forest),
{
    lemma_run_proper(seq![Seq::<Tree>::empty()], tokens);
}

} // verus!
