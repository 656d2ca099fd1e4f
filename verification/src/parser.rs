//! Tokenizer and parser.
use crate::error::ParseError;
use crate::grammar::{atom_of, balanced, law_parse_iff_balanced, parsed, run, step};
use crate::lexer::{flush, scan, texts, tokens_of};
use crate::number::{float_literal, is_float_literal};
use crate::numeric::law_parsed_is_numeric;
use crate::syntax::{
    atom_numeric, forest_numeric, forest_of, lemma_body_view, AstNode, Node, Tree,
};
use std::collections::VecDeque;
use vstd::prelude::*;

verus! {

/// The front end of the language: text to tokens, tokens to syntax trees,
/// syntax trees to values.
pub struct Parser {}

/// Ends the atom gathered in `acc`, if there is one, and hands back the
/// empty accumulator.
fn flush_atom(tokens: &mut VecDeque<String>, acc: String) -> (empty: String)
    ensures
        texts(final(tokens)@) == texts(old(tokens)@) + flush(acc@),
        empty@.len() == 0,
{
    if acc.as_str().is_empty() {
        acc
    } else {
        tokens.push_back(acc);
        String::new()
    }
}

/// The forests that the entries of a parse stack denote.
pub open spec fn stack_of(stack: Seq<Vec<AstNode>>) -> Seq<Seq<Tree>> {
    Seq::new(stack.len(), |i: int| forest_of(stack[i]@))
}

impl Node {
    /// The atom that the token `text` stands for: a number exactly when
    /// the whole of `text` is a floating-point literal.
    pub fn classify(text: String) -> (node: Node)
        ensures
            node@ == atom_of(text@),
            node is Number <==> is_float_literal(text@),
            atom_numeric(node@),
    {
        if float_literal(text.as_str()) {
            Node::Number(text)
        } else {
            Node::Symbol(text)
        }
    }
}

/// Appends `node` to the innermost open form of `stack`.
fn push_child(stack: &mut Vec<Vec<AstNode>>, node: AstNode)
    requires
        old(stack).len() >= 1,
    ensures
        stack_of(final(stack)@) == stack_of(old(stack)@).drop_last().push(
            stack_of(old(stack)@).last().push(node@),
        ),
        final(stack).len() == old(stack).len(),
{
    let ghost before = stack@;
    match stack.pop() {
        Some(top) => {
            let mut top = top;
            top.push(node);
            stack.push(top);
            assert(stack_of(stack@) =~= stack_of(before).drop_last().push(
                stack_of(before).last().push(node@),
            )) by {
                assert(forest_of(top@) =~= forest_of(before.last()@).push(node@));
                assert forall|i: int| 0 <= i < stack@.len() - 1 implies stack_of(stack@)[i]
                    == stack_of(before)[i] by {
                    assert(stack@[i] == before[i]);
                }
            }
        },
        None => {},
    }
}

impl Parser {
    /// Splits source text into tokens.
    pub fn tokenise(s: String) -> (tokens: VecDeque<String>)
        ensures
            texts(tokens@) == tokens_of(s@),
    {
        let mut tokens: VecDeque<String> = VecDeque::new();
        let mut acc: String = String::new();
        assert(s@.skip(0) =~= s@);
        for c in it: s.as_str().chars()
            invariant
                it.seq() == s@,
                texts(tokens@) + scan(s@.skip(it.index() as int), acc@) == tokens_of(s@),
        {
            let ghost rest = s@.skip(it.index() as int);
            assert(rest.drop_first() =~= s@.skip(it.index() + 1));
            if c == '(' || c == ')' {
                acc = flush_atom(&mut tokens, acc);
                let ghost flushed = tokens@;
                let mut paren: String = String::new();
                paren.push(c);
                tokens.push_back(paren);
                assert(texts(tokens@) =~= texts(flushed) + seq![seq![c]]);
                assert(acc@ =~= Seq::<char>::empty());
            } else if c == ' ' || c == '\t' || c == '\n' || c == '\x0B' || c == '\x0C' || c == '\r' {
                acc = flush_atom(&mut tokens, acc);
                assert(acc@ =~= Seq::<char>::empty());
            } else {
                acc.push(c);
            }
        }
        let _ = flush_atom(&mut tokens, acc);
        tokens
    }

    /// Builds the forest of syntax trees that `tokens` spell, consuming
    /// them all. It fails exactly when the parentheses do not balance.
    pub fn parse(tokens: &mut VecDeque<String>) -> (r: Result<Vec<AstNode>, ParseError>)
        ensures
            final(tokens)@.len() == 0,
            r is Ok <==> balanced(texts(old(tokens)@)),
            r matches Ok(forest) ==> forest_numeric(forest_of(forest@)),
            match r {
                Ok(forest) => parsed(texts(old(tokens)@)) == Some(forest_of(forest@)),
                Err(e) => parsed(texts(old(tokens)@)) is None && e
                    == ParseError::UnbalancedParentheses,
            },
    {
        proof {
            law_parse_iff_balanced(texts(tokens@));
            law_parsed_is_numeric(texts(tokens@));
        }
        let mut stack: Vec<Vec<AstNode>> = Vec::new();
        stack.push(Vec::new());
        assert(stack_of(stack@) =~= seq![Seq::<Tree>::empty()]) by {
            assert(forest_of(stack@[0]@) =~= Seq::<Tree>::empty());
        }
        while tokens.len() > 0
            invariant
                stack.len() >= 1,
                parsed(texts(old(tokens)@)) is Some <==> balanced(texts(old(tokens)@)),
                parsed(texts(old(tokens)@)) matches Some(forest) ==> forest_numeric(forest),
                run(stack_of(stack@), texts(tokens@)) == run(
                    seq![Seq::<Tree>::empty()],
                    texts(old(tokens)@),
                ),
            decreases tokens.len(),
        {
            let ghost before = tokens@;
            let ghost frames = stack_of(stack@);
            let popped: Option<String> = tokens.pop_front();
            let tok: String = match popped {
                Some(tok) => tok,
                None => {
                    return Err(ParseError::UnbalancedParentheses);
                },
            };
            proof {
                reveal_strlit("(");
                reveal_strlit(")");
                assert("("@ =~= seq!['(']);
                assert(")"@ =~= seq![')']);
                assert(texts(before).drop_first() =~= texts(tokens@));
            }
            if tok.as_str().eq("(") {
                stack.push(Vec::new());
                assert(stack_of(stack@) =~= frames.push(Seq::empty())) by {
                    assert(forest_of(stack@.last()@) =~= Seq::<Tree>::empty());
                }
            } else if tok.as_str().eq(")") {
                if stack.len() < 2 {
                    tokens.clear();
                    return Err(ParseError::UnbalancedParentheses);
                }
                match stack.pop() {
                    Some(children) => {
                        proof {
                            lemma_body_view(children);
                        }
                        push_child(&mut stack, AstNode::Body(children));
                    },
                    None => {},
                }
            } else {
                push_child(&mut stack, AstNode::Leaf(Node::classify(tok)));
            }
            assert(step(frames, tok@) == Some(stack_of(stack@)));
        }
        if stack.len() != 1 {
            return Err(ParseError::UnbalancedParentheses);
        }
        match stack.pop() {
            Some(forest) => Ok(forest),
            None => Err(ParseError::UnbalancedParentheses),
        }
    }
}

} // verus!
