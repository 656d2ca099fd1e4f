use sexp_eval::error::ParseError;
use sexp_eval::number::{float_literal, Number};
use sexp_eval::parser::Parser;
use sexp_eval::syntax::{AstNode, Node};
use std::collections::VecDeque;

fn texts(source: &str) -> Vec<String> {
    Parser::tokenise(source.to_string()).into_iter().collect()
}

fn forest(source: &str) -> Result<Vec<AstNode>, ParseError> {
    let mut tokens = Parser::tokenise(source.to_string());
    let parsed = Parser::parse(&mut tokens);
    assert!(tokens.is_empty());
    parsed
}

fn show(node: &AstNode) -> String {
    match node {
        AstNode::Leaf(Node::Symbol(name)) => format!("s:{}", name),
        AstNode::Leaf(Node::Number(text)) => format!("n:{}", text),
        AstNode::Body(children) => {
            let inner: Vec<String> = children.iter().map(show).collect();
            format!("[{}]", inner.join(" "))
        }
    }
}

#[test]
fn tokenise_splits_parens_and_atoms() {
    assert_eq!(texts("(define r 10)"), vec!["(", "define", "r", "10", ")"]);
}

#[test]
fn tokenise_empty_input_gives_no_tokens() {
    assert!(texts("").is_empty());
    assert!(texts("   \t\n ").is_empty());
}

#[test]
fn tokenise_flushes_the_last_atom() {
    assert_eq!(texts("x"), vec!["x"]);
    assert_eq!(texts("(define x 5) x"), vec!["(", "define", "x", "5", ")", "x"]);
}

#[test]
fn tokenise_parens_need_no_blanks() {
    assert_eq!(texts("((a)b)"), vec!["(", "(", "a", ")", "b", ")"]);
    assert_eq!(texts(")("), vec![")", "("]);
}

#[test]
fn tokenise_treats_every_blank_as_a_separator() {
    assert_eq!(texts("a\tb\nc\rd\x0Ce  f\x0Bg"), vec!["a", "b", "c", "d", "e", "f", "g"]);
    assert_eq!(texts("(a\x0B)"), vec!["(", "a", ")"]);
}

#[test]
fn tokenise_keeps_other_characters_in_atoms() {
    assert_eq!(texts("a-b *c* 1.5e3 \"q\""), vec!["a-b", "*c*", "1.5e3", "\"q\""]);
}

#[test]
fn tokenise_then_join_is_idempotent() {
    for source in [
        "(define  r   10)(* pi (* r r))",
        "  ((outer 3)2)  ",
        "",
        ")) x ((",
        "(lambda (a)\n\t(lambda (b) (* a b)))",
    ] {
        let once = texts(source).join(" ");
        let twice = texts(&once).join(" ");
        assert_eq!(texts(&once), texts(source));
        assert_eq!(once, twice);
    }
    assert_eq!(texts("(define  r   10)").join(" "), "( define r 10 )");
}

#[test]
fn names_classify_as_symbols() {
    for name in ["pi", "outer", "a1", "*", "define", "e", "e5", "x.", "+", "-", ".", "1e", "1e+", "0x10", "1_000", "infinit", "na", "1.2.3", "--1", "1e5.0", "12a", ""] {
        assert!(!float_literal(name), "{name}");
    }
    for name in ["pi", "outer", "a1"] {
        assert!(matches!(Node::classify(name.to_string()), Node::Symbol(text) if text == name));
    }
}

#[test]
fn float_literals_classify_as_numbers() {
    for text in ["10", "3", "0", "1.5", "1.", ".5", "+1", "-1", "-.5", "+5.", "1e5", "1E5", "1e+5", "1e-5", "1.e5", ".5e1", "1.5e10", "007", "inf", "+inf", "-inf", "INF", "Infinity", "-iNfInItY", "nan", "NaN", "+nan", "-NAN", "3.141592653589793"] {
        assert!(float_literal(text), "{text}");
        assert!(matches!(Node::classify(text.to_string()), Node::Number(kept) if kept == text));
    }
}

#[test]
fn classification_agrees_with_the_float_parser() {
    for text in ["10", "1.", ".5", ".", "e", "1e", "1e5", "+", "+.", "-.e1", "inf", "infinity", "infinit", "nan", "nano", "1.5.", "5e-", "5e-3", "5E+03", "++5", "0.0", "-0", "1 ", "١"] {
        assert_eq!(float_literal(text), text.parse::<f64>().is_ok(), "{text}");
    }
}

#[test]
fn parse_builds_nested_forms() {
    let trees = forest("(define r 10) (* pi (* r r))").unwrap();
    let shown: Vec<String> = trees.iter().map(show).collect();
    assert_eq!(shown, vec!["[s:define s:r n:10]", "[s:* s:pi [s:* s:r s:r]]"]);
}

#[test]
fn parse_empty_input_gives_an_empty_forest() {
    assert!(forest("").unwrap().is_empty());
}

#[test]
fn parse_keeps_empty_forms() {
    let shown: Vec<String> = forest("() (())").unwrap().iter().map(show).collect();
    assert_eq!(shown, vec!["[]", "[[]]"]);
}

#[test]
fn parse_rejects_an_unclosed_form() {
    assert_eq!(forest("(* 1 2").unwrap_err(), ParseError::UnbalancedParentheses);
    assert_eq!(forest("((a)").unwrap_err(), ParseError::UnbalancedParentheses);
}

#[test]
fn parse_rejects_a_close_with_nothing_open() {
    assert_eq!(forest(")").unwrap_err(), ParseError::UnbalancedParentheses);
    assert_eq!(forest("(a))").unwrap_err(), ParseError::UnbalancedParentheses);
    assert_eq!(forest(")(").unwrap_err(), ParseError::UnbalancedParentheses);
    assert_eq!(forest("a ) b ( c").unwrap_err(), ParseError::UnbalancedParentheses);
}

#[test]
fn parse_unequal_paren_counts_fail() {
    for source in ["(", ")", "(()", "())", "((a) (b)", "a b )"] {
        let opens = source.matches('(').count();
        let closes = source.matches(')').count();
        assert_ne!(opens, closes);
        assert_eq!(forest(source).unwrap_err(), ParseError::UnbalancedParentheses);
    }
}

#[test]
fn parse_forest_has_one_tree_per_top_level_form() {
    assert_eq!(forest("a").unwrap().len(), 1);
    assert_eq!(forest("a b c").unwrap().len(), 3);
    assert_eq!(forest("(a b c)").unwrap().len(), 1);
    assert_eq!(forest("(a (b)) c (d) 5").unwrap().len(), 4);
    assert_eq!(forest("(define x 5) (define x 7) x").unwrap().len(), 3);
}

#[test]
fn parse_drains_the_tokens_even_when_it_fails() {
    let mut tokens: VecDeque<String> = Parser::tokenise(") a b (c)".to_string());
    assert!(Parser::parse(&mut tokens).is_err());
    assert!(tokens.is_empty());
}

#[test]
fn syntax_accessors_read_what_was_built() {
    let mut form = AstNode::Body(Vec::new());
    form.push(AstNode::Leaf(Node::Symbol("f".to_string())));
    form.push(AstNode::Leaf(Node::Number("2".to_string())));
    let children = form.unwrap_body();
    assert_eq!(children.len(), 2);
    assert_eq!(children[0].unwrap_leaf().unwrap_symbol(), "f");
    assert!(matches!(children[1].unwrap_leaf(), Node::Number(text) if text == "2"));
}

#[test]
fn numbers_multiply_symbolically() {
    let product = Number::literal("2".to_string()).times(Number::literal("3.5".to_string()));
    match &product {
        Number::Product(a, b) => {
            assert!(matches!(&**a, Number::Literal(text) if text == "2"));
            assert!(matches!(&**b, Number::Literal(text) if text == "3.5"));
        }
        Number::Literal(_) => panic!("a product was expected"),
    }
    let copy = product.clone();
    assert_eq!(format!("{:?}", copy), format!("{:?}", product));
}

#[test]
fn classification_agrees_with_the_float_parser_on_all_short_tokens() {
    let alphabet = ['0', '7', '.', '+', '-', 'e', 'E', 'i', 'n', 'f', 'a', 'N', 'x'];
    let mut words: Vec<String> = vec![String::new()];
    let mut from = 0;
    for _ in 0..5 {
        let upto = words.len();
        for k in from..upto {
            for c in alphabet {
                let mut w = words[k].clone();
                w.push(c);
                words.push(w);
            }
        }
        from = upto;
    }
    assert_eq!(words.len(), 1 + 13 + 169 + 2197 + 28561 + 371293);
    for w in &words {
        assert_eq!(float_literal(w), w.parse::<f64>().is_ok(), "{w}");
    }
    for w in ["infinity", "INFINITY", "+Infinity", "-infinitY", "infinitx", "infinityy", "1234567890.0987654321e-0123456789"] {
        assert_eq!(float_literal(w), w.parse::<f64>().is_ok(), "{w}");
    }
}

#[test]
fn tokens_written_together_are_the_text_without_blanks() {
    for source in ["(define  r\t10)\n(* pi (* r r))", "  a  b  ", "", " \x0B ", "((x))y"] {
        let kept: String = source.chars().filter(|c| !c.is_ascii_whitespace() && *c != '\x0B').collect();
        assert_eq!(texts(source).concat(), kept);
    }
}

#[test]
fn a_blank_counts_only_between_two_atoms() {
    let with = |a: &str, c: &str| texts(&format!("{a} {c}"));
    let without = |a: &str, c: &str| texts(&format!("{a}{c}"));
    for (a, c) in [("", "(f x)"), ("(f x)", ""), ("(f ", "x)"), ("(f", " x)"), ("(", "f x)"), ("(f x", ")"), ("(f x)", "(g)"), ("", "")] {
        assert_eq!(with(a, c), without(a, c), "{a:?} {c:?}");
    }
    assert_ne!(with("(f", "x)"), without("(f", "x)"));
    assert_eq!(texts(" \t(  define \n r  10 ) \r"), texts("(define r 10)"));
}
