//! The token grammar: parentheses, atoms and the blanks between them.
use vstd::prelude::*;

verus! {

/// `c` is an opening or closing parenthesis.
pub open spec fn is_paren(c: char) -> bool {
    c == '(' || c == ')'
}

/// `c` separates tokens: it is one of the ASCII whitespace characters,
/// that is space, tab, line feed, vertical tab, form feed or carriage
/// return.
pub open spec fn is_blank(c: char) -> bool {
    c == ' ' || c == '\t' || c == '\n' || c == '\x0B' || c == '\x0C' || c == '\r'
}

/// `c` can stand in an atom.
pub open spec fn is_atom_char(c: char) -> bool {
    !is_paren(c) && !is_blank(c)
}

/// The atom gathered so far, as a token, if there is one.
pub open spec fn flush(acc: Seq<char>) -> Seq<Seq<char>> {
    if acc.len() > 0 {
        seq![acc]
    } else {
        Seq::empty()
    }
}

/// The tokens of `s`, read after the atom characters `acc`.
///
/// A parenthesis is a token by itself; a maximal run of atom characters is
/// one token; blanks only separate.
pub open spec fn scan(s: Seq<char>, acc: Seq<char>) -> Seq<Seq<char>>
    decreases s.len(),
{
    if s.len() == 0 {
        flush(acc)
    } else if is_paren(s[0]) {
        flush(acc) + seq![seq![s[0]]] + scan(s.drop_first(), Seq::empty())
    } else if is_blank(s[0]) {
        flush(acc) + scan(s.drop_first(), Seq::empty())
    } else {
        scan(s.drop_first(), acc.push(s[0]))
    }
}

/// The tokens of the source text `s`.
pub open spec fn tokens_of(s: Seq<char>) -> Seq<Seq<char>> {
    scan(s, Seq::empty())
}

/// The texts of a sequence of token strings.
pub open spec fn texts(tokens: Seq<String>) -> Seq<Seq<char>> {
    Seq::new(tokens.len(), |i: int| tokens[i]@)
}

/// Every character of `s` can stand in an atom.
pub open spec fn all_atom_chars(s: Seq<char>) -> bool {
    forall|i: int| 0 <= i < s.len() ==> is_atom_char(#[trigger] s[i])
}

/// `t` is a token: one parenthesis, or a non-empty run of atom
/// characters.
pub open spec fn is_token(t: Seq<char>) -> bool {
    (t.len() == 1 && is_paren(t[0])) || (t.len() > 0 && all_atom_chars(t))
}

/// Every element of `tokens` is a token.
pub open spec fn all_tokens(tokens: Seq<Seq<char>>) -> bool {
    forall|i: int| 0 <= i < tokens.len() ==> is_token(#[trigger] tokens[i])
}

/// `tokens` written out with one space between neighbours.
pub open spec fn joined(tokens: Seq<Seq<char>>) -> Seq<char>
    decreases tokens.len(),
{
    if tokens.len() == 0 {
        Seq::empty()
    } else if tokens.len() == 1 {
        tokens[0]
    } else {
        tokens[0] + seq![' '] + joined(tokens.drop_first())
    }
}

/// Scanning yields tokens only.
proof fn lemma_scan_yields_tokens(s: Seq<char>, acc: Seq<char>)
    requires
        all_atom_chars(acc),
    ensures
        all_tokens(scan(s, acc)),
    decreases s.len(),
{
    if s.len() > 0 {
        if is_paren(s[0]) || is_blank(s[0]) {
            lemma_scan_yields_tokens(s.drop_first(), Seq::empty());
        } else {
            lemma_scan_yields_tokens(s.drop_first(), acc.push(s[0]));
        }
    }
}

/// Scanning atom characters only gathers them.
proof fn lemma_scan_atom(atom: Seq<char>, rest: Seq<char>, acc: Seq<char>)
    requires
        all_atom_chars(atom),
    ensures
        scan(atom + rest, acc) == scan(rest, acc + atom),
    decreases atom.len(),
{
    if atom.len() > 0 {
        assert((atom + rest).drop_first() =~= atom.drop_first() + rest);
        lemma_scan_atom(atom.drop_first(), rest, acc.push(atom[0]));
        assert(acc.push(atom[0]) + atom.drop_first() =~= acc + atom);
    }
}

/// The scan of one token followed by `rest`, where `rest` is empty or
/// begins with a blank, is that token followed by the scan of `rest`.
proof fn lemma_scan_token(t: Seq<char>, rest: Seq<char>)
    requires
        is_token(t),
        rest.len() == 0 || is_blank(rest[0]),
    ensures
        scan(t + rest, Seq::empty()) == seq![t] + scan(rest, Seq::empty()),
{
    if t.len() == 1 && is_paren(t[0]) {
        assert((t + rest).drop_first() =~= rest);
        assert(seq![(t + rest)[0]] =~= t);
    } else {
        lemma_scan_atom(t, rest, Seq::empty());
    }
}

/// The tokens of a source text are tokens.
pub proof fn law_tokens_are_tokens(s: Seq<char>)
    ensures
        all_tokens(tokens_of(s)),
{
    lemma_scan_yields_tokens(s, Seq::empty());
}

/// Tokens joined by single spaces scan back to themselves.
pub proof fn law_join_then_scan(tokens: Seq<Seq<char>>)
    requires
        all_tokens(tokens),
    ensures
        tokens_of(joined(tokens)) == tokens,
    decreases tokens.len(),
{
    if tokens.len() == 1 {
        lemma_scan_token(tokens[0], Seq::empty());
    } else if tokens.len() > 1 {
        let rest = tokens.drop_first();
        let tail = seq![' '] + joined(rest);
        assert(all_tokens(rest));
        law_join_then_scan(rest);
        assert(joined(tokens) =~= tokens[0] + tail);
        lemma_scan_token(tokens[0], tail);
        assert(tail.drop_first() =~= joined(rest));
    }
}

/// Writing the tokens of a text with single spaces between them is
/// idempotent: the text so normalised has the same tokens, and
/// normalising it again changes nothing.
pub proof fn law_normalise_idempotent(s: Seq<char>)
    ensures
        tokens_of(joined(tokens_of(s))) == tokens_of(s),
        joined(tokens_of(joined(tokens_of(s)))) == joined(tokens_of(s)),
{
    law_tokens_are_tokens(s);
    law_join_then_scan(tokens_of(s));
}

/// The tokens of `tokens` written one after another, with nothing
/// between them.
pub open spec fn concat(tokens: Seq<Seq<char>>) -> Seq<char>
    decreases tokens.len(),
{
    if tokens.len() == 0 {
        Seq::empty()
    } else {
        tokens[0] + concat(tokens.drop_first())
    }
}

/// `s` without its blanks.
pub open spec fn without_blanks(s: Seq<char>) -> Seq<char>
    decreases s.len(),
{
    if s.len() == 0 {
        Seq::empty()
    } else if is_blank(s[0]) {
        without_blanks(s.drop_first())
    } else {
        seq![s[0]] + without_blanks(s.drop_first())
    }
}

/// Writing one token sequence after another.
proof fn lemma_concat_add(a: Seq<Seq<char>>, b: Seq<Seq<char>>)
    ensures
        concat(a + b) == concat(a) + concat(b),
    decreases a.len(),
{
    if a.len() == 0 {
        assert(a + b =~= b);
        assert(concat(a) + concat(b) =~= concat(b));
    } else {
        assert((a + b).drop_first() =~= a.drop_first() + b);
        lemma_concat_add(a.drop_first(), b);
        assert(a[0] + (concat(a.drop_first()) + concat(b)) =~= concat(a) + concat(b));
    }
}

/// What has been gathered comes out whole.
proof fn lemma_concat_flush(acc: Seq<char>)
    ensures
        concat(flush(acc)) == acc,
{
    if acc.len() > 0 {
        assert(flush(acc).drop_first() =~= Seq::<Seq<char>>::empty());
        assert(acc + concat(Seq::<Seq<char>>::empty()) =~= acc);
    } else {
        assert(acc =~= Seq::<char>::empty());
    }
}

/// Scanning drops blanks and nothing else.
proof fn lemma_scan_keeps(s: Seq<char>, acc: Seq<char>)
    ensures
        concat(scan(s, acc)) == acc + without_blanks(s),
    decreases s.len(),
{
    let nothing = Seq::<char>::empty();
    lemma_concat_flush(acc);
    if s.len() == 0 {
        assert(acc + without_blanks(s) =~= acc);
    } else {
        let rest = s.drop_first();
        if is_paren(s[0]) {
            let paren = seq![seq![s[0]]];
            lemma_scan_keeps(rest, nothing);
            lemma_concat_add(flush(acc) + paren, scan(rest, nothing));
            lemma_concat_add(flush(acc), paren);
            assert(concat(paren) =~= seq![s[0]]) by {
                assert(paren[0] =~= seq![s[0]]);
                assert(concat(paren.drop_first()) =~= nothing);
            }
            assert(acc + seq![s[0]] + (nothing + without_blanks(rest)) =~= acc + without_blanks(
                s,
            ));
        } else if is_blank(s[0]) {
            lemma_scan_keeps(rest, nothing);
            lemma_concat_add(flush(acc), scan(rest, nothing));
            assert(acc + (nothing + without_blanks(rest)) =~= acc + without_blanks(s));
        } else {
            lemma_scan_keeps(rest, acc.push(s[0]));
            assert(acc.push(s[0]) + without_blanks(rest) =~= acc + without_blanks(s));
        }
    }
}

/// Tokenizing drops blanks and nothing else: the tokens of a text, written
/// one after another, are the text without its blanks.
pub proof fn law_tokens_keep_all_but_blanks(s: Seq<char>)
    ensures
        concat(tokens_of(s)) == without_blanks(s),
{
    lemma_scan_keeps(s, Seq::empty());
    assert(Seq::<char>::empty() + without_blanks(s) =~= without_blanks(s));
}

/// The tokens completed while `a` is scanned after the atom characters
/// `acc`.
pub open spec fn emitted(a: Seq<char>, acc: Seq<char>) -> Seq<Seq<char>>
    decreases a.len(),
{
    if a.len() == 0 {
        Seq::empty()
    } else if is_paren(a[0]) {
        flush(acc) + seq![seq![a[0]]] + emitted(a.drop_first(), Seq::empty())
    } else if is_blank(a[0]) {
        flush(acc) + emitted(a.drop_first(), Seq::empty())
    } else {
        emitted(a.drop_first(), acc.push(a[0]))
    }
}

/// The atom characters gathered and not yet made a token when `a` has
/// been scanned after the atom characters `acc`.
pub open spec fn pending(a: Seq<char>, acc: Seq<char>) -> Seq<char>
    decreases a.len(),
{
    if a.len() == 0 {
        acc
    } else if is_atom_char(a[0]) {
        pending(a.drop_first(), acc.push(a[0]))
    } else {
        pending(a.drop_first(), Seq::empty())
    }
}

/// A scan can be taken up where a first part of the text ends.
proof fn lemma_scan_split(a: Seq<char>, rest: Seq<char>, acc: Seq<char>)
    ensures
        scan(a + rest, acc) == emitted(a, acc) + scan(rest, pending(a, acc)),
    decreases a.len(),
{
    let nothing = Seq::<char>::empty();
    if a.len() == 0 {
        assert(a + rest =~= rest);
        assert(emitted(a, acc) + scan(rest, acc) =~= scan(rest, acc));
    } else {
        let s = a + rest;
        assert(s[0] == a[0]);
        assert(s.drop_first() =~= a.drop_first() + rest);
        if is_paren(a[0]) {
            lemma_scan_split(a.drop_first(), rest, nothing);
            assert(flush(acc) + seq![seq![a[0]]] + (emitted(a.drop_first(), nothing) + scan(
                rest,
                pending(a.drop_first(), nothing),
            )) =~= emitted(a, acc) + scan(rest, pending(a, acc)));
        } else if is_blank(a[0]) {
            lemma_scan_split(a.drop_first(), rest, nothing);
            assert(flush(acc) + (emitted(a.drop_first(), nothing) + scan(
                rest,
                pending(a.drop_first(), nothing),
            )) =~= emitted(a, acc) + scan(rest, pending(a, acc)));
        } else {
            lemma_scan_split(a.drop_first(), rest, acc.push(a[0]));
        }
    }
}

/// After a blank or a parenthesis no atom is pending.
proof fn lemma_nothing_pending(a: Seq<char>, acc: Seq<char>)
    requires
        a.len() > 0,
        !is_atom_char(a.last()),
    ensures
        pending(a, acc).len() == 0,
    decreases a.len(),
{
    if a.len() > 1 {
        let next = if is_atom_char(a[0]) {
            acc.push(a[0])
        } else {
            Seq::empty()
        };
        assert(a.drop_first().last() == a.last());
        lemma_nothing_pending(a.drop_first(), next);
    } else {
        assert(a[0] == a.last());
        assert(pending(a.drop_first(), Seq::empty()) =~= Seq::<char>::empty());
    }
}

/// `s` is empty or begins with a blank or a parenthesis.
pub open spec fn begins_apart(s: Seq<char>) -> bool {
    s.len() == 0 || !is_atom_char(s[0])
}

/// `s` is empty or ends with a blank or a parenthesis.
pub open spec fn ends_apart(s: Seq<char>) -> bool {
    s.len() == 0 || !is_atom_char(s.last())
}

/// A blank counts only where it parts two atoms: at either end of the
/// text, and next to another blank or to a parenthesis, a blank more or
/// less leaves the tokens as they are.
pub proof fn law_blank_is_redundant(a: Seq<char>, blank: char, c: Seq<char>)
    requires
        is_blank(blank),
        ends_apart(a) || begins_apart(c),
    ensures
        tokens_of(a + seq![blank] + c) == tokens_of(a + c),
{
    let nothing = Seq::<char>::empty();
    let p = pending(a, nothing);
    let padded = seq![blank] + c;
    assert(a + seq![blank] + c =~= a + padded);
    lemma_scan_split(a, padded, nothing);
    lemma_scan_split(a, c, nothing);
    assert(padded[0] == blank);
    assert(padded.drop_first() =~= c);
    assert(scan(padded, p) == flush(p) + scan(c, nothing));
    if ends_apart(a) {
        if a.len() > 0 {
            lemma_nothing_pending(a, nothing);
        }
        assert(p =~= nothing);
        assert(flush(p) + scan(c, nothing) =~= scan(c, p));
    } else if c.len() == 0 {
        assert(flush(p) + scan(c, nothing) =~= scan(c, p));
    } else if is_paren(c[0]) {
        assert(flush(p) + (flush(nothing) + seq![seq![c[0]]] + scan(c.drop_first(), nothing))
            =~= scan(c, p));
    } else {
        assert(flush(p) + (flush(nothing) + scan(c.drop_first(), nothing)) =~= scan(c, p));
    }
}

/// `String::push` of the standard library appends one character.
pub assume_specification[ String::push ](s: &mut String, ch: char)
    ensures
        final(s)@ == old(s)@.push(ch),
;

/// `==` on string slices, of the standard library: two slices are equal
/// exactly when they hold the same characters.
pub assume_specification[ <str as PartialEq>::eq ](a: &str, b: &str) -> (r: bool)
    ensures
        r == (a@ == b@),
;

} // verus!
