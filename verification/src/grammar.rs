//! The grammar of well-formed expressions, and the proof that the parser follows it.
//!
//! ```text
//! expr   := term   | expr (Add | Subtract) term
//! term   := factor | term (Multiply | Divide) factor
//! factor := Number | (Add | Subtract) factor | LeftParen expr RightParen
//! ```
//!
//! A derivation records how an expression is built by these rules. The rules fix the reading of
//! an expression: `*` and `/` bind tighter than `+` and `-`, and operators of one level group
//! from the left.

use crate::error::Error;
use crate::evaluator::parse_text;
use crate::lexer::{lemma_numeric_prefix_len, lemma_tokenize_concat, punctuation, tokenize};
use crate::parser::{
    additive, after, current, expr_at, expr_rest, factor_at, multiplicative, parse_tokens,
    term_at, term_rest, Parsed,
};
use crate::token::{is_decimal, is_numeric, Symbol};
use crate::tree::{Operator, Sign, Tree};
use vstd::prelude::*;

verus! {

/// How an expression is built by the rules of the grammar.
pub enum Derivation {
    /// `factor := Number`
    Number(Seq<char>),
    /// `factor := (Add | Subtract) factor`
    Signed { sign: Sign, factor: Box<Derivation> },
    /// `factor := LeftParen expr RightParen`
    Group { inner: Box<Derivation> },
    /// `term := term (Multiply | Divide) factor`
    Product { op: Operator, left: Box<Derivation>, right: Box<Derivation> },
    /// `expr := expr (Add | Subtract) term`
    Sum { op: Operator, left: Box<Derivation>, right: Box<Derivation> },
}

/// Whether `d` derives a factor.
pub open spec fn is_factor(d: Derivation) -> bool
    decreases d, 0nat,
{
    match d {
        Derivation::Number(_) => true,
        Derivation::Signed { sign, factor } => is_factor(*factor),
        Derivation::Group { inner } => is_expr(*inner),
        _ => false,
    }
}

/// Whether `d` derives a term.
pub open spec fn is_term(d: Derivation) -> bool
    decreases d, 1nat,
{
    match d {
        Derivation::Product { op, left, right } => (op == Operator::Multiply || op
            == Operator::Divide) && is_term(*left) && is_factor(*right),
        _ => is_factor(d),
    }
}

/// Whether `d` derives an expression.
pub open spec fn is_expr(d: Derivation) -> bool
    decreases d, 2nat,
{
    match d {
        Derivation::Sum { op, left, right } => (op == Operator::Add || op == Operator::Subtract)
            && is_expr(*left) && is_term(*right),
        _ => is_term(d),
    }
}

/// The token that writes a sign.
pub open spec fn sign_symbol(sign: Sign) -> Symbol {
    match sign {
        Sign::Plus => Symbol::Add,
        Sign::Minus => Symbol::Subtract,
    }
}

/// The token that writes an operator.
pub open spec fn operator_symbol(op: Operator) -> Symbol {
    match op {
        Operator::Add => Symbol::Add,
        Operator::Subtract => Symbol::Subtract,
        Operator::Multiply => Symbol::Multiply,
        Operator::Divide => Symbol::Divide,
    }
}

/// The tokens that `d` derives, from left to right.
pub open spec fn tokens_of(d: Derivation) -> Seq<Symbol>
    decreases d,
{
    match d {
        Derivation::Number(text) => seq![Symbol::Number(text)],
        Derivation::Signed { sign, factor } => seq![sign_symbol(sign)] + tokens_of(*factor),
        Derivation::Group { inner } => seq![Symbol::LeftParen] + tokens_of(*inner)
            + seq![Symbol::RightParen],
        Derivation::Product { op, left, right } => tokens_of(*left) + seq![operator_symbol(op)]
            + tokens_of(*right),
        Derivation::Sum { op, left, right } => tokens_of(*left) + seq![operator_symbol(op)]
            + tokens_of(*right),
    }
}

/// The syntax tree that `d` stands for: its operations with their operands, without the
/// parentheses.
pub open spec fn tree_of(d: Derivation) -> Tree
    decreases d,
{
    match d {
        Derivation::Number(text) => Tree::Literal(text),
        Derivation::Signed { sign, factor } => Tree::UnaryOp {
            sign,
            child: Box::new(tree_of(*factor)),
        },
        Derivation::Group { inner } => tree_of(*inner),
        Derivation::Product { op, left, right } => Tree::BinaryOp {
            op,
            left: Box::new(tree_of(*left)),
            right: Box::new(tree_of(*right)),
        },
        Derivation::Sum { op, left, right } => Tree::BinaryOp {
            op,
            left: Box::new(tree_of(*left)),
            right: Box::new(tree_of(*right)),
        },
    }
}

/// Whether `part` stands in `tokens` from `position` on, with at least one token after it.
pub open spec fn occurs_at(tokens: Seq<Symbol>, position: nat, part: Seq<Symbol>) -> bool {
    &&& position + part.len() < tokens.len()
    &&& forall|i: int| 0 <= i < part.len() ==> tokens[position + i] == #[trigger] part[i]
}

/// The outcome of a rule that built `tree_of(d)` from exactly the tokens of `d`.
pub open spec fn derived(d: Derivation) -> Result<Parsed, Error> {
    Ok(Parsed { tree: tree_of(d), used: tokens_of(d).len() })
}

/// Where `first + second` stands, `first` stands, and `second` stands right after it.
proof fn lemma_occurs_split(
    tokens: Seq<Symbol>,
    position: nat,
    first: Seq<Symbol>,
    second: Seq<Symbol>,
)
    requires
        occurs_at(tokens, position, first + second),
    ensures
        occurs_at(tokens, position, first),
        occurs_at(tokens, position + first.len(), second),
{
    let whole = first + second;
    assert forall|i: int| 0 <= i < first.len() implies tokens[position + i]
        == #[trigger] first[i] by {
        assert(whole[i] == first[i]);
    }
    assert forall|i: int| 0 <= i < second.len() implies tokens[position + first.len() + i]
        == #[trigger] second[i] by {
        assert(whole[first.len() + i] == second[i]);
    }
}

/// Counting `m` tokens and then `n` more is counting `m + n`.
proof fn lemma_after_after(m: nat, n: nat, outcome: Result<Parsed, Error>)
    ensures
        after(m, after(n, outcome)) == after(m + n, outcome),
{
}

/// Where the tokens of a factor stand, the rule `factor` builds its tree from exactly them.
pub proof fn lemma_factor(d: Derivation, tokens: Seq<Symbol>, position: nat)
    requires
        is_factor(d),
        occurs_at(tokens, position, tokens_of(d)),
    ensures
        factor_at(tokens, position) == derived(d),
    decreases d, 0nat,
{
    match d {
        Derivation::Number(text) => {
            assert(tokens[position as int] == tokens_of(d)[0]);
        },
        Derivation::Signed { sign, factor } => {
            let head = seq![sign_symbol(sign)];
            lemma_occurs_split(tokens, position, head, tokens_of(*factor));
            assert(tokens[position as int] == head[0]);
            lemma_factor(*factor, tokens, position + 1);
        },
        Derivation::Group { inner } => {
            let open = seq![Symbol::LeftParen];
            let close = seq![Symbol::RightParen];
            lemma_occurs_split(tokens, position, open + tokens_of(*inner), close);
            lemma_occurs_split(tokens, position, open, tokens_of(*inner));
            assert(tokens[position as int] == open[0]);
            let end = position + 1 + tokens_of(*inner).len();
            assert(tokens[end as int] == close[0]);
            lemma_expr(*inner, tokens, position + 1);
        },
        _ => {},
    }
}

/// Where the tokens of a term stand, the rule `term` is as far as having built its tree, and
/// goes on with what follows.
pub proof fn lemma_term_prefix(d: Derivation, tokens: Seq<Symbol>, position: nat)
    requires
        is_term(d),
        occurs_at(tokens, position, tokens_of(d)),
    ensures
        term_at(tokens, position) == after(
            tokens_of(d).len(),
            term_rest(tokens, position + tokens_of(d).len(), tree_of(d)),
        ),
    decreases d, 1nat,
{
    match d {
        Derivation::Product { op, left, right } => {
            let sign = seq![operator_symbol(op)];
            let n_left = tokens_of(*left).len();
            let n_right = tokens_of(*right).len();
            lemma_occurs_split(tokens, position, tokens_of(*left) + sign, tokens_of(*right));
            lemma_occurs_split(tokens, position, tokens_of(*left), sign);
            assert(tokens[(position + n_left) as int] == sign[0]);
            lemma_term_prefix(*left, tokens, position);
            lemma_factor(*right, tokens, position + n_left + 1);
            let joined = term_rest(tokens, position + n_left + 1 + n_right, tree_of(d));
            assert(term_rest(tokens, position + n_left, tree_of(*left)) == after(
                1 + n_right,
                joined,
            ));
            lemma_after_after(n_left, 1 + n_right, joined);
        },
        _ => {
            lemma_factor(d, tokens, position);
        },
    }
}

/// Where the tokens of a term stand and neither `*` nor `/` follows, the rule `term` builds its
/// tree from exactly them.
pub proof fn lemma_term(d: Derivation, tokens: Seq<Symbol>, position: nat)
    requires
        is_term(d),
        occurs_at(tokens, position, tokens_of(d)),
        multiplicative(current(tokens, position + tokens_of(d).len())) is None,
    ensures
        term_at(tokens, position) == derived(d),
    decreases d, 2nat,
{
    lemma_term_prefix(d, tokens, position);
}

/// Where the tokens of an expression stand and neither `*` nor `/` follows, the rule `expr` is
/// as far as having built its tree, and goes on with what follows.
pub proof fn lemma_expr_prefix(d: Derivation, tokens: Seq<Symbol>, position: nat)
    requires
        is_expr(d),
        occurs_at(tokens, position, tokens_of(d)),
        multiplicative(current(tokens, position + tokens_of(d).len())) is None,
    ensures
        expr_at(tokens, position) == after(
            tokens_of(d).len(),
            expr_rest(tokens, position + tokens_of(d).len(), tree_of(d)),
        ),
    decreases d, 3nat,
{
    match d {
        Derivation::Sum { op, left, right } => {
            let sign = seq![operator_symbol(op)];
            let n_left = tokens_of(*left).len();
            let n_right = tokens_of(*right).len();
            lemma_occurs_split(tokens, position, tokens_of(*left) + sign, tokens_of(*right));
            lemma_occurs_split(tokens, position, tokens_of(*left), sign);
            assert(tokens[(position + n_left) as int] == sign[0]);
            lemma_expr_prefix(*left, tokens, position);
            lemma_term(*right, tokens, position + n_left + 1);
            let joined = expr_rest(tokens, position + n_left + 1 + n_right, tree_of(d));
            assert(expr_rest(tokens, position + n_left, tree_of(*left)) == after(
                1 + n_right,
                joined,
            ));
            lemma_after_after(n_left, 1 + n_right, joined);
        },
        _ => {
            lemma_term(d, tokens, position);
        },
    }
}

/// Where the tokens of an expression stand and no operator follows, the rule `expr` builds its
/// tree from exactly them.
pub proof fn lemma_expr(d: Derivation, tokens: Seq<Symbol>, position: nat)
    requires
        is_expr(d),
        occurs_at(tokens, position, tokens_of(d)),
        multiplicative(current(tokens, position + tokens_of(d).len())) is None,
        additive(current(tokens, position + tokens_of(d).len())) is None,
    ensures
        expr_at(tokens, position) == derived(d),
    decreases d, 4nat,
{
    lemma_expr_prefix(d, tokens, position);
}

/// The parser reads every well-formed expression as the grammar does: the tokens of a
/// derivation, closed by the sentinel, are parsed to the tree of that derivation.
pub proof fn lemma_parse_well_formed(d: Derivation)
    requires
        is_expr(d),
    ensures
        parse_tokens(tokens_of(d) + seq![Symbol::EndOfInput]) == Ok::<Tree, Error>(tree_of(d)),
{
    let tokens = tokens_of(d) + seq![Symbol::EndOfInput];
    assert(tokens[tokens_of(d).len() as int] == Symbol::EndOfInput);
    lemma_expr(d, tokens, 0);
}

/// A text whose tokens are those of a derivation of an expression has the tree of that
/// derivation as its syntax tree, wherever blanks stand in it.
pub proof fn lemma_parse_well_formed_text(text: Seq<char>, d: Derivation)
    requires
        is_expr(d),
        tokenize(text) == Ok::<Seq<Symbol>, Error>(tokens_of(d) + seq![Symbol::EndOfInput]),
    ensures
        parse_text(text) == Ok::<Tree, Error>(tree_of(d)),
{
    lemma_parse_well_formed(d);
}

/// The character that writes a sign.
pub open spec fn sign_char(sign: Sign) -> char {
    match sign {
        Sign::Plus => '+',
        Sign::Minus => '-',
    }
}

/// The character that writes an operator.
pub open spec fn operator_char(op: Operator) -> char {
    match op {
        Operator::Add => '+',
        Operator::Subtract => '-',
        Operator::Multiply => '*',
        Operator::Divide => '/',
    }
}

/// The text that `d` derives, written without blanks.
pub open spec fn text_of(d: Derivation) -> Seq<char>
    decreases d,
{
    match d {
        Derivation::Number(text) => text,
        Derivation::Signed { sign, factor } => seq![sign_char(sign)] + text_of(*factor),
        Derivation::Group { inner } => seq!['('] + text_of(*inner) + seq![')'],
        Derivation::Product { op, left, right } => text_of(*left) + seq![operator_char(op)]
            + text_of(*right),
        Derivation::Sum { op, left, right } => text_of(*left) + seq![operator_char(op)] + text_of(
            *right,
        ),
    }
}

/// Whether every literal of `d` is a decimal numeral.
pub open spec fn literals_are_decimal(d: Derivation) -> bool
    decreases d,
{
    match d {
        Derivation::Number(text) => is_decimal(text),
        Derivation::Signed { sign, factor } => literals_are_decimal(*factor),
        Derivation::Group { inner } => literals_are_decimal(*inner),
        Derivation::Product { op, left, right } => literals_are_decimal(*left)
            && literals_are_decimal(*right),
        Derivation::Sum { op, left, right } => literals_are_decimal(*left) && literals_are_decimal(
            *right,
        ),
    }
}

/// The outcome of lexing that gave exactly the tokens of `d`.
pub open spec fn lexed_as(d: Derivation) -> Result<Seq<Symbol>, Error> {
    Ok(tokens_of(d) + seq![Symbol::EndOfInput])
}

/// The tokens of `c` and then `text`, where `c` writes `symbol` and `text` gives `tokens`.
proof fn lemma_tokenize_punctuation(c: char, symbol: Symbol, text: Seq<char>, tokens: Seq<Symbol>)
    requires
        !is_numeric(c),
        punctuation(c) == Some(symbol),
        tokenize(text) == Ok::<Seq<Symbol>, Error>(tokens),
    ensures
        tokenize(seq![c] + text) == Ok::<Seq<Symbol>, Error>(seq![symbol] + tokens),
{
    let s = seq![c] + text;
    assert(s[0] == c);
    assert(s.drop_first() =~= text);
}

/// The tokens of `left`, an operator and `right`, where the two texts give the tokens of two
/// derivations.
proof fn lemma_tokenize_operation(
    left: Derivation,
    op: Operator,
    right: Derivation,
)
    requires
        tokenize(text_of(left)) == lexed_as(left),
        tokenize(text_of(right)) == lexed_as(right),
    ensures
        tokenize(text_of(left) + seq![operator_char(op)] + text_of(right)) == Ok::<
            Seq<Symbol>,
            Error,
        >(tokens_of(left) + seq![operator_symbol(op)] + tokens_of(right) + seq![Symbol::EndOfInput]),
{
    let c = operator_char(op);
    let tail = seq![c] + text_of(right);
    let tail_tokens = tokens_of(right) + seq![Symbol::EndOfInput];
    lemma_tokenize_punctuation(c, operator_symbol(op), text_of(right), tail_tokens);
    assert(tail[0] == c);
    lemma_tokenize_concat(text_of(left), tail);
    assert(text_of(left) + seq![c] + text_of(right) =~= text_of(left) + tail);
    assert((tokens_of(left) + seq![Symbol::EndOfInput]).drop_last() =~= tokens_of(left));
    assert(tokens_of(left) + (seq![operator_symbol(op)] + tail_tokens) =~= tokens_of(left)
        + seq![operator_symbol(op)] + tokens_of(right) + seq![Symbol::EndOfInput]);
}

/// A decimal numeral holds a digit, so it is not empty.
proof fn lemma_decimal_nonempty(text: Seq<char>)
    requires
        is_decimal(text),
    ensures
        text.len() >= 1,
{
}

/// The lexer gives back the tokens of a derivation from its text, where every literal is a
/// decimal numeral.
pub proof fn lemma_tokenize_text_of(d: Derivation)
    requires
        literals_are_decimal(d),
    ensures
        tokenize(text_of(d)) == lexed_as(d),
    decreases d,
{
    match d {
        Derivation::Number(text) => {
            lemma_decimal_nonempty(text);
            let n = text.len() as int;
            lemma_numeric_prefix_len(text, n);
            assert(text.take(n) =~= text);
            assert(text.skip(n) =~= Seq::<char>::empty());
            assert(tokenize(Seq::<char>::empty()) == Ok::<Seq<Symbol>, Error>(
                seq![Symbol::EndOfInput],
            ));
        },
        Derivation::Signed { sign, factor } => {
            lemma_tokenize_text_of(*factor);
            lemma_tokenize_punctuation(
                sign_char(sign),
                sign_symbol(sign),
                text_of(*factor),
                tokens_of(*factor) + seq![Symbol::EndOfInput],
            );
            assert(seq![sign_symbol(sign)] + (tokens_of(*factor) + seq![Symbol::EndOfInput])
                =~= tokens_of(d) + seq![Symbol::EndOfInput]);
        },
        Derivation::Group { inner } => {
            lemma_tokenize_text_of(*inner);
            let close = seq![')'];
            let close_tokens = seq![Symbol::RightParen, Symbol::EndOfInput];
            assert(tokenize(close) == Ok::<Seq<Symbol>, Error>(close_tokens)) by {
                let nothing = Seq::<char>::empty();
                lemma_tokenize_punctuation(
                    ')',
                    Symbol::RightParen,
                    nothing,
                    seq![Symbol::EndOfInput],
                );
                assert(seq![')'] + nothing =~= close);
                assert(seq![Symbol::RightParen] + seq![Symbol::EndOfInput] =~= close_tokens);
            }
            lemma_tokenize_concat(text_of(*inner), close);
            assert((tokens_of(*inner) + seq![Symbol::EndOfInput]).drop_last() =~= tokens_of(
                *inner,
            ));
            let body = text_of(*inner) + close;
            let body_tokens = tokens_of(*inner) + close_tokens;
            lemma_tokenize_punctuation('(', Symbol::LeftParen, body, body_tokens);
            assert(seq!['('] + body =~= text_of(d));
            assert(seq![Symbol::LeftParen] + body_tokens =~= tokens_of(d)
                + seq![Symbol::EndOfInput]);
        },
        Derivation::Product { op, left, right } => {
            lemma_tokenize_text_of(*left);
            lemma_tokenize_text_of(*right);
            lemma_tokenize_operation(*left, op, *right);
        },
        Derivation::Sum { op, left, right } => {
            lemma_tokenize_text_of(*left);
            lemma_tokenize_text_of(*right);
            lemma_tokenize_operation(*left, op, *right);
        },
    }
}

/// Every well-formed expression is read as the grammar reads it: the text of a derivation of
/// an expression, with decimal numerals for its literals, has the tree of that derivation as
/// its syntax tree.
pub proof fn lemma_well_formed_expression(d: Derivation)
    requires
        is_expr(d),
        literals_are_decimal(d),
    ensures
        parse_text(text_of(d)) == Ok::<Tree, Error>(tree_of(d)),
{
    lemma_tokenize_text_of(d);
    lemma_parse_well_formed(d);
}

} // verus!
