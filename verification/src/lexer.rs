//! The lexer: from the characters of an expression to its tokens.

use crate::error::Error;
use crate::token::{is_decimal, is_numeric, numeric, symbols, Number, Symbol, Token};
use vstd::prelude::*;
use vstd::std_specs::iter::IteratorSpec;

verus! {

broadcast use vstd::string::group_string_axioms;

/// The token that a single character stands for, if it stands for one.
pub open spec fn punctuation(c: char) -> Option<Symbol> {
    if c == '*' {
        Some(Symbol::Multiply)
    } else if c == '/' {
        Some(Symbol::Divide)
    } else if c == '+' {
        Some(Symbol::Add)
    } else if c == '-' {
        Some(Symbol::Subtract)
    } else if c == '(' {
        Some(Symbol::LeftParen)
    } else if c == ')' {
        Some(Symbol::RightParen)
    } else {
        None
    }
}

/// The length of the longest prefix of `s` made of digits and points only.
pub open spec fn numeric_prefix_len(s: Seq<char>) -> nat
    decreases s.len(),
{
    if s.len() > 0 && is_numeric(s[0]) {
        1 + numeric_prefix_len(s.drop_first())
    } else {
        0
    }
}

/// The prefix of digits and points is made of digits and points, lies within the text, and
/// ends where the text ends or another character stands.
pub proof fn lemma_numeric_prefix(s: Seq<char>)
    ensures
        numeric_prefix_len(s) <= s.len(),
        forall|k: int| 0 <= k < numeric_prefix_len(s) ==> is_numeric(#[trigger] s[k]),
        numeric_prefix_len(s) < s.len() ==> !is_numeric(s[numeric_prefix_len(s) as int]),
    decreases s.len(),
{
    if s.len() > 0 && is_numeric(s[0]) {
        let t = s.drop_first();
        lemma_numeric_prefix(t);
        assert forall|k: int| 0 <= k < numeric_prefix_len(s) implies is_numeric(
            #[trigger] s[k],
        ) by {
            if k > 0 {
                assert(s[k] == t[k - 1]);
            }
        }
        if numeric_prefix_len(s) < s.len() {
            assert(s[numeric_prefix_len(s) as int] == t[numeric_prefix_len(t) as int]);
        }
    }
}

/// The prefix of digits and points ends where the first other character stands.
pub proof fn lemma_numeric_prefix_len(s: Seq<char>, n: int)
    requires
        0 <= n <= s.len(),
        forall|k: int| 0 <= k < n ==> is_numeric(#[trigger] s[k]),
        n < s.len() ==> !is_numeric(s[n]),
    ensures
        numeric_prefix_len(s) == n,
    decreases n,
{
    if n > 0 {
        let t = s.drop_first();
        assert forall|k: int| 0 <= k < n - 1 implies is_numeric(#[trigger] t[k]) by {
            assert(t[k] == s[k + 1]);
        }
        lemma_numeric_prefix_len(t, n - 1);
    }
}

/// `done` followed by the tokens of `rest`, where there are any.
pub open spec fn followed_by(done: Seq<Symbol>, rest: Result<Seq<Symbol>, Error>) -> Result<
    Seq<Symbol>,
    Error,
> {
    match rest {
        Ok(more) => Ok(done + more),
        Err(e) => Err(e),
    }
}

/// The tokens of a text, read from left to right.
///
/// A digit or a point opens a literal, which runs as far as digits and points go and must be
/// a decimal numeral. An operator or a parenthesis is a token by itself. Every other character
/// is passed over. The sentinel closes the sequence.
pub open spec fn tokenize(s: Seq<char>) -> Result<Seq<Symbol>, Error>
    decreases s.len(),
{
    if s.len() == 0 {
        Ok(seq![Symbol::EndOfInput])
    } else if is_numeric(s[0]) {
        let n = numeric_prefix_len(s) as int;
        proof {
            lemma_numeric_prefix(s);
        }
        if is_decimal(s.take(n)) {
            followed_by(seq![Symbol::Number(s.take(n))], tokenize(s.skip(n)))
        } else {
            Err(Error::NumericConversion)
        }
    } else {
        match punctuation(s[0]) {
            Some(symbol) => followed_by(seq![symbol], tokenize(s.drop_first())),
            None => tokenize(s.drop_first()),
        }
    }
}

/// The token that a single character stands for, if it stands for one.
fn punctuation_token(c: char) -> (r: Option<Token>)
    ensures
        match r {
            Some(token) => punctuation(c) == Some(token@),
            None => punctuation(c) is None,
        },
{
    match c {
        '*' => Some(Token::Multiply),
        '/' => Some(Token::Divide),
        '+' => Some(Token::Add),
        '-' => Some(Token::Subtract),
        '(' => Some(Token::LeftParen),
        ')' => Some(Token::RightParen),
        _ => None,
    }
}

/// The characters of a text, in order.
fn characters(text: &str) -> (chars: Vec<char>)
    ensures
        chars@ == text@,
{
    let mut chars: Vec<char> = Vec::new();
    let mut rest = text.chars();
    loop
        invariant
            chars@ + rest.remaining() == text@,
            rest.decrease() is Some,
        ensures
            chars@ == text@,
        decreases rest.decrease()->0,
    {
        match rest.next() {
            Some(c) => {
                chars.push(c);
                proof {
                    assert(chars@ + rest.remaining() =~= text@);
                }
            },
            None => {
                proof {
                    assert(chars@ + rest.remaining() =~= chars@);
                }
                break ;
            },
        }
    }
    chars
}

/// What `lex` returned, with each token taken by its view.
pub open spec fn lexed(r: Result<Vec<Token>, Error>) -> Result<Seq<Symbol>, Error> {
    match r {
        Ok(tokens) => Ok(symbols(tokens@)),
        Err(e) => Err(e),
    }
}

/// Splits an expression into its tokens and closes them with the sentinel.
///
/// Fails only on a literal that is no decimal numeral.
pub fn lex(expr: &str) -> (r: Result<Vec<Token>, Error>)
    ensures
        lexed(r) == tokenize(expr@),
{
    let chars = characters(expr);
    let n = chars.len();
    let mut tokens: Vec<Token> = Vec::new();
    let mut i: usize = 0;
    proof {
        assert(chars@.skip(0) =~= chars@);
        assert(symbols(tokens@) =~= Seq::<Symbol>::empty());
        lemma_followed_by_nothing(tokenize(chars@));
    }
    while i < n
        invariant
            n == chars.len(),
            i <= n,
            chars@ == expr@,
            tokenize(expr@) == followed_by(symbols(tokens@), tokenize(chars@.skip(i as int))),
        decreases n - i,
    {
        let c = chars[i];
        let ghost rest = chars@.skip(i as int);
        let ghost done = symbols(tokens@);
        assert(rest[0] == c);
        if numeric(c) {
            let mut lexeme: Vec<char> = Vec::new();
            lexeme.push(c);
            let mut j: usize = i + 1;
            while j < n && numeric(chars[j])
                invariant
                    n == chars.len(),
                    i < j <= n,
                    forall|k: int| i <= k < j ==> is_numeric(#[trigger] chars@[k]),
                    lexeme@ == chars@.subrange(i as int, j as int),
                decreases n - j,
            {
                lexeme.push(chars[j]);
                j = j + 1;
                proof {
                    assert(lexeme@ =~= chars@.subrange(i as int, j as int));
                }
            }
            proof {
                assert forall|k: int| 0 <= k < j - i implies is_numeric(#[trigger] rest[k]) by {
                    assert(rest[k] == chars@[i + k]);
                }
                lemma_numeric_prefix_len(rest, j - i);
                assert(rest.take(j - i) =~= lexeme@);
                assert(rest.skip(j - i) =~= chars@.skip(j as int));
            }
            match Number::new(lexeme) {
                Ok(number) => {
                    tokens.push(Token::Number(number));
                    proof {
                        let ahead = tokenize(chars@.skip(j as int));
                        assert(symbols(tokens@) =~= done + seq![Symbol::Number(number@)]);
                        lemma_followed_by_twice(done, seq![Symbol::Number(number@)], ahead);
                    }
                },
                Err(e) => {
                    return Err(e);
                },
            }
            i = j;
        } else {
            proof {
                assert(rest.drop_first() =~= chars@.skip(i + 1));
            }
            match punctuation_token(c) {
                Some(token) => {
                    let ghost symbol = token@;
                    tokens.push(token);
                    proof {
                        let ahead = tokenize(chars@.skip(i + 1));
                        assert(symbols(tokens@) =~= done + seq![symbol]);
                        lemma_followed_by_twice(done, seq![symbol], ahead);
                    }
                },
                None => {},
            }
            i = i + 1;
        }
    }
    let ghost done = symbols(tokens@);
    tokens.push(Token::EndOfInput);
    proof {
        assert(chars@.skip(n as int) =~= Seq::<char>::empty());
        assert(symbols(tokens@) =~= done + seq![Symbol::EndOfInput]);
    }
    Ok(tokens)
}

/// Nothing in front of the tokens leaves them as they are.
proof fn lemma_followed_by_nothing(rest: Result<Seq<Symbol>, Error>)
    ensures
        followed_by(Seq::empty(), rest) == rest,
{
    match rest {
        Ok(more) => {
            assert(Seq::<Symbol>::empty() + more =~= more);
        },
        Err(_) => {},
    }
}

/// Putting `first` and then `second` in front is putting `first + second` in front.
proof fn lemma_followed_by_twice(
    first: Seq<Symbol>,
    second: Seq<Symbol>,
    rest: Result<Seq<Symbol>, Error>,
)
    ensures
        followed_by(first, followed_by(second, rest)) == followed_by(first + second, rest),
{
    match rest {
        Ok(more) => {
            assert(first + (second + more) =~= (first + second) + more);
        },
        Err(_) => {},
    }
}

/// A character that the lexer passes over: no digit, no point, no operator, no parenthesis.
pub open spec fn is_ignored(c: char) -> bool {
    !is_numeric(c) && punctuation(c) is None
}

/// Whether a literal at the end of `a` and one at the start of `b` would run together once the
/// two texts are joined.
pub open spec fn literals_meet(a: Seq<char>, b: Seq<char>) -> bool {
    a.len() > 0 && is_numeric(a.last()) && b.len() > 0 && is_numeric(b[0])
}

/// The tokens of `first` without the sentinel, followed by those of `second`.
pub open spec fn chained(
    first: Result<Seq<Symbol>, Error>,
    second: Result<Seq<Symbol>, Error>,
) -> Result<Seq<Symbol>, Error> {
    match first {
        Ok(tokens) => followed_by(tokens.drop_last(), second),
        Err(e) => Err(e),
    }
}

/// The tokens of a text are never empty: the sentinel closes them.
pub proof fn lemma_tokenize_ends_with_sentinel(s: Seq<char>)
    ensures
        tokenize(s) is Ok ==> tokenize(s)->Ok_0.len() >= 1 && tokenize(s)->Ok_0.last()
            == Symbol::EndOfInput,
    decreases s.len(),
{
    if s.len() == 0 {
    } else if is_numeric(s[0]) {
        lemma_numeric_prefix(s);
        lemma_tokenize_ends_with_sentinel(s.skip(numeric_prefix_len(s) as int));
    } else {
        lemma_tokenize_ends_with_sentinel(s.drop_first());
    }
}

/// Tokens put in front of the first text stay in front of the chain.
proof fn lemma_chained_after(
    head: Seq<Symbol>,
    first: Result<Seq<Symbol>, Error>,
    second: Result<Seq<Symbol>, Error>,
)
    requires
        first is Ok ==> first->Ok_0.len() >= 1,
    ensures
        chained(followed_by(head, first), second) == followed_by(head, chained(first, second)),
{
    match first {
        Ok(tokens) => {
            assert((head + tokens).drop_last() =~= head + tokens.drop_last());
            lemma_followed_by_twice(head, tokens.drop_last(), second);
        },
        Err(_) => {},
    }
}

/// Two texts joined give the tokens of the first and then those of the second, unless a
/// literal at the end of the first runs into one at the start of the second.
pub proof fn lemma_tokenize_concat(a: Seq<char>, b: Seq<char>)
    requires
        !literals_meet(a, b),
    ensures
        tokenize(a + b) == chained(tokenize(a), tokenize(b)),
    decreases a.len(),
{
    let s = a + b;
    if a.len() == 0 {
        assert(s =~= b);
        assert(seq![Symbol::EndOfInput].drop_last() =~= Seq::<Symbol>::empty());
        lemma_followed_by_nothing(tokenize(b));
    } else if is_numeric(a[0]) {
        let n = numeric_prefix_len(a) as int;
        lemma_numeric_prefix(a);
        assert forall|k: int| 0 <= k < n implies is_numeric(#[trigger] s[k]) by {
            assert(s[k] == a[k]);
        }
        if n < a.len() {
            assert(s[n] == a[n]);
        } else if b.len() > 0 {
            assert(is_numeric(a[n - 1]));
            assert(s[n] == b[0]);
        }
        lemma_numeric_prefix_len(s, n);
        assert(s.take(n) =~= a.take(n));
        assert(s.skip(n) =~= a.skip(n) + b);
        if is_decimal(a.take(n)) {
            let rest = a.skip(n);
            if rest.len() > 0 {
                assert(rest.last() == a.last());
            }
            lemma_tokenize_concat(rest, b);
            lemma_tokenize_ends_with_sentinel(rest);
            lemma_chained_after(seq![Symbol::Number(a.take(n))], tokenize(rest), tokenize(b));
        }
    } else {
        let rest = a.drop_first();
        assert(s.drop_first() =~= rest + b);
        assert(s[0] == a[0]);
        if rest.len() > 0 {
            assert(rest.last() == a.last());
        }
        lemma_tokenize_concat(rest, b);
        lemma_tokenize_ends_with_sentinel(rest);
        match punctuation(a[0]) {
            Some(symbol) => {
                lemma_chained_after(seq![symbol], tokenize(rest), tokenize(b));
            },
            None => {},
        }
    }
}

/// A character that the lexer passes over parts the text: what stands before it and what
/// stands after it are split into tokens each by itself.
pub proof fn lemma_tokenize_separated(a: Seq<char>, c: char, b: Seq<char>)
    requires
        is_ignored(c),
    ensures
        tokenize(a + seq![c] + b) == chained(tokenize(a), tokenize(b)),
{
    let tail = seq![c] + b;
    assert(a + seq![c] + b =~= a + tail);
    assert(tail[0] == c);
    assert(tail.drop_first() =~= b);
    lemma_tokenize_concat(a, tail);
}

/// Blanks change nothing: a character that the lexer passes over can be put anywhere but
/// inside a literal, and the tokens stay the same.
pub proof fn lemma_tokenize_ignores(a: Seq<char>, c: char, b: Seq<char>)
    requires
        is_ignored(c),
        !literals_meet(a, b),
    ensures
        tokenize(a + seq![c] + b) == tokenize(a + b),
{
    lemma_tokenize_separated(a, c, b);
    lemma_tokenize_concat(a, b);
}

} // verus!
