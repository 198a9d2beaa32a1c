//! Tokens and the decimal literals they carry.

use crate::error::Error;
use vstd::prelude::*;

verus! {

/// The ASCII digits.
pub open spec fn is_digit(c: char) -> bool {
    '0' <= c && c <= '9'
}

/// The characters a numeric literal is made of: digits and the decimal point.
pub open spec fn is_numeric(c: char) -> bool {
    is_digit(c) || c == '.'
}

/// How many decimal points `s` holds.
pub open spec fn count_points(s: Seq<char>) -> nat
    decreases s.len(),
{
    if s.len() == 0 {
        0
    } else {
        count_points(s.drop_last()) + if s.last() == '.' {
            1nat
        } else {
            0nat
        }
    }
}

/// How many digits `s` holds.
pub open spec fn count_digits(s: Seq<char>) -> nat
    decreases s.len(),
{
    if s.len() == 0 {
        0
    } else {
        count_digits(s.drop_last()) + if is_digit(s.last()) {
            1nat
        } else {
            0nat
        }
    }
}

/// A decimal numeral: digits with at most one point among them, and at least one digit.
/// `12`, `1.5`, `.5` and `5.` are decimal numerals; `.`, `1.2.3` and the empty text are not.
pub open spec fn is_decimal(s: Seq<char>) -> bool {
    &&& forall|i: int| 0 <= i < s.len() ==> is_numeric(#[trigger] s[i])
    &&& count_digits(s) >= 1
    &&& count_points(s) <= 1
}

/// Whether `c` is a digit.
pub(crate) fn digit(c: char) -> (r: bool)
    ensures
        r == is_digit(c),
{
    '0' <= c && c <= '9'
}

/// Whether `c` is a digit or the decimal point.
pub(crate) fn numeric(c: char) -> (r: bool)
    ensures
        r == is_numeric(c),
{
    digit(c) || c == '.'
}

/// A numeric literal, kept as the text it was written with: always a decimal numeral.
///
/// The lexer, the parser and the tree carry a literal through as it is. What number it stands
/// for is decided by the arithmetic that the tree is evaluated under.
#[derive(Debug, PartialEq, Eq)]
pub struct Number {
    text: Vec<char>,
}

impl View for Number {
    type V = Seq<char>;

    closed spec fn view(&self) -> Seq<char> {
        self.text@
    }
}

impl Number {
    #[verifier::type_invariant]
    spec fn well_formed(self) -> bool {
        is_decimal(self.text@)
    }

    /// Makes a literal of `text`, which must be a decimal numeral.
    pub fn new(text: Vec<char>) -> (r: Result<Number, Error>)
        ensures
            is_decimal(text@) ==> r is Ok && r->Ok_0@ == text@,
            !is_decimal(text@) ==> r == Err::<Number, Error>(Error::NumericConversion),
    {
        let mut points: usize = 0;
        let mut digits: usize = 0;
        let mut all_numeric = true;
        let mut i: usize = 0;
        while i < text.len()
            invariant
                i <= text.len(),
                points == count_points(text@.take(i as int)),
                digits == count_digits(text@.take(i as int)),
                points <= i,
                digits <= i,
                all_numeric == (forall|k: int| 0 <= k < i ==> is_numeric(#[trigger] text@[k])),
            decreases text.len() - i,
        {
            let c = text[i];
            proof {
                assert(text@.take(i + 1).drop_last() =~= text@.take(i as int));
            }
            if c == '.' {
                points = points + 1;
            }
            if digit(c) {
                digits = digits + 1;
            }
            if !numeric(c) {
                all_numeric = false;
            }
            i = i + 1;
        }
        proof {
            assert(text@.take(text.len() as int) =~= text@);
        }
        if all_numeric && digits >= 1 && points <= 1 {
            Ok(Number { text })
        } else {
            Err(Error::NumericConversion)
        }
    }

    /// The literal `0`.
    pub fn zero() -> (r: Number)
        ensures
            r@ == seq!['0'],
    {
        let mut text: Vec<char> = Vec::new();
        text.push('0');
        proof {
            let s = text@;
            assert(s.drop_last() =~= Seq::<char>::empty());
            assert(count_digits(s.drop_last()) == 0);
            assert(count_points(s.drop_last()) == 0);
            assert(s =~= seq!['0']);
        }
        Number { text }
    }

    /// The characters of the literal, in order.
    pub fn chars(&self) -> (r: &Vec<char>)
        ensures
            r@ == self@,
            is_decimal(r@),
    {
        proof {
            use_type_invariant(self);
        }
        &self.text
    }
}

impl Clone for Number {
    fn clone(&self) -> (r: Self)
        ensures
            r@ == self@,
    {
        proof {
            use_type_invariant(self);
        }
        let text = self.text.clone();
        assert(text@ =~= self.text@);
        Number { text }
    }
}

/// An atomic unit of the expression text.
#[derive(Debug, PartialEq, Eq)]
pub enum Token {
    Number(Number),
    Multiply,
    Divide,
    Add,
    Subtract,
    LeftParen,
    RightParen,
    /// The sentinel that closes every token sequence the lexer makes.
    EndOfInput,
}

/// What a token is to the contracts: its kind, and for a number the text of the literal.
pub enum Symbol {
    Number(Seq<char>),
    Multiply,
    Divide,
    Add,
    Subtract,
    LeftParen,
    RightParen,
    EndOfInput,
}

impl View for Token {
    type V = Symbol;

    open spec fn view(&self) -> Symbol {
        match self {
            Token::Number(n) => Symbol::Number(n@),
            Token::Multiply => Symbol::Multiply,
            Token::Divide => Symbol::Divide,
            Token::Add => Symbol::Add,
            Token::Subtract => Symbol::Subtract,
            Token::LeftParen => Symbol::LeftParen,
            Token::RightParen => Symbol::RightParen,
            Token::EndOfInput => Symbol::EndOfInput,
        }
    }
}

impl Clone for Token {
    fn clone(&self) -> (r: Self)
        ensures
            r@ == self@,
    {
        match self {
            Token::Number(n) => Token::Number(n.clone()),
            Token::Multiply => Token::Multiply,
            Token::Divide => Token::Divide,
            Token::Add => Token::Add,
            Token::Subtract => Token::Subtract,
            Token::LeftParen => Token::LeftParen,
            Token::RightParen => Token::RightParen,
            Token::EndOfInput => Token::EndOfInput,
        }
    }
}

/// The symbols of a token sequence, one for each token and in the same order.
pub open spec fn symbols(tokens: Seq<Token>) -> Seq<Symbol> {
    tokens.map_values(|t: Token| t@)
}

} // verus!
