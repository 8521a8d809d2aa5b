//! What every token offers the engine: a left binding power and its two
//! behaviours, given as data, plus an ordered list of operand handles.
use vstd::prelude::*;
use crate::number::NumberError;

verus! {

/// What a token does when it opens an expression (its "nud").
#[derive(Clone, Copy, Debug, PartialEq, Eq, Structural)]
pub enum Nud {
    /// The token cannot open an expression; reaching it there is fatal.
    Missing,
    /// The token is a complete operand by itself.
    Atom,
    /// The token takes one operand, parsed at the given right binding power.
    Prefix(u8),
}

/// What a token does when it follows a complete left operand (its "led").
#[derive(Clone, Copy, Debug, PartialEq, Eq, Structural)]
pub enum Led {
    /// The token cannot continue an expression; reaching it there is fatal.
    Missing,
    /// A binary operator: the left operand, then one parsed at the given
    /// right binding power.
    Infix(u8),
    /// The token takes the left operand alone.
    Postfix,
}

/// The behaviour of a token as the engine sees it.
#[derive(Clone, Copy, Debug, PartialEq, Eq, Structural)]
pub struct Rule {
    pub lbp: u8,
    pub nud: Nud,
    pub led: Led,
}

pub open spec fn nud_arity(n: Nud) -> nat {
    match n {
        Nud::Prefix(_) => 1,
        _ => 0,
    }
}

pub open spec fn led_arity(l: Led) -> nat {
    match l {
        Led::Infix(_) => 2,
        Led::Postfix => 1,
        Led::Missing => 0,
    }
}

/// The most operands either behaviour of a token attaches to it.
pub open spec fn arity(r: Rule) -> nat {
    if nud_arity(r.nud) >= led_arity(r.led) {
        nud_arity(r.nud)
    } else {
        led_arity(r.led)
    }
}

/// Failures of the lexer.
#[derive(Clone, Copy, Debug, PartialEq, Eq, Structural)]
pub enum LexError {
    /// A character at this index that cannot continue a numeral.
    BadNumberChar(usize),
    /// A `"` with no closing `"` after it.
    UnterminatedString,
    /// A numeral that cannot be read.
    BadNumber(NumberError),
    /// No constructor is registered for a class the lexer needs.
    NoConstructor,
}

/// Failures of a parse. Each of them ends the parse.
#[derive(Clone, Copy, Debug, PartialEq, Eq, Structural)]
pub enum ParseError {
    Lex(LexError),
    /// The token at this index cannot open an expression.
    MissingNud(usize),
    /// The token at this index cannot continue an expression.
    MissingLed(usize),
    /// The tokens ran out before an expression was complete.
    Exhausted,
}

/// The capability every token kind has: a binding power and its two
/// behaviours.
pub trait Token {
    spec fn spec_lbp(&self) -> u8;

    spec fn spec_nud(&self) -> Nud;

    spec fn spec_led(&self) -> Led;

    fn lbp(&self) -> (r: u8)
        ensures
            r == self.spec_lbp(),
    ;

    fn nud(&self) -> (r: Nud)
        ensures
            r == self.spec_nud(),
    ;

    fn led(&self) -> (r: Led)
        ensures
            r == self.spec_led(),
    ;
}

pub open spec fn rule_of<S: Token>(s: S) -> Rule {
    Rule { lbp: s.spec_lbp(), nud: s.spec_nud(), led: s.spec_led() }
}

/// A node of the syntax tree: a token together with the handles of its
/// operands. A registered symbol also serves as the template from which the
/// lexer makes each token of its class.
pub trait Symbol: Token + Sized {
    /// What a token holds besides its operands.
    type Payload;

    /// Handles of the operands attached so far, in order.
    spec fn children(&self) -> Seq<usize>;

    spec fn payload(&self) -> Self::Payload;

    /// What the token that this template makes from the text of a lexeme
    /// holds besides its operands.
    spec fn made(&self, text: Seq<char>) -> Self::Payload;

    /// The lexeme text a payload carries.
    spec fn code(p: Self::Payload) -> Seq<char>;

    /// A made token carries the text it was made from.
    proof fn lemma_made_code(&self, text: Seq<char>)
        ensures
            Self::code(self.made(text)) == text,
    ;

    /// Why this template refuses the text of a lexeme, if it does.
    spec fn refusal(&self, text: Seq<char>) -> Option<LexError>;

    fn add_child(&mut self, child: usize)
        requires
            old(self).children().len() < arity(rule_of(*old(self))),
        ensures
            final(self).children() == old(self).children().push(child),
            final(self).payload() == old(self).payload(),
            rule_of(*final(self)) == rule_of(*old(self)),
    ;

    fn get_child(&self, i: usize) -> (r: Option<usize>)
        ensures
            r == (if i < self.children().len() {
                Some(self.children()[i as int])
            } else {
                None
            }),
    ;

    /// The token this template makes from the text of a lexeme.
    fn make(&self, text: &str) -> (r: Result<Self, LexError>)
        ensures
            match self.refusal(text@) {
                Some(e) => r == Err::<Self, LexError>(e),
                None => (r matches Ok(t) && t.payload() == self.made(text@) && rule_of(t) == rule_of(
                    *self,
                ) && t.children().len() == 0),
            },
    ;
}

} // verus!
