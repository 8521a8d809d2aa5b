//! The open token kind: binding power and behaviours are data fixed when the
//! template is registered, and operands form an ordered list of any length.
use vstd::prelude::*;
use crate::token::{LexError, Led, Nud, Symbol, Token};

verus! {

/// A token whose binding power and behaviours are data copied from the
/// template it was made from. The behaviours are chosen from a fixed menu:
/// an operand, a prefix operator, an infix operator or a postfix operator,
/// so the engine attaches at most two operands to a token; the operand list
/// itself, through `add_child`, takes any number.
#[derive(Debug)]
pub struct DynamicToken {
    pub code: String,
    pub children: Vec<usize>,
    pub lbp: u8,
    pub fnud: Nud,
    pub fled: Led,
}

#[derive(Debug)]
pub struct DynamicSymbol {
    pub token: DynamicToken,
}

impl DynamicToken {
    pub fn add_child(&mut self, child: usize)
        ensures
            final(self).children@ == old(self).children@.push(child),
            final(self).code == old(self).code,
            final(self).lbp == old(self).lbp,
            final(self).fnud == old(self).fnud,
            final(self).fled == old(self).fled,
    {
        self.children.push(child);
    }

    pub fn get_child(&self, i: usize) -> (r: Option<usize>)
        ensures
            r == (if i < self.children@.len() {
                Some(self.children@[i as int])
            } else {
                None
            }),
    {
        if i < self.children.len() {
            Some(self.children[i])
        } else {
            None
        }
    }
}

impl DynamicSymbol {
    /// A template with the given binding power and behaviours.
    pub fn new(lbp: u8, fnud: Nud, fled: Led) -> (r: Self)
        ensures
            r.token.lbp == lbp,
            r.token.fnud == fnud,
            r.token.fled == fled,
            r.token.children@.len() == 0,
            r.token.code@.len() == 0,
    {
        DynamicSymbol {
            token: DynamicToken { code: String::new(), children: Vec::new(), lbp, fnud, fled },
        }
    }
}

impl Token for DynamicToken {
    open spec fn spec_lbp(&self) -> u8 {
        self.lbp
    }

    open spec fn spec_nud(&self) -> Nud {
        self.fnud
    }

    open spec fn spec_led(&self) -> Led {
        self.fled
    }

    fn lbp(&self) -> u8 {
        self.lbp
    }

    fn nud(&self) -> Nud {
        self.fnud
    }

    fn led(&self) -> Led {
        self.fled
    }
}

impl Token for DynamicSymbol {
    open spec fn spec_lbp(&self) -> u8 {
        self.token.spec_lbp()
    }

    open spec fn spec_nud(&self) -> Nud {
        self.token.spec_nud()
    }

    open spec fn spec_led(&self) -> Led {
        self.token.spec_led()
    }

    fn lbp(&self) -> u8 {
        self.token.lbp()
    }

    fn nud(&self) -> Nud {
        self.token.nud()
    }

    fn led(&self) -> Led {
        self.token.led()
    }
}

impl Symbol for DynamicSymbol {
    type Payload = (Seq<char>, u8, Nud, Led);

    open spec fn children(&self) -> Seq<usize> {
        self.token.children@
    }

    open spec fn payload(&self) -> (Seq<char>, u8, Nud, Led) {
        (self.token.code@, self.token.lbp, self.token.fnud, self.token.fled)
    }

    /// The token takes the lexeme as its text and keeps the template's
    /// binding power and behaviours.
    open spec fn made(&self, text: Seq<char>) -> (Seq<char>, u8, Nud, Led) {
        (text, self.token.lbp, self.token.fnud, self.token.fled)
    }

    open spec fn code(p: (Seq<char>, u8, Nud, Led)) -> Seq<char> {
        p.0
    }

    proof fn lemma_made_code(&self, text: Seq<char>) {
    }

    open spec fn refusal(&self, text: Seq<char>) -> Option<LexError> {
        None
    }

    fn add_child(&mut self, child: usize) {
        self.token.add_child(child);
    }

    fn get_child(&self, i: usize) -> (r: Option<usize>) {
        self.token.get_child(i)
    }

    fn make(&self, text: &str) -> (r: Result<Self, LexError>) {
        Ok(
            DynamicSymbol {
                token: DynamicToken {
                    code: text.to_owned(),
                    children: Vec::new(),
                    lbp: self.token.lbp,
                    fnud: self.token.fnud,
                    fled: self.token.fled,
                },
            },
        )
    }
}

} // verus!
