//! The closed set of token kinds: end marker, literal, string, number, `+`
//! and `*`, dispatched by matching on one enum.
use vstd::prelude::*;
use crate::number::{decimal_spec, parse_decimal};
use crate::token::{LexError, Led, Nud, Symbol, Token};

verus! {

/// The end marker. Its binding power is 0, so it ends every loop of the
/// engine.
#[derive(Debug)]
pub struct EndToken {
    pub code: String,
    pub lbp: u8,
}

#[derive(Debug)]
pub struct LiteralToken {
    pub code: String,
    pub lbp: u8,
}

#[derive(Debug)]
pub struct StringToken {
    pub code: String,
    pub lbp: u8,
}

/// A numeral. Its value is `val` divided by ten to the power `scale`.
#[derive(Debug)]
pub struct NumToken {
    pub code: String,
    pub val: i64,
    pub scale: usize,
    pub lbp: u8,
}

/// Addition: left associative, its right operand parsed at its own power.
#[derive(Debug)]
pub struct PlusToken {
    pub code: String,
    pub left: Option<usize>,
    pub right: Option<usize>,
    pub lbp: u8,
}

/// Multiplication: left associative, its right operand parsed at its own
/// power.
#[derive(Debug)]
pub struct MultToken {
    pub code: String,
    pub left: Option<usize>,
    pub right: Option<usize>,
    pub lbp: u8,
}

impl Token for EndToken {
    open spec fn spec_lbp(&self) -> u8 {
        self.lbp
    }

    open spec fn spec_nud(&self) -> Nud {
        Nud::Missing
    }

    open spec fn spec_led(&self) -> Led {
        Led::Missing
    }

    fn lbp(&self) -> u8 {
        self.lbp
    }

    fn nud(&self) -> Nud {
        Nud::Missing
    }

    fn led(&self) -> Led {
        Led::Missing
    }
}

impl Token for LiteralToken {
    open spec fn spec_lbp(&self) -> u8 {
        self.lbp
    }

    open spec fn spec_nud(&self) -> Nud {
        Nud::Atom
    }

    open spec fn spec_led(&self) -> Led {
        Led::Missing
    }

    fn lbp(&self) -> u8 {
        self.lbp
    }

    fn nud(&self) -> Nud {
        Nud::Atom
    }

    fn led(&self) -> Led {
        Led::Missing
    }
}

impl Token for StringToken {
    open spec fn spec_lbp(&self) -> u8 {
        self.lbp
    }

    open spec fn spec_nud(&self) -> Nud {
        Nud::Atom
    }

    open spec fn spec_led(&self) -> Led {
        Led::Missing
    }

    fn lbp(&self) -> u8 {
        self.lbp
    }

    fn nud(&self) -> Nud {
        Nud::Atom
    }

    fn led(&self) -> Led {
        Led::Missing
    }
}

impl Token for NumToken {
    open spec fn spec_lbp(&self) -> u8 {
        self.lbp
    }

    open spec fn spec_nud(&self) -> Nud {
        Nud::Atom
    }

    open spec fn spec_led(&self) -> Led {
        Led::Missing
    }

    fn lbp(&self) -> u8 {
        self.lbp
    }

    fn nud(&self) -> Nud {
        Nud::Atom
    }

    fn led(&self) -> Led {
        Led::Missing
    }
}

impl Token for PlusToken {
    open spec fn spec_lbp(&self) -> u8 {
        self.lbp
    }

    open spec fn spec_nud(&self) -> Nud {
        Nud::Missing
    }

    open spec fn spec_led(&self) -> Led {
        Led::Infix(self.lbp)
    }

    fn lbp(&self) -> u8 {
        self.lbp
    }

    fn nud(&self) -> Nud {
        Nud::Missing
    }

    fn led(&self) -> Led {
        Led::Infix(self.lbp)
    }
}

impl Token for MultToken {
    open spec fn spec_lbp(&self) -> u8 {
        self.lbp
    }

    open spec fn spec_nud(&self) -> Nud {
        Nud::Missing
    }

    open spec fn spec_led(&self) -> Led {
        Led::Infix(self.lbp)
    }

    fn lbp(&self) -> u8 {
        self.lbp
    }

    fn nud(&self) -> Nud {
        Nud::Missing
    }

    fn led(&self) -> Led {
        Led::Infix(self.lbp)
    }
}

/// A token of the closed set.
#[derive(Debug)]
pub enum StaticSymbol {
    EndSymbol(EndToken),
    LiteralSymbol(LiteralToken),
    StringSymbol(StringToken),
    NumSymbol(NumToken),
    PlusSymbol(PlusToken),
    MultSymbol(MultToken),
}

/// The operands of a binary token, as a list.
pub open spec fn pair_children(left: Option<usize>, right: Option<usize>) -> Seq<usize> {
    match left {
        None => Seq::empty(),
        Some(l) => match right {
            None => seq![l],
            Some(r) => seq![l, r],
        },
    }
}

/// What a static token holds besides its operands.
pub enum StaticPayload {
    End(Seq<char>, u8),
    Literal(Seq<char>, u8),
    Str(Seq<char>, u8),
    Num(Seq<char>, i64, usize, u8),
    Plus(Seq<char>, u8),
    Mult(Seq<char>, u8),
}

impl StaticSymbol {
    /// Template of the end marker.
    pub fn end() -> (r: Self)
        ensures
            r matches StaticSymbol::EndSymbol(t) && t.lbp == 0,
    {
        StaticSymbol::EndSymbol(EndToken { code: String::new(), lbp: 0 })
    }

    /// Template of the literal class.
    pub fn literal() -> (r: Self)
        ensures
            r matches StaticSymbol::LiteralSymbol(t) && t.lbp == 0,
    {
        StaticSymbol::LiteralSymbol(LiteralToken { code: String::new(), lbp: 0 })
    }

    /// Template of the string class.
    pub fn string() -> (r: Self)
        ensures
            r matches StaticSymbol::StringSymbol(t) && t.lbp == 0,
    {
        StaticSymbol::StringSymbol(StringToken { code: String::new(), lbp: 0 })
    }

    /// Template of the number class.
    pub fn num() -> (r: Self)
        ensures
            r matches StaticSymbol::NumSymbol(t) && t.lbp == 0,
    {
        StaticSymbol::NumSymbol(NumToken { code: String::new(), val: 0, scale: 0, lbp: 0 })
    }

    /// Template of `+`, binding power 20.
    pub fn plus() -> (r: Self)
        ensures
            r matches StaticSymbol::PlusSymbol(t) && t.lbp == 20 && t.left is None && t.right is None,
    {
        StaticSymbol::PlusSymbol(PlusToken { code: String::new(), left: None, right: None, lbp: 20 })
    }

    /// Template of `*`, binding power 30.
    pub fn mult() -> (r: Self)
        ensures
            r matches StaticSymbol::MultSymbol(t) && t.lbp == 30 && t.left is None && t.right is None,
    {
        StaticSymbol::MultSymbol(MultToken { code: String::new(), left: None, right: None, lbp: 30 })
    }
}

impl Token for StaticSymbol {
    open spec fn spec_lbp(&self) -> u8 {
        match self {
            StaticSymbol::EndSymbol(t) => t.spec_lbp(),
            StaticSymbol::LiteralSymbol(t) => t.spec_lbp(),
            StaticSymbol::StringSymbol(t) => t.spec_lbp(),
            StaticSymbol::NumSymbol(t) => t.spec_lbp(),
            StaticSymbol::PlusSymbol(t) => t.spec_lbp(),
            StaticSymbol::MultSymbol(t) => t.spec_lbp(),
        }
    }

    open spec fn spec_nud(&self) -> Nud {
        match self {
            StaticSymbol::EndSymbol(t) => t.spec_nud(),
            StaticSymbol::LiteralSymbol(t) => t.spec_nud(),
            StaticSymbol::StringSymbol(t) => t.spec_nud(),
            StaticSymbol::NumSymbol(t) => t.spec_nud(),
            StaticSymbol::PlusSymbol(t) => t.spec_nud(),
            StaticSymbol::MultSymbol(t) => t.spec_nud(),
        }
    }

    open spec fn spec_led(&self) -> Led {
        match self {
            StaticSymbol::EndSymbol(t) => t.spec_led(),
            StaticSymbol::LiteralSymbol(t) => t.spec_led(),
            StaticSymbol::StringSymbol(t) => t.spec_led(),
            StaticSymbol::NumSymbol(t) => t.spec_led(),
            StaticSymbol::PlusSymbol(t) => t.spec_led(),
            StaticSymbol::MultSymbol(t) => t.spec_led(),
        }
    }

    fn lbp(&self) -> u8 {
        match self {
            StaticSymbol::EndSymbol(t) => t.lbp(),
            StaticSymbol::LiteralSymbol(t) => t.lbp(),
            StaticSymbol::StringSymbol(t) => t.lbp(),
            StaticSymbol::NumSymbol(t) => t.lbp(),
            StaticSymbol::PlusSymbol(t) => t.lbp(),
            StaticSymbol::MultSymbol(t) => t.lbp(),
        }
    }

    fn nud(&self) -> Nud {
        match self {
            StaticSymbol::EndSymbol(t) => t.nud(),
            StaticSymbol::LiteralSymbol(t) => t.nud(),
            StaticSymbol::StringSymbol(t) => t.nud(),
            StaticSymbol::NumSymbol(t) => t.nud(),
            StaticSymbol::PlusSymbol(t) => t.nud(),
            StaticSymbol::MultSymbol(t) => t.nud(),
        }
    }

    fn led(&self) -> Led {
        match self {
            StaticSymbol::EndSymbol(t) => t.led(),
            StaticSymbol::LiteralSymbol(t) => t.led(),
            StaticSymbol::StringSymbol(t) => t.led(),
            StaticSymbol::NumSymbol(t) => t.led(),
            StaticSymbol::PlusSymbol(t) => t.led(),
            StaticSymbol::MultSymbol(t) => t.led(),
        }
    }
}

impl Symbol for StaticSymbol {
    type Payload = StaticPayload;

    open spec fn children(&self) -> Seq<usize> {
        match self {
            StaticSymbol::PlusSymbol(t) => pair_children(t.left, t.right),
            StaticSymbol::MultSymbol(t) => pair_children(t.left, t.right),
            _ => Seq::empty(),
        }
    }

    open spec fn payload(&self) -> StaticPayload {
        match self {
            StaticSymbol::EndSymbol(t) => StaticPayload::End(t.code@, t.lbp),
            StaticSymbol::LiteralSymbol(t) => StaticPayload::Literal(t.code@, t.lbp),
            StaticSymbol::StringSymbol(t) => StaticPayload::Str(t.code@, t.lbp),
            StaticSymbol::NumSymbol(t) => StaticPayload::Num(t.code@, t.val, t.scale, t.lbp),
            StaticSymbol::PlusSymbol(t) => StaticPayload::Plus(t.code@, t.lbp),
            StaticSymbol::MultSymbol(t) => StaticPayload::Mult(t.code@, t.lbp),
        }
    }

    /// The token keeps the template's kind and binding power and takes the
    /// lexeme as its text; a number also takes the lexeme's value.
    open spec fn made(&self, text: Seq<char>) -> StaticPayload {
        match self {
            StaticSymbol::EndSymbol(p) => StaticPayload::End(text, p.lbp),
            StaticSymbol::LiteralSymbol(p) => StaticPayload::Literal(text, p.lbp),
            StaticSymbol::StringSymbol(p) => StaticPayload::Str(text, p.lbp),
            StaticSymbol::NumSymbol(p) => match decimal_spec(text) {
                Ok((val, scale)) => StaticPayload::Num(text, val, scale, p.lbp),
                Err(_) => StaticPayload::Num(text, 0, 0, p.lbp),
            },
            StaticSymbol::PlusSymbol(p) => StaticPayload::Plus(text, p.lbp),
            StaticSymbol::MultSymbol(p) => StaticPayload::Mult(text, p.lbp),
        }
    }

    open spec fn code(p: StaticPayload) -> Seq<char> {
        match p {
            StaticPayload::End(c, _) => c,
            StaticPayload::Literal(c, _) => c,
            StaticPayload::Str(c, _) => c,
            StaticPayload::Num(c, _, _, _) => c,
            StaticPayload::Plus(c, _) => c,
            StaticPayload::Mult(c, _) => c,
        }
    }

    proof fn lemma_made_code(&self, text: Seq<char>) {
    }

    /// Only the number template refuses text: one that is not a numeral
    /// whose mantissa fits in an `i64`.
    open spec fn refusal(&self, text: Seq<char>) -> Option<LexError> {
        match self {
            StaticSymbol::NumSymbol(_) => match decimal_spec(text) {
                Err(e) => Some(LexError::BadNumber(e)),
                Ok(_) => None,
            },
            _ => None,
        }
    }

    fn add_child(&mut self, child: usize) {
        match self {
            StaticSymbol::PlusSymbol(t) => {
                if t.left.is_none() {
                    t.left = Some(child);
                    t.right = None;
                } else {
                    t.right = Some(child);
                }
            },
            StaticSymbol::MultSymbol(t) => {
                if t.left.is_none() {
                    t.left = Some(child);
                    t.right = None;
                } else {
                    t.right = Some(child);
                }
            },
            _ => {},
        }
        proof {
            assert(self.children() =~= old(self).children().push(child));
        }
    }

    fn get_child(&self, i: usize) -> (r: Option<usize>) {
        match self {
            StaticSymbol::PlusSymbol(t) => pair_child(t.left, t.right, i),
            StaticSymbol::MultSymbol(t) => pair_child(t.left, t.right, i),
            _ => None,
        }
    }

    fn make(&self, text: &str) -> (r: Result<Self, LexError>) {
        let code = text.to_owned();
        match self {
            StaticSymbol::EndSymbol(p) => Ok(StaticSymbol::EndSymbol(EndToken { code, lbp: p.lbp })),
            StaticSymbol::LiteralSymbol(p) => Ok(
                StaticSymbol::LiteralSymbol(LiteralToken { code, lbp: p.lbp }),
            ),
            StaticSymbol::StringSymbol(p) => Ok(
                StaticSymbol::StringSymbol(StringToken { code, lbp: p.lbp }),
            ),
            StaticSymbol::NumSymbol(p) => match parse_decimal(text) {
                Ok((val, scale)) => Ok(
                    StaticSymbol::NumSymbol(NumToken { code, val, scale, lbp: p.lbp }),
                ),
                Err(e) => Err(LexError::BadNumber(e)),
            },
            StaticSymbol::PlusSymbol(p) => Ok(
                StaticSymbol::PlusSymbol(PlusToken { code, left: None, right: None, lbp: p.lbp }),
            ),
            StaticSymbol::MultSymbol(p) => Ok(
                StaticSymbol::MultSymbol(MultToken { code, left: None, right: None, lbp: p.lbp }),
            ),
        }
    }
}

/// The `i`-th operand of a binary token.
fn pair_child(left: Option<usize>, right: Option<usize>, i: usize) -> (r: Option<usize>)
    ensures
        r == (if i < pair_children(left, right).len() {
            Some(pair_children(left, right)[i as int])
        } else {
            None
        }),
{
    match left {
        None => None,
        Some(l) => if i == 0 {
            Some(l)
        } else if i == 1 {
            right
        } else {
            None
        },
    }
}

} // verus!
