//! The precedence-climbing engine. Tokens are kept in an arena in the order
//! the tokenizer produced them; a node's handle is its index there, and
//! parsing attaches operand handles to nodes.
use vstd::prelude::*;
use crate::token::{rule_of, LexError, Led, Nud, ParseError, Rule, Symbol};

verus! {

/// Operand handles of each token of a stream, by index.
pub type Kids = Seq<Seq<usize>>;

/// A parse result: the root's index, the index of the first token not
/// consumed, and the operands of every token.
pub type Parsed = Result<(int, int, Kids), ParseError>;

/// Bringing in the token at index `n` fails: the stream ended with a lexer
/// error before it.
pub open spec fn fetch_fails(rs: Seq<Rule>, fail: Option<LexError>, n: int) -> bool {
    n >= rs.len() && fail is Some
}

/// `parse(rbp)` when the current token is `rs[p]` and the next one has not
/// been brought in yet.
pub open spec fn parse_expr(
    rs: Seq<Rule>,
    fail: Option<LexError>,
    p: int,
    rbp: u8,
    kids: Kids,
) -> Parsed
    decreases rs.len() - p, 1int,
{
    if p < 0 || p >= rs.len() {
        Err(ParseError::Exhausted)
    } else if fetch_fails(rs, fail, p + 1) {
        Err(ParseError::Lex(fail->0))
    } else {
        match rs[p].nud {
            Nud::Missing => Err(ParseError::MissingNud(p as usize)),
            Nud::Atom => parse_rest(rs, fail, p + 1, rbp, p, kids),
            Nud::Prefix(r) => match parse_expr(rs, fail, p + 1, r, kids) {
                Err(e) => Err(e),
                Ok((arg, q, k)) => if p < q <= rs.len() {
                    parse_rest(rs, fail, q, rbp, p, k.update(p, seq![arg as usize]))
                } else {
                    Err(ParseError::Exhausted)
                },
            },
        }
    }
}

/// The loop of `parse(rbp)`: `left` is complete and `rs[q]` is the current
/// token. Tokens are taken as infix continuations while their left binding
/// power exceeds `rbp`.
pub open spec fn parse_rest(
    rs: Seq<Rule>,
    fail: Option<LexError>,
    q: int,
    rbp: u8,
    left: int,
    kids: Kids,
) -> Parsed
    decreases rs.len() - q, 0int,
{
    if q < 0 || q >= rs.len() {
        Err(ParseError::Exhausted)
    } else if rbp >= rs[q].lbp {
        Ok((left, q, kids))
    } else if fetch_fails(rs, fail, q + 1) {
        Err(ParseError::Lex(fail->0))
    } else {
        match rs[q].led {
            Led::Missing => Err(ParseError::MissingLed(q as usize)),
            Led::Postfix => parse_rest(rs, fail, q + 1, rbp, q, kids.update(q, seq![left as usize])),
            Led::Infix(r) => match parse_expr(rs, fail, q + 1, r, kids) {
                Err(e) => Err(e),
                Ok((right, q2, k)) => if q < q2 <= rs.len() {
                    parse_rest(
                        rs,
                        fail,
                        q2,
                        rbp,
                        q,
                        k.update(q, seq![left as usize, right as usize]),
                    )
                } else {
                    Err(ParseError::Exhausted)
                },
            },
        }
    }
}

pub open spec fn no_kids(n: nat) -> Kids {
    Seq::new(n, |i: int| Seq::<usize>::empty())
}

/// `pparse()`: bring in the first token, then `parse(0)`.
pub open spec fn parse_program(rs: Seq<Rule>, fail: Option<LexError>) -> Parsed {
    if fetch_fails(rs, fail, 0) {
        Err(ParseError::Lex(fail->0))
    } else {
        parse_expr(rs, fail, 0, 0, no_kids(rs.len()))
    }
}

pub open spec fn rules_of<S: Symbol>(s: Seq<S>) -> Seq<Rule> {
    s.map_values(|t: S| rule_of(t))
}

pub open spec fn payloads_of<S: Symbol>(s: Seq<S>) -> Seq<S::Payload> {
    s.map_values(|t: S| t.payload())
}

pub open spec fn rules_part<P>(s: Seq<(Rule, P)>) -> Seq<Rule> {
    s.map_values(|x: (Rule, P)| x.0)
}

pub open spec fn payloads_part<P>(s: Seq<(Rule, P)>) -> Seq<P> {
    s.map_values(|x: (Rule, P)| x.1)
}

/// A source of tokens, produced one at a time.
pub trait Tokenizer<S: Symbol> {
    /// The tokens still to come, in order: the rule of each and what it
    /// holds besides operands.
    spec fn pending(&self) -> Seq<(Rule, S::Payload)>;

    /// How the stream ends after the pending tokens: cleanly, or with a
    /// lexer error.
    spec fn failure(&self) -> Option<LexError>;

    spec fn inv(&self) -> bool;

    /// Produces the next token, `None` once the input is used up.
    fn advance(&mut self) -> (r: Result<Option<S>, LexError>)
        requires
            old(self).inv(),
        ensures
            final(self).inv(),
            final(self).failure() == old(self).failure(),
            old(self).pending().len() > 0 ==> (r matches Ok(Some(t)) && rule_of(t) == old(
                self,
            ).pending()[0].0 && t.payload() == old(self).pending()[0].1 && final(self).pending()
                == old(self).pending().drop_first()),
            old(self).pending().len() == 0 ==> final(self).pending().len() == 0 && r == (match old(
                self,
            ).failure() {
                None => Ok::<Option<S>, LexError>(None),
                Some(e) => Err(e),
            }),
            r matches Ok(Some(t)) ==> t.children().len() == 0,
    ;
}

/// The engine: a tokenizer and the arena of the tokens it has produced.
pub struct Pratt<S: Symbol, T: Tokenizer<S>> {
    tokenizer: T,
    nodes: Vec<S>,
    at_end: bool,
    origin: Ghost<Seq<S>>,
}

impl<S: Symbol, T: Tokenizer<S>> Pratt<S, T> {
    pub closed spec fn failure(&self) -> Option<LexError> {
        self.tokenizer.failure()
    }

    /// The rules of every token of the stream, brought in yet or not.
    pub closed spec fn rules(&self) -> Seq<Rule> {
        rules_of(self.origin@) + rules_part(self.tokenizer.pending())
    }

    /// What every token of the stream holds besides operands, brought in
    /// yet or not.
    pub closed spec fn stream(&self) -> Seq<S::Payload> {
        payloads_of(self.origin@) + payloads_part(self.tokenizer.pending())
    }

    /// Node `i` of the arena holds token `i` of the stream, with its rule.
    pub open spec fn holds_stream(&self) -> bool {
        &&& self.stream().len() == self.rules().len()
        &&& self.nodes().len() <= self.rules().len()
        &&& forall|i: int|
            0 <= i < self.nodes().len() ==> (#[trigger] self.nodes()[i]).payload() == self.stream()[i]
                && rule_of(self.nodes()[i]) == self.rules()[i]
    }

    /// The arena as it stands.
    pub closed spec fn nodes(&self) -> Seq<S> {
        self.nodes@
    }

    /// Index of the current token: -1 before the first `advance`, the
    /// stream's length once it is used up.
    pub closed spec fn pos(&self) -> int {
        if self.at_end {
            self.nodes@.len() as int
        } else {
            self.nodes@.len() - 1
        }
    }

    pub open spec fn kids(&self) -> Kids {
        Seq::new(
            self.rules().len(),
            |i: int|
                if i < self.nodes().len() {
                    self.nodes()[i].children()
                } else {
                    Seq::<usize>::empty()
                },
        )
    }

    pub closed spec fn wf(&self) -> bool {
        &&& self.tokenizer.inv()
        &&& self.origin@.len() == self.nodes@.len()
        &&& forall|i: int|
            0 <= i < self.nodes@.len() ==> {
                &&& (#[trigger] self.nodes@[i]).payload() == self.origin@[i].payload()
                &&& rule_of(self.nodes@[i]) == rule_of(self.origin@[i])
            }
        &&& forall|i: int|
            0 <= i && self.pos() <= i < self.nodes@.len() ==> (#[trigger] self.nodes@[i]).children().len()
                == 0
        &&& self.at_end ==> self.tokenizer.pending().len() == 0 && self.tokenizer.failure() is None
        &&& self.holds_stream()
    }

    pub fn new(tokenizer: T) -> (r: Self)
        requires
            tokenizer.inv(),
        ensures
            r.wf(),
            r.pos() == -1,
            r.rules() == rules_part(tokenizer.pending()),
            r.stream() == payloads_part(tokenizer.pending()),
            r.holds_stream(),
            r.failure() == tokenizer.failure(),
            r.nodes().len() == 0,
    {
        let r = Pratt { tokenizer, nodes: Vec::new(), at_end: false, origin: Ghost(Seq::empty()) };
        assert(r.rules() =~= rules_part(tokenizer.pending()));
        assert(r.stream() =~= payloads_part(tokenizer.pending()));
        r
    }

    /// Moves to the next token.
    pub fn advance(&mut self) -> (r: Result<(), LexError>)
        requires
            old(self).wf(),
        ensures
            final(self).wf(),
            final(self).rules() == old(self).rules(),
            final(self).stream() == old(self).stream(),
            final(self).holds_stream(),
            final(self).failure() == old(self).failure(),
            final(self).kids() == old(self).kids(),
            forall|i: int|
                0 <= i < old(self).nodes().len() ==> final(self).nodes()[i] == old(self).nodes()[i],
            old(self).nodes().len() <= final(self).nodes().len() <= old(self).nodes().len() + 1,
            if fetch_fails(old(self).rules(), old(self).failure(), old(self).pos() + 1) {
                r == Err::<(), LexError>(old(self).failure()->0) && final(self).pos() == old(
                    self,
                ).pos() && final(self).nodes() == old(self).nodes()
            } else {
                r is Ok && final(self).pos() == (if old(self).pos() < old(self).rules().len() {
                    old(self).pos() + 1
                } else {
                    old(self).pos()
                })
            },
    {
        let ghost before = self.kids();
        match self.tokenizer.advance() {
            Ok(Some(t)) => {
                self.nodes.push(t);
                assert(t.children() =~= Seq::<usize>::empty());
                proof {
                    let ghost g = self.origin@;
                    self.origin = Ghost(g.push(t));
                    assert(self.rules() =~= old(self).rules());
                    assert(self.stream() =~= old(self).stream());
                }
                assert(self.kids() =~= before);
                Ok(())
            },
            Ok(None) => {
                self.at_end = true;
                assert(self.rules() =~= old(self).rules());
                assert(self.stream() =~= old(self).stream());
                assert(self.kids() =~= before);
                Ok(())
            },
            Err(e) => {
                assert(self.rules() =~= old(self).rules());
                assert(self.stream() =~= old(self).stream());
                assert(self.kids() =~= before);
                Err(e)
            },
        }
    }

    /// The node with handle `i`.
    pub fn node(&self, i: usize) -> (r: Option<&S>)
        ensures
            r is Some <==> i < self.nodes().len(),
            r matches Some(x) ==> *x == self.nodes()[i as int],
    {
        if i < self.nodes.len() {
            Some(&self.nodes[i])
        } else {
            None
        }
    }

    /// The number of tokens brought in so far.
    pub fn len(&self) -> (r: usize)
        ensures
            r == self.nodes().len(),
    {
        self.nodes.len()
    }

    /// The current token's handle, if there is one.
    pub fn current(&self) -> (r: Option<usize>)
        requires
            self.wf(),
        ensures
            r is Some <==> 0 <= self.pos() < self.nodes().len(),
            r matches Some(t) ==> t as int == self.pos(),
    {
        if self.at_end || self.nodes.len() == 0 {
            None
        } else {
            Some(self.nodes.len() - 1)
        }
    }

    /// Parses one expression whose operators bind tighter than `rbp`,
    /// starting at the current token; returns the handle of its root.
    pub fn parse(&mut self, rbp: u8) -> (r: Result<usize, ParseError>)
        requires
            old(self).wf(),
        ensures
            final(self).wf(),
            final(self).rules() == old(self).rules(),
            final(self).stream() == old(self).stream(),
            final(self).holds_stream(),
            final(self).failure() == old(self).failure(),
            forall|i: int|
                0 <= i < old(self).nodes().len() && i < old(self).pos() ==> final(self).nodes()[i]
                    == old(self).nodes()[i],
            final(self).nodes().len() >= old(self).nodes().len(),
            match parse_expr(old(self).rules(), old(self).failure(), old(self).pos(), rbp, old(self).kids()) {
                Ok((root, next, k)) => {
                    &&& r == Ok::<usize, ParseError>(root as usize)
                    &&& final(self).pos() == next
                    &&& next < final(self).nodes().len()
                    &&& final(self).kids() == k
                    &&& old(self).pos() <= root < next <= old(self).rules().len()
                    &&& old(self).pos() < next
                },
                Err(e) => r == Err::<usize, ParseError>(e),
            },
        decreases old(self).rules().len() - old(self).pos(),
    {
        let ghost rs = self.rules();
        let ghost fail = self.failure();
        let ghost entry_pos = self.pos();
        let ghost k0 = self.kids();
        let t = match self.current() {
            Some(t) => t,
            None => {
                return Err(ParseError::Exhausted);
            },
        };
        let ghost fresh = self.nodes()[t as int];
        assert(self.wf());
        assert(t == self.pos());
        assert(self.nodes@[t as int].children().len() == 0);
        assert(fresh.children().len() == 0);
        match self.advance() {
            Ok(()) => {},
            Err(e) => {
                return Err(ParseError::Lex(e));
            },
        }
        assert(self.nodes()[t as int] == fresh);
        assert(rs[t as int] == rule_of(self.nodes()[t as int]));
        let mut left: usize = match self.nodes[t].nud() {
            Nud::Missing => {
                return Err(ParseError::MissingNud(t));
            },
            Nud::Atom => t,
            Nud::Prefix(r) => {
                let ghost k1 = self.kids();
                let arg = match self.parse(r) {
                    Ok(a) => a,
                    Err(e) => {
                        return Err(e);
                    },
                };
                let ghost k2 = self.kids();
                assert(self.nodes()[t as int] == fresh);
                self.nodes[t].add_child(arg);
                assert(self.nodes()[t as int].children() =~= seq![arg]);
                assert(self.kids() =~= k2.update(t as int, seq![arg]));
                t
            },
        };
        let ghost target = parse_expr(rs, fail, entry_pos, rbp, k0);
        loop
            invariant
                self.wf(),
                self.rules() == old(self).rules(),
                self.stream() == old(self).stream(),
                self.failure() == fail,
                fail == old(self).failure(),
                rs == self.rules(),
                rs == old(self).rules(),
                entry_pos == old(self).pos(),
                k0 == old(self).kids(),
                target == parse_expr(rs, fail, entry_pos, rbp, k0),
                forall|i: int|
                    0 <= i < old(self).nodes().len() && i < entry_pos ==> self.nodes()[i] == old(
                        self,
                    ).nodes()[i],
                self.nodes().len() >= old(self).nodes().len(),
                entry_pos < self.pos() <= rs.len(),
                entry_pos <= left < self.pos(),
                parse_rest(rs, fail, self.pos(), rbp, left as int, self.kids()) == target,
            decreases rs.len() - self.pos(),
        {
            let q = match self.current() {
                Some(q) => q,
                None => {
                    return Err(ParseError::Exhausted);
                },
            };
            assert(rs[q as int] == rule_of(self.nodes()[q as int]));
            if rbp >= self.nodes[q].lbp() {
                return Ok(left);
            }
            let ghost fresh = self.nodes()[q as int];
            assert(fresh.children().len() == 0);
            match self.advance() {
                Ok(()) => {},
                Err(e) => {
                    return Err(ParseError::Lex(e));
                },
            }
            assert(self.nodes()[q as int] == fresh);
            match self.nodes[q].led() {
                Led::Missing => {
                    return Err(ParseError::MissingLed(q));
                },
                Led::Postfix => {
                    let ghost k1 = self.kids();
                    self.nodes[q].add_child(left);
                    assert(self.nodes()[q as int].children() =~= seq![left]);
                    assert(self.kids() =~= k1.update(q as int, seq![left]));
                    left = q;
                },
                Led::Infix(r) => {
                    let right = match self.parse(r) {
                        Ok(a) => a,
                        Err(e) => {
                            return Err(e);
                        },
                    };
                    let ghost k2 = self.kids();
                    assert(self.nodes()[q as int] == fresh);
                    self.nodes[q].add_child(left);
                    self.nodes[q].add_child(right);
                    assert(self.nodes()[q as int].children() =~= seq![left, right]);
                    assert(self.kids() =~= k2.update(q as int, seq![left, right]));
                    left = q;
                },
            }
        }
    }

    /// Brings in the first token and parses one expression at binding
    /// power 0; returns the handle of its root.
    pub fn pparse(&mut self) -> (r: Result<usize, ParseError>)
        requires
            old(self).wf(),
            old(self).pos() == -1,
        ensures
            final(self).wf(),
            final(self).rules() == old(self).rules(),
            final(self).stream() == old(self).stream(),
            final(self).holds_stream(),
            match parse_program(old(self).rules(), old(self).failure()) {
                Ok((root, next, k)) => {
                    &&& r == Ok::<usize, ParseError>(root as usize)
                    &&& final(self).pos() == next
                    &&& next < final(self).nodes().len()
                    &&& final(self).kids() == k
                },
                Err(e) => r == Err::<usize, ParseError>(e),
            },
    {
        match self.advance() {
            Ok(()) => {},
            Err(e) => {
                return Err(ParseError::Lex(e));
            },
        }
        assert(self.kids() =~= no_kids(self.rules().len()));
        self.parse(0)
    }
}

} // verus!
