//! The lexer: a character-class state machine that turns text into tokens,
//! making each token from a template looked up in a registry.
use vstd::prelude::*;
use crate::engine::Tokenizer;
use crate::number::is_digit;
use crate::registry::{chars_of, Registry};
use crate::token::{rule_of, LexError, Rule, Symbol};

verus! {

pub open spec fn is_space(c: char) -> bool {
    c == ' ' || c == '\t' || c == '\n'
}

/// Characters that end a word or a numeral without being part of it.
pub open spec fn is_delim(c: char) -> bool {
    is_space(c) || c == '\'' || c == '(' || c == ')' || c == '"'
}

pub open spec fn is_num_char(c: char) -> bool {
    is_digit(c) || c == '.'
}

/// The first index from `p` on that is not white space.
pub open spec fn skip_space(s: Seq<char>, p: int) -> int
    decreases s.len() - p,
{
    if 0 <= p < s.len() && is_space(s[p]) {
        skip_space(s, p + 1)
    } else {
        p
    }
}

/// The first index from `p` on that is neither a digit nor a dot.
pub open spec fn num_end(s: Seq<char>, p: int) -> int
    decreases s.len() - p,
{
    if 0 <= p < s.len() && is_num_char(s[p]) {
        num_end(s, p + 1)
    } else {
        p
    }
}

/// The first delimiter from `p` on, or the end of the text.
pub open spec fn word_end(s: Seq<char>, p: int) -> int
    decreases s.len() - p,
{
    if 0 <= p < s.len() && !is_delim(s[p]) {
        word_end(s, p + 1)
    } else {
        p
    }
}

/// The first `"` from `p` on, or the end of the text.
pub open spec fn string_end(s: Seq<char>, p: int) -> int
    decreases s.len() - p,
{
    if 0 <= p < s.len() && s[p] != '"' {
        string_end(s, p + 1)
    } else {
        p
    }
}

/// Where a quoted form that has `depth` parentheses open at `p` ends: at
/// white space or a `)` outside every parenthesis, or at the end of the text.
pub open spec fn quote_end(s: Seq<char>, p: int, depth: nat) -> int
    decreases s.len() - p,
{
    if p < 0 || p >= s.len() {
        p
    } else if is_space(s[p]) {
        if depth == 0 {
            p
        } else {
            quote_end(s, p + 1, depth)
        }
    } else if s[p] == '(' {
        quote_end(s, p + 1, depth + 1)
    } else if s[p] == ')' {
        if depth == 0 {
            p
        } else {
            quote_end(s, p + 1, (depth - 1) as nat)
        }
    } else {
        quote_end(s, p + 1, depth)
    }
}

pub open spec fn end_key() -> Seq<char> {
    "end"@
}

pub open spec fn literal_key() -> Seq<char> {
    "literal"@
}

pub open spec fn string_key() -> Seq<char> {
    "string"@
}

pub open spec fn num_key() -> Seq<char> {
    "num"@
}

/// The outcome of scanning for one lexeme.
pub enum Scan {
    /// Only white space is left.
    Done,
    Fail(LexError),
    /// A lexeme whose token is made by the template under `key`, from the
    /// text `[start, end)`; scanning resumes at `resume`.
    Found { key: Seq<char>, start: int, end: int, resume: int },
}

/// A numeral that starts at `k` and whose digits and dots run up to `e`.
pub open spec fn scan_number(s: Seq<char>, k: int, e: int) -> Scan {
    if e < s.len() && !is_delim(s[e]) {
        Scan::Fail(LexError::BadNumberChar(e as usize))
    } else {
        Scan::Found { key: num_key(), start: k, end: e, resume: e }
    }
}

/// A numeral starts at `k`: a digit, a dot that is not the last character,
/// or a minus sign followed by a digit or a dot.
pub open spec fn starts_number(s: Seq<char>, k: int) -> bool {
    let c = s[k];
    is_digit(c) || (c == '.' && k + 1 < s.len()) || (c == '-' && k + 1 < s.len() && is_num_char(
        s[k + 1],
    ))
}

/// The next lexeme from index `j`, where `keys` are the registered keys.
/// The end of the text ends a word, a numeral or a quoted form as a
/// delimiter would.
pub open spec fn scan(s: Seq<char>, keys: Set<Seq<char>>, j: int) -> Scan {
    let k = skip_space(s, j);
    if k < 0 || k >= s.len() {
        Scan::Done
    } else {
        let c = s[k];
        if c == '\'' {
            let e = quote_end(s, k + 1, 0);
            Scan::Found { key: string_key(), start: k + 1, end: e, resume: e }
        } else if c == '"' {
            let e = string_end(s, k + 1);
            if e >= s.len() {
                Scan::Fail(LexError::UnterminatedString)
            } else {
                Scan::Found { key: string_key(), start: k + 1, end: e, resume: e + 1 }
            }
        } else if c == '.' && k + 1 == s.len() {
            Scan::Found { key: end_key(), start: k, end: k + 1, resume: k + 1 }
        } else if starts_number(s, k) {
            scan_number(s, k, num_end(s, k + 1))
        } else if keys.contains(seq![c]) {
            Scan::Found { key: seq![c], start: k, end: k + 1, resume: k + 1 }
        } else {
            let e = word_end(s, k + 1);
            let w = s.subrange(k, e);
            Scan::Found { key: if keys.contains(w) { w } else { literal_key() }, start: k, end: e, resume: e }
        }
    }
}

/// Every lexeme from index `j` on, as (template, text) pairs, and how the
/// text ends: cleanly, or with a lexer error.
pub open spec fn lex_from<S: Symbol>(s: Seq<char>, reg: Map<Seq<char>, S>, j: int) -> (
    Seq<(S, Seq<char>)>,
    Option<LexError>,
)
    decreases s.len() - j,
{
    if j < 0 || j > s.len() {
        (Seq::empty(), None)
    } else {
        match scan(s, reg.dom(), j) {
            Scan::Done => (Seq::empty(), None),
            Scan::Fail(e) => (Seq::empty(), Some(e)),
            Scan::Found { key, start, end, resume } => if !reg.contains_key(key) {
                (Seq::empty(), Some(LexError::NoConstructor))
            } else {
                let text = s.subrange(start, end);
                match reg[key].refusal(text) {
                    Some(e) => (Seq::empty(), Some(e)),
                    None => if j < resume <= s.len() {
                        let rest = lex_from(s, reg, resume);
                        (seq![(reg[key], text)] + rest.0, rest.1)
                    } else {
                        (Seq::empty(), None)
                    },
                }
            },
        }
    }
}

/// The tokens of a run of lexemes: the rule of each and what it holds.
pub open spec fn lexed_tokens<S: Symbol>(l: Seq<(S, Seq<char>)>) -> Seq<(Rule, S::Payload)> {
    l.map_values(|p: (S, Seq<char>)| (rule_of(p.0), p.0.made(p.1)))
}

/// The state of the scanner.
#[derive(Clone, Copy, Debug, PartialEq, Eq, Structural)]
pub enum TokenStatus {
    Init,
    InToken,
    InQuote,
    InString,
    InNum,
    EndToken,
}

/// The scan cursor: the lexeme under way starts at `i`, the next character
/// to look at is at `j`, and `inquotepar` parentheses are open in a quoted
/// form.
#[derive(Clone, Copy, Debug)]
pub struct TokenizerStatus {
    pub status: TokenStatus,
    pub i: usize,
    pub j: usize,
    pub inquotepar: usize,
}

/// The class names the lexer falls back on.
#[derive(Clone, Copy, Debug, PartialEq, Eq, Structural)]
pub enum Class {
    End,
    Literal,
    Str,
    Num,
}

pub open spec fn class_key(c: Class) -> Seq<char> {
    match c {
        Class::End => end_key(),
        Class::Literal => literal_key(),
        Class::Str => string_key(),
        Class::Num => num_key(),
    }
}

fn class_name(c: Class) -> (r: &'static str)
    ensures
        r@ == class_key(c),
{
    match c {
        Class::End => "end",
        Class::Literal => "literal",
        Class::Str => "string",
        Class::Num => "num",
    }
}

/// A lexeme found by the scanner: its text is `[start, end)` and scanning
/// resumes at `resume`. Its template is registered under a class name, or
/// under its exact spelling at a registry index.
#[derive(Clone, Copy, Debug)]
pub enum Lexeme {
    Done,
    Fail(LexError),
    Class(Class, usize, usize, usize),
    Spelling(usize, usize, usize, usize),
}

pub open spec fn agrees<S>(out: Lexeme, sc: Scan, reg: Registry<S>) -> bool {
    match out {
        Lexeme::Done => sc is Done,
        Lexeme::Fail(e) => sc == Scan::Fail(e),
        Lexeme::Class(c, a, b, r) => sc == (Scan::Found {
            key: class_key(c),
            start: a as int,
            end: b as int,
            resume: r as int,
        }),
        Lexeme::Spelling(x, a, b, r) => {
            &&& x < reg.size()
            &&& sc == (Scan::Found {
                key: reg.key_at(x as int),
                start: a as int,
                end: b as int,
                resume: r as int,
            })
            &&& reg.view().contains_key(reg.key_at(x as int))
            &&& reg.view()[reg.key_at(x as int)] == reg.template_at(x as int)
        },
    }
}

pub open spec fn resume_of(out: Lexeme) -> int {
    match out {
        Lexeme::Class(_, _, _, r) => r as int,
        Lexeme::Spelling(_, _, _, r) => r as int,
        _ => 0,
    }
}

/// The text of a found lexeme lies within the first `n` characters.
pub open spec fn span_within(out: Lexeme, n: int) -> bool {
    match out {
        Lexeme::Class(_, a, b, _) => a <= b <= n,
        Lexeme::Spelling(_, a, b, _) => a <= b <= n,
        _ => true,
    }
}

fn is_space_char(c: char) -> (r: bool)
    ensures
        r == is_space(c),
{
    c == ' ' || c == '\t' || c == '\n'
}

fn is_delim_char(c: char) -> (r: bool)
    ensures
        r == is_delim(c),
{
    is_space_char(c) || c == '\'' || c == '(' || c == ')' || c == '"'
}

fn is_digit_char(c: char) -> (r: bool)
    ensures
        r == is_digit(c),
{
    '0' <= c && c <= '9'
}

fn is_num_char_exec(c: char) -> (r: bool)
    ensures
        r == is_num_char(c),
{
    is_digit_char(c) || c == '.'
}

/// Splits text into tokens, each made from the template registered under
/// its spelling or its class.
pub struct StringTokenizer<S> {
    input: String,
    chars: Vec<char>,
    registry: Registry<S>,
    st: TokenizerStatus,
}

impl<S: Symbol> StringTokenizer<S> {
    pub closed spec fn text(&self) -> Seq<char> {
        self.chars@
    }

    /// Index where the next scan starts.
    pub closed spec fn position(&self) -> int {
        self.st.j as int
    }

    pub closed spec fn templates(&self) -> Map<Seq<char>, S> {
        self.registry.view()
    }

    /// The lexemes still to come, and how the text ends.
    pub open spec fn lexed(&self) -> (Seq<(S, Seq<char>)>, Option<LexError>) {
        lex_from(self.text(), self.templates(), self.position())
    }

    pub closed spec fn wf(&self) -> bool {
        &&& self.chars@ == self.input@
        &&& self.registry.wf()
        &&& self.st.status == TokenStatus::Init
        &&& self.st.i == self.st.j
        &&& self.st.j <= self.chars@.len()
        &&& self.st.inquotepar == 0
    }

    pub fn new(input: String) -> (r: Self)
        ensures
            r.wf(),
            r.text() == input@,
            r.position() == 0,
            r.templates() == Map::<Seq<char>, S>::empty(),
    {
        let chars = chars_of(input.as_str());
        StringTokenizer {
            input,
            chars,
            registry: Registry::new(),
            st: TokenizerStatus { status: TokenStatus::Init, i: 0, j: 0, inquotepar: 0 },
        }
    }

    /// Registers `template` under a class name or an exact spelling.
    pub fn register_token(&mut self, key: &str, template: S)
        requires
            old(self).wf(),
        ensures
            final(self).wf(),
            final(self).text() == old(self).text(),
            final(self).position() == old(self).position(),
            final(self).templates() == old(self).templates().insert(key@, template),
    {
        self.registry.register(key, template);
    }

    /// Scans for the next lexeme from the cursor, running the state machine
    /// until one lexeme is complete, the text is used up, or it fails.
    fn scan_next(&self) -> (r: Lexeme)
        requires
            self.wf(),
        ensures
            agrees(r, scan(self.text(), self.templates().dom(), self.position()), self.registry),
            (r is Class || r is Spelling) ==> self.position() < resume_of(r) <= self.text().len(),
            span_within(r, self.text().len() as int),
    {
        let ghost s = self.chars@;
        let ghost keys = self.registry.view().dom();
        let n = self.chars.len();
        let mut st = self.st;
        let ghost j0 = st.j as int;
        let ghost target = scan(s, keys, j0);
        let ghost mut k0: int = 0;
        let mut out = Lexeme::Done;
        loop
            invariant_except_break
                st.status == TokenStatus::Init ==> st.i == st.j && skip_space(s, st.j as int)
                    == skip_space(s, j0),
            invariant
                self.wf(),
                s == self.chars@,
                keys == self.registry.view().dom(),
                n == s.len(),
                j0 == self.st.j,
                target == scan(s, keys, j0),
                j0 <= st.j <= n,
                st.i <= st.j,
                st.inquotepar <= st.j,
                st.status != TokenStatus::Init ==> j0 <= k0 < n && k0 == skip_space(s, j0),
                st.status == TokenStatus::InQuote ==> s[k0] == '\'' && st.i == k0 + 1 && quote_end(
                    s,
                    st.j as int,
                    st.inquotepar as nat,
                ) == quote_end(s, k0 + 1, 0),
                st.status == TokenStatus::InString ==> s[k0] == '"' && st.i == k0 + 1
                    && string_end(s, st.j as int) == string_end(s, k0 + 1),
                st.status == TokenStatus::InNum ==> s[k0] != '\'' && s[k0] != '"' && !(s[k0] == '.'
                    && k0 + 1 == n) && starts_number(s, k0) && st.i == k0 && k0 + 1 <= st.j
                    && num_end(s, st.j as int) == num_end(s, k0 + 1),
                st.status == TokenStatus::InToken ==> s[k0] != '\'' && s[k0] != '"' && !(s[k0]
                    == '.' && k0 + 1 == n) && !starts_number(s, k0) && !keys.contains(seq![s[k0]])
                    && st.i == k0 && k0 + 1 <= st.j && word_end(s, st.j as int) == word_end(
                    s,
                    k0 + 1,
                ),
                st.status == TokenStatus::EndToken ==> agrees(out, target, self.registry)
                    && resume_of(out) == st.j && (out is Class || out is Spelling) && j0 < st.j
                    && span_within(out, n as int),
            ensures
                agrees(out, target, self.registry),
                out is Class || out is Spelling,
                j0 < resume_of(out) <= n,
                span_within(out, n as int),
            decreases 2 * (n - st.j) + (if st.status == TokenStatus::EndToken {
                0int
            } else {
                1int
            }),
        {
            match st.status {
                TokenStatus::Init => {
                    if st.j >= n {
                        return Lexeme::Done;
                    }
                    let c = self.chars[st.j];
                    if is_space_char(c) {
                        st.j = st.j + 1;
                        st.i = st.j;
                    } else {
                        proof {
                            k0 = st.j as int;
                        }
                        if c == '\'' {
                            st.j = st.j + 1;
                            st.i = st.j;
                            st.inquotepar = 0;
                            st.status = TokenStatus::InQuote;
                        } else if c == '"' {
                            st.j = st.j + 1;
                            st.i = st.j;
                            st.status = TokenStatus::InString;
                        } else if c == '.' && st.j + 1 == n {
                            out = Lexeme::Class(Class::End, st.j, st.j + 1, st.j + 1);
                            st.j = st.j + 1;
                            st.status = TokenStatus::EndToken;
                        } else if is_digit_char(c) || (c == '.' && st.j + 1 < n) || (c == '-' && st.j
                            + 1 < n && is_num_char_exec(self.chars[st.j + 1])) {
                            st.j = st.j + 1;
                            st.status = TokenStatus::InNum;
                        } else {
                            let found = self.registry.find(&self.chars, st.j, st.j + 1);
                            proof {
                                assert(s.subrange(k0, k0 + 1) =~= seq![c]);
                            }
                            match found {
                                Some(x) => {
                                    out = Lexeme::Spelling(x, st.j, st.j + 1, st.j + 1);
                                    st.j = st.j + 1;
                                    st.status = TokenStatus::EndToken;
                                },
                                None => {
                                    st.j = st.j + 1;
                                    st.status = TokenStatus::InToken;
                                },
                            }
                        }
                    }
                },
                TokenStatus::InNum => {
                    if st.j >= n || is_delim_char(self.chars[st.j]) {
                        out = Lexeme::Class(Class::Num, st.i, st.j, st.j);
                        st.status = TokenStatus::EndToken;
                    } else if is_num_char_exec(self.chars[st.j]) {
                        st.j = st.j + 1;
                    } else {
                        return Lexeme::Fail(LexError::BadNumberChar(st.j));
                    }
                },
                TokenStatus::InToken => {
                    if st.j >= n || is_delim_char(self.chars[st.j]) {
                        out = match self.registry.find(&self.chars, st.i, st.j) {
                            Some(x) => Lexeme::Spelling(x, st.i, st.j, st.j),
                            None => Lexeme::Class(Class::Literal, st.i, st.j, st.j),
                        };
                        st.status = TokenStatus::EndToken;
                    } else {
                        st.j = st.j + 1;
                    }
                },
                TokenStatus::InString => {
                    if st.j >= n {
                        return Lexeme::Fail(LexError::UnterminatedString);
                    } else if self.chars[st.j] == '"' {
                        out = Lexeme::Class(Class::Str, st.i, st.j, st.j + 1);
                        st.j = st.j + 1;
                        st.status = TokenStatus::EndToken;
                    } else {
                        st.j = st.j + 1;
                    }
                },
                TokenStatus::InQuote => {
                    let mut done = st.j >= n;
                    if !done {
                        let c = self.chars[st.j];
                        if is_space_char(c) {
                            if st.inquotepar == 0 {
                                done = true;
                            } else {
                                st.j = st.j + 1;
                            }
                        } else if c == '(' {
                            st.inquotepar = st.inquotepar + 1;
                            st.j = st.j + 1;
                        } else if c == ')' {
                            if st.inquotepar == 0 {
                                done = true;
                            } else {
                                st.inquotepar = st.inquotepar - 1;
                                st.j = st.j + 1;
                            }
                        } else {
                            st.j = st.j + 1;
                        }
                    }
                    if done {
                        out = Lexeme::Class(Class::Str, st.i, st.j, st.j);
                        st.status = TokenStatus::EndToken;
                    }
                },
                TokenStatus::EndToken => {
                    st.i = st.j;
                    st.status = TokenStatus::Init;
                    break ;
                },
            }
        }
        out
    }

    /// Produces the next token: `None` once only white space is left.
    pub fn next_token(&mut self) -> (r: Result<Option<S>, LexError>)
        requires
            old(self).wf(),
        ensures
            final(self).wf(),
            final(self).text() == old(self).text(),
            final(self).templates() == old(self).templates(),
            old(self).lexed().0.len() > 0 ==> (r matches Ok(Some(t)) && t.payload() == old(
                self,
            ).lexed().0[0].0.made(old(self).lexed().0[0].1) && rule_of(t) == rule_of(old(self).lexed().0[0].0) && t.children().len() == 0
                && final(self).lexed() == (old(self).lexed().0.drop_first(), old(self).lexed().1)),
            old(self).lexed().0.len() == 0 ==> final(self).lexed() == old(self).lexed() && r == (
            match old(self).lexed().1 {
                None => Ok::<Option<S>, LexError>(None),
                Some(e) => Err(e),
            }),
    {
        let ghost s = self.chars@;
        let ghost reg = self.registry.view();
        let lx = self.scan_next();
        let (x, a, b, resume) = match lx {
            Lexeme::Done => {
                return Ok(None);
            },
            Lexeme::Fail(e) => {
                return Err(e);
            },
            Lexeme::Class(c, a, b, resume) => {
                let key = chars_of(class_name(c));
                match self.registry.find_key(&key) {
                    Some(x) => (x, a, b, resume),
                    None => {
                        return Err(LexError::NoConstructor);
                    },
                }
            },
            Lexeme::Spelling(x, a, b, resume) => (x, a, b, resume),
        };
        let ghost key = match lx {
            Lexeme::Class(c, _, _, _) => class_key(c),
            _ => self.registry.key_at(x as int),
        };
        assert(reg.contains_key(key) && reg[key] == self.registry.template_at(x as int));
        let text = self.input.as_str().substring_char(a, b);
        let made = self.registry.template(x).make(text);
        match made {
            Ok(t) => {
                self.st.i = resume;
                self.st.j = resume;
                proof {
                    let rest = lex_from(s, reg, resume as int);
                    assert(old(self).lexed().0 == seq![(reg[key], s.subrange(a as int, b as int))]
                        + rest.0);
                    assert(old(self).lexed().0.drop_first() =~= rest.0);
                }
                Ok(Some(t))
            },
            Err(e) => Err(e),
        }
    }
}

impl<S: Symbol> Tokenizer<S> for StringTokenizer<S> {
    open spec fn pending(&self) -> Seq<(Rule, S::Payload)> {
        lexed_tokens(self.lexed().0)
    }

    open spec fn failure(&self) -> Option<LexError> {
        self.lexed().1
    }

    open spec fn inv(&self) -> bool {
        self.wf()
    }

    fn advance(&mut self) -> (r: Result<Option<S>, LexError>) {
        let r = self.next_token();
        assert(self.pending() =~= old(self).pending().drop_first() || old(self).pending().len() == 0);
        r
    }
}

} // verus!
