//! Properties of the engine, the lexer and the numerals, proved over the
//! spec functions that the executable contracts use.
use vstd::prelude::*;
use crate::engine::{
    no_kids,
    parse_expr,
    parse_program,
    parse_rest,
    payloads_part,
    rules_part,
    Kids,
    Parsed,
};
use crate::fixed::{NumToken, StaticPayload, StaticSymbol};
use crate::number::{
    all_digits,
    decimal_spec,
    digits_value,
    dot_at,
    fits_i64,
    frac_digits,
    int_digits,
    is_decimal,
    is_negative,
    lemma_dot_at_skip,
    mantissa,
    scale,
    unsigned_part,
    NumberError,
};
use crate::lexer::{
    lex_from,
    lexed_tokens,
    literal_key,
    scan,
    skip_space,
    starts_number,
    word_end,
    Scan,
};
use crate::token::{rule_of, Led, Nud, Rule, Symbol};

verus! {

/// Whether the token at index `i` opens an expression when the tokens
/// before it are read in turn: the first one does; after one that opens an
/// expression, the next does again only behind a prefix operator; after one
/// that continues an expression, only behind a binary operator.
pub open spec fn opens_expression(rs: Seq<Rule>, i: int) -> bool
    decreases i,
{
    if i <= 0 {
        true
    } else if opens_expression(rs, i - 1) {
        rs[i - 1].nud is Prefix
    } else {
        rs[i - 1].led is Infix
    }
}

/// Every token can play the part its position asks for, and the stream is
/// closed by the end marker: where an expression opens, an operand or a
/// prefix operator; where one continues, an infix or postfix operator with a
/// positive binding power; last, a token of binding power 0 where an
/// expression continues.
pub open spec fn is_well_formed(rs: Seq<Rule>) -> bool {
    &&& rs.len() >= 2
    &&& rs.last().lbp == 0
    &&& !opens_expression(rs, rs.len() - 1)
    &&& forall|i: int|
        0 <= i < rs.len() - 1 ==> if opens_expression(rs, i) {
            (#[trigger] rs[i]).nud is Atom || rs[i].nud is Prefix
        } else {
            rs[i].lbp > 0 && (rs[i].led is Infix || rs[i].led is Postfix)
        }
}

proof fn lemma_well_formed_expr(rs: Seq<Rule>, p: int, rbp: u8, kids: Kids)
    requires
        is_well_formed(rs),
        0 <= p < rs.len() - 1,
        opens_expression(rs, p),
    ensures
        parse_expr(rs, None, p, rbp, kids) matches Ok((root, q, k)) && p <= root < q < rs.len()
            && !opens_expression(rs, q) && (q == rs.len() - 1 || rbp >= rs[q].lbp),
    decreases rs.len() - p, 1int,
{
    let rule = rs[p];
    assert(rule.nud is Atom || rule.nud is Prefix);
    if rule.nud is Atom {
        assert(!opens_expression(rs, p + 1));
        lemma_well_formed_rest(rs, p + 1, rbp, p, kids);
    } else {
        let r = rule.nud->Prefix_0;
        assert(opens_expression(rs, p + 1));
        assert(p + 1 != rs.len() - 1);
        lemma_well_formed_expr(rs, p + 1, r, kids);
        let (arg, q, k) = parse_expr(rs, None, p + 1, r, kids)->Ok_0;
        lemma_well_formed_rest(rs, q, rbp, p, k.update(p, seq![arg as usize]));
    }
}

proof fn lemma_well_formed_rest(rs: Seq<Rule>, q: int, rbp: u8, left: int, kids: Kids)
    requires
        is_well_formed(rs),
        0 <= q < rs.len(),
        !opens_expression(rs, q),
        0 <= left < q,
    ensures
        parse_rest(rs, None, q, rbp, left, kids) matches Ok((root, q2, k)) && (root == left || q
            <= root) && root < q2 && q <= q2 < rs.len() && !opens_expression(rs, q2) && (q2
            == rs.len() - 1 || rbp >= rs[q2].lbp),
    decreases rs.len() - q, 0int,
{
    if q == rs.len() - 1 {
    } else if rbp >= rs[q].lbp {
    } else {
        let rule = rs[q];
        assert(rule.led is Infix || rule.led is Postfix);
        if rule.led is Postfix {
            assert(!opens_expression(rs, q + 1));
            lemma_well_formed_rest(rs, q + 1, rbp, q, kids.update(q, seq![left as usize]));
        } else {
            let r = rule.led->Infix_0;
            assert(opens_expression(rs, q + 1));
            assert(q + 1 != rs.len() - 1);
            lemma_well_formed_expr(rs, q + 1, r, kids);
            let (right, q2, k) = parse_expr(rs, None, q + 1, r, kids)->Ok_0;
            lemma_well_formed_rest(
                rs,
                q2,
                rbp,
                q,
                k.update(q, seq![left as usize, right as usize]),
            );
        }
    }
}

/// A well-formed stream closed by the end marker always parses: the parse
/// returns one root, a token of the stream, and stops exactly at the end
/// marker.
pub proof fn lemma_well_formed_parses(rs: Seq<Rule>)
    requires
        is_well_formed(rs),
    ensures
        parse_program(rs, None) matches Ok((root, next, k)) && 0 <= root < next && next == rs.len()
            - 1,
{
    lemma_well_formed_expr(rs, 0, 0, no_kids(rs.len()));
    let q = parse_expr(rs, None, 0, 0, no_kids(rs.len()))->Ok_0.1;
    if q != rs.len() - 1 {
        assert(rs[q].lbp > 0);
    }
}

pub open spec fn atom(lbp: u8) -> Rule {
    Rule { lbp, nud: Nud::Atom, led: Led::Missing }
}

pub open spec fn binary(lbp: u8, rbp: u8) -> Rule {
    Rule { lbp, nud: Nud::Missing, led: Led::Infix(rbp) }
}

pub open spec fn end_rule() -> Rule {
    Rule { lbp: 0, nud: Nud::Missing, led: Led::Missing }
}

/// In `x A y B z`, where `B` binds tighter than `A` and `A` parses its right
/// operand at a power no higher than its own, `B` with its operands `y` and
/// `z` is the right operand of `A`: the tighter operator's subtree lies
/// wholly inside one operand of the looser one.
pub proof fn lemma_tighter_operator_nests(
    x: u8,
    y: u8,
    z: u8,
    lbp_a: u8,
    rbp_a: u8,
    lbp_b: u8,
    rbp_b: u8,
)
    requires
        0 < lbp_a < lbp_b,
        rbp_a <= lbp_a,
    ensures
        ({
            let rs = seq![atom(x), binary(lbp_a, rbp_a), atom(y), binary(lbp_b, rbp_b), atom(z), end_rule()];
            parse_program(rs, None) matches Ok((root, next, k)) && root == 1 && next == 5 && k[1]
                == seq![0usize, 3usize] && k[3] == seq![2usize, 4usize] && k[0].len() == 0
                && k[2].len() == 0 && k[4].len() == 0 && k[5].len() == 0
        }),
{
    let rs = seq![atom(x), binary(lbp_a, rbp_a), atom(y), binary(lbp_b, rbp_b), atom(z), end_rule()];
    let k0 = no_kids(6);
    assert(parse_rest(rs, None, 5, rbp_b, 4, k0) == Parsed::Ok((4, 5, k0)));
    assert(parse_expr(rs, None, 4, rbp_b, k0) == Parsed::Ok((4, 5, k0)));
    let k1 = k0.update(3, seq![2usize, 4usize]);
    assert(parse_rest(rs, None, 5, rbp_a, 3, k1) == Parsed::Ok((3, 5, k1)));
    assert(parse_rest(rs, None, 3, rbp_a, 2, k0) == Parsed::Ok((3, 5, k1)));
    assert(parse_expr(rs, None, 2, rbp_a, k0) == Parsed::Ok((3, 5, k1)));
    let k2 = k1.update(1, seq![0usize, 3usize]);
    assert(parse_rest(rs, None, 5, 0, 1, k2) == Parsed::Ok((1, 5, k2)));
    assert(parse_rest(rs, None, 1, 0, 0, k0) == Parsed::Ok((1, 5, k2)));
    assert(parse_expr(rs, None, 0, 0, k0) == Parsed::Ok((1, 5, k2)));
}

/// In `x B y A z`, where `B` binds at least as tightly as `A` and parses its
/// right operand at a power at least that of `A`, `B` with its operands `x`
/// and `y` is the left operand of `A`.
pub proof fn lemma_tighter_operator_first(
    x: u8,
    y: u8,
    z: u8,
    lbp_a: u8,
    rbp_a: u8,
    lbp_b: u8,
    rbp_b: u8,
)
    requires
        0 < lbp_a <= lbp_b,
        rbp_b >= lbp_a,
    ensures
        ({
            let rs = seq![atom(x), binary(lbp_b, rbp_b), atom(y), binary(lbp_a, rbp_a), atom(z), end_rule()];
            parse_program(rs, None) matches Ok((root, next, k)) && root == 3 && next == 5 && k[1]
                == seq![0usize, 2usize] && k[3] == seq![1usize, 4usize]
        }),
{
    let rs = seq![atom(x), binary(lbp_b, rbp_b), atom(y), binary(lbp_a, rbp_a), atom(z), end_rule()];
    let k0 = no_kids(6);
    assert(parse_rest(rs, None, 3, rbp_b, 2, k0) == Parsed::Ok((2, 3, k0)));
    assert(parse_expr(rs, None, 2, rbp_b, k0) == Parsed::Ok((2, 3, k0)));
    let k1 = k0.update(1, seq![0usize, 2usize]);
    assert(parse_rest(rs, None, 5, rbp_a, 4, k1) == Parsed::Ok((4, 5, k1)));
    assert(parse_expr(rs, None, 4, rbp_a, k1) == Parsed::Ok((4, 5, k1)));
    let k2 = k1.update(3, seq![1usize, 4usize]);
    assert(parse_rest(rs, None, 5, 0, 3, k2) == Parsed::Ok((3, 5, k2)));
    assert(parse_rest(rs, None, 3, 0, 1, k1) == Parsed::Ok((3, 5, k2)));
    assert(parse_rest(rs, None, 1, 0, 0, k0) == Parsed::Ok((3, 5, k2)));
    assert(parse_expr(rs, None, 0, 0, k0) == Parsed::Ok((3, 5, k2)));
}

/// An operator that parses its right operand at its own binding power
/// groups a chain of itself to the left: `x A y A z` is `(x A y) A z`.
pub proof fn lemma_left_associative(x: u8, y: u8, z: u8, lbp: u8)
    requires
        0 < lbp,
    ensures
        ({
            let rs = seq![atom(x), binary(lbp, lbp), atom(y), binary(lbp, lbp), atom(z), end_rule()];
            parse_program(rs, None) matches Ok((root, next, k)) && root == 3 && next == 5 && k[1]
                == seq![0usize, 2usize] && k[3] == seq![1usize, 4usize]
        }),
{
    lemma_tighter_operator_first(x, y, z, lbp, lbp, lbp, lbp);
}

/// The numeral written with an optional minus sign, the integer digits
/// `ip` and, when there are any, a dot and the fraction digits `fp`.
pub open spec fn numeral_text(neg: bool, ip: Seq<char>, fp: Seq<char>) -> Seq<char> {
    (if neg {
        seq!['-']
    } else {
        Seq::empty()
    }) + ip + (if fp.len() > 0 {
        seq!['.'] + fp
    } else {
        Seq::empty()
    })
}

pub open spec fn signed(neg: bool, v: int) -> int {
    if neg {
        -v
    } else {
        v
    }
}

/// Every text of the form `-?[0-9]+(\.[0-9]+)?` is read as its value: the
/// mantissa is the signed value of all its digits and the scale is the
/// number of fraction digits; a number token made from it holds that value,
/// and only a mantissa outside `i64` is refused.
pub proof fn lemma_numeral_round_trip(neg: bool, ip: Seq<char>, fp: Seq<char>, template: NumToken)
    requires
        ip.len() > 0,
        all_digits(ip),
        all_digits(fp),
        fp.len() <= usize::MAX,
    ensures
        ({
            let t = numeral_text(neg, ip, fp);
            let m = signed(neg, digits_value(ip + fp));
            &&& is_decimal(t)
            &&& mantissa(t) == m
            &&& scale(t) == fp.len()
            &&& decimal_spec(t) == (if fits_i64(m) {
                Ok::<(i64, usize), NumberError>((m as i64, fp.len() as usize))
            } else {
                Err(NumberError::OutOfRange)
            })
            &&& StaticSymbol::NumSymbol(template).refusal(t) is None <==> fits_i64(m)
            &&& fits_i64(m) ==> StaticSymbol::NumSymbol(template).made(t) == StaticPayload::Num(
                t,
                m as i64,
                fp.len() as usize,
                template.lbp,
            )
        }),
{
    let t = numeral_text(neg, ip, fp);
    let rest = if fp.len() > 0 {
        seq!['.'] + fp
    } else {
        Seq::<char>::empty()
    };
    let u = ip + rest;
    assert(ip[0] != '-');
    if neg {
        assert(t[0] == '-');
        assert(t.drop_first() =~= u);
    } else {
        assert(t =~= u);
        assert(t[0] == ip[0]);
    }
    assert(is_negative(t) == neg);
    assert(unsigned_part(t) =~= u);
    assert forall|i: int| 0 <= i < ip.len() implies u[i] != '.' by {
        assert(u[i] == ip[i]);
    }
    lemma_dot_at_skip(u, ip.len() as int);
    assert(u.subrange(ip.len() as int, u.len() as int) =~= rest);
    if fp.len() > 0 {
        assert(rest[0] == '.');
        assert(dot_at(rest) == 0);
        assert(u.subrange(ip.len() as int + 1, u.len() as int) =~= fp);
    } else {
        assert(dot_at(rest) == 0);
        assert(fp =~= Seq::<char>::empty());
    }
    assert(dot_at(u) == ip.len());
    assert(int_digits(t) =~= ip);
    assert(frac_digits(t) =~= fp);
    assert(is_decimal(t));
    let m = signed(neg, digits_value(ip + fp));
    assert(mantissa(t) == m);
    if fits_i64(m) {
        assert(decimal_spec(t) == Ok::<(i64, usize), NumberError>((m as i64, fp.len() as usize)));
    }
}

proof fn lemma_skip_space_bounds(s: Seq<char>, p: int)
    requires
        0 <= p <= s.len(),
    ensures
        p <= skip_space(s, p) <= s.len(),
    decreases s.len() - p,
{
    if 0 <= p < s.len() && crate::lexer::is_space(s[p]) {
        lemma_skip_space_bounds(s, p + 1);
    }
}

proof fn lemma_word_end_bounds(s: Seq<char>, p: int)
    requires
        0 <= p <= s.len(),
    ensures
        p <= word_end(s, p) <= s.len(),
    decreases s.len() - p,
{
    if 0 <= p < s.len() && !crate::lexer::is_delim(s[p]) {
        lemma_word_end_bounds(s, p + 1);
    }
}

/// A lexeme that is no numeral, string, quoted form or end marker, and
/// whose text is not a registered spelling, is made by the template
/// registered under `"literal"`.
pub proof fn lemma_unregistered_is_literal<S: Symbol>(
    s: Seq<char>,
    reg: Map<Seq<char>, S>,
    j: int,
    k: int,
)
    requires
        0 <= j <= s.len(),
        k == skip_space(s, j),
        k < s.len(),
        s[k] != '\'',
        s[k] != '"',
        !(s[k] == '.' && k + 1 == s.len()),
        !starts_number(s, k),
        !reg.contains_key(seq![s[k]]),
        !reg.contains_key(s.subrange(k, word_end(s, k + 1))),
        reg.contains_key(literal_key()),
        reg[literal_key()].refusal(s.subrange(k, word_end(s, k + 1))) is None,
    ensures
        lex_from(s, reg, j).0.len() > 0,
        lex_from(s, reg, j).0[0] == (reg[literal_key()], s.subrange(k, word_end(s, k + 1))),
{
    lemma_skip_space_bounds(s, j);
    lemma_word_end_bounds(s, k + 1);
    let e = word_end(s, k + 1);
    assert(scan(s, reg.dom(), j) == (Scan::Found { key: literal_key(), start: k, end: e, resume: e }));
}

proof fn lemma_same_lexemes<A: Symbol, B: Symbol>(
    s: Seq<char>,
    ra: Map<Seq<char>, A>,
    rb: Map<Seq<char>, B>,
    j: int,
)
    requires
        ra.dom() == rb.dom(),
        forall|key: Seq<char>| #[trigger] ra.contains_key(key) ==> rule_of(ra[key]) == rule_of(rb[key]),
        lex_from(s, ra, j).1 is None,
        lex_from(s, rb, j).1 is None,
    ensures
        lex_from(s, ra, j).0.len() == lex_from(s, rb, j).0.len(),
        forall|i: int|
            0 <= i < lex_from(s, ra, j).0.len() ==> (#[trigger] lex_from(s, ra, j).0[i]).1
                == lex_from(s, rb, j).0[i].1 && rule_of(lex_from(s, ra, j).0[i].0) == rule_of(
                lex_from(s, rb, j).0[i].0,
            ),
    decreases s.len() - j,
{
    if 0 <= j <= s.len() {
        match scan(s, ra.dom(), j) {
            Scan::Found { key, start, end, resume } => {
                if ra.contains_key(key) {
                    let text = s.subrange(start, end);
                    if ra[key].refusal(text) is None && rb[key].refusal(text) is None && j < resume
                        <= s.len() {
                        lemma_same_lexemes(s, ra, rb, resume);
                        let la = lex_from(s, ra, j).0;
                        let lb = lex_from(s, rb, j).0;
                        let ra2 = lex_from(s, ra, resume).0;
                        let rb2 = lex_from(s, rb, resume).0;
                        assert forall|i: int| 0 < i < la.len() implies #[trigger] la[i] == ra2[i
                            - 1] && lb[i] == rb2[i - 1] by {}
                    }
                }
            },
            _ => {},
        }
    }
}

/// On the same text, two registries with the same keys whose templates, key
/// by key, have the same binding power and behaviours give token streams of
/// the same rules and the same codes wherever neither lexing fails; so
/// parsing them gives the same root, the same end and the same operands for
/// every token, and each node of the one carries the code of the same node
/// of the other.
pub proof fn lemma_same_rules_same_tree<A: Symbol, B: Symbol>(
    s: Seq<char>,
    ra: Map<Seq<char>, A>,
    rb: Map<Seq<char>, B>,
    j: int,
)
    requires
        ra.dom() == rb.dom(),
        forall|key: Seq<char>| #[trigger] ra.contains_key(key) ==> rule_of(ra[key]) == rule_of(rb[key]),
        lex_from(s, ra, j).1 is None,
        lex_from(s, rb, j).1 is None,
    ensures
        ({
            let ta = lexed_tokens(lex_from(s, ra, j).0);
            let tb = lexed_tokens(lex_from(s, rb, j).0);
            &&& rules_part(ta) == rules_part(tb)
            &&& payloads_part(ta).len() == payloads_part(tb).len()
            &&& forall|i: int|
                0 <= i < ta.len() ==> A::code(#[trigger] payloads_part(ta)[i]) == B::code(
                    payloads_part(tb)[i],
                )
            &&& parse_program(rules_part(ta), None) == parse_program(rules_part(tb), None)
        }),
{
    lemma_same_lexemes(s, ra, rb, j);
    let la = lex_from(s, ra, j).0;
    let lb = lex_from(s, rb, j).0;
    let ta = lexed_tokens(la);
    let tb = lexed_tokens(lb);
    assert(rules_part(ta) =~= rules_part(tb));
    assert forall|i: int| 0 <= i < ta.len() implies A::code(#[trigger] payloads_part(ta)[i]) == B::code(
        payloads_part(tb)[i],
    ) by {
        la[i].0.lemma_made_code(la[i].1);
        lb[i].0.lemma_made_code(lb[i].1);
    }
}

} // verus!
