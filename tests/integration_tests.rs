use pratt::fixed::{MultToken, NumToken, PlusToken, StaticSymbol};
use pratt::{DynamicSymbol, LexError, Led, Nud, ParseError, Pratt, StringTokenizer, Symbol};
use pratt::number::{parse_decimal, NumberError};

fn static_tokenizer(program: &str) -> StringTokenizer<StaticSymbol> {
    let mut tokenizer = StringTokenizer::new(String::from(program));
    tokenizer.register_token("end", StaticSymbol::end());
    tokenizer.register_token("string", StaticSymbol::string());
    tokenizer.register_token("literal", StaticSymbol::literal());
    tokenizer.register_token("num", StaticSymbol::num());
    tokenizer.register_token("+", StaticSymbol::plus());
    tokenizer.register_token("*", StaticSymbol::mult());
    tokenizer
}

fn dynamic_tokenizer(program: &str, rbp_plus: u8, rbp_mult: u8) -> StringTokenizer<DynamicSymbol> {
    let mut tokenizer = StringTokenizer::new(String::from(program));
    tokenizer.register_token("end", DynamicSymbol::new(0, Nud::Missing, Led::Missing));
    tokenizer.register_token("string", DynamicSymbol::new(0, Nud::Atom, Led::Missing));
    tokenizer.register_token("literal", DynamicSymbol::new(0, Nud::Atom, Led::Missing));
    tokenizer.register_token("num", DynamicSymbol::new(0, Nud::Atom, Led::Missing));
    tokenizer.register_token("+", DynamicSymbol::new(20, Nud::Missing, Led::Infix(rbp_plus)));
    tokenizer.register_token("*", DynamicSymbol::new(30, Nud::Missing, Led::Infix(rbp_mult)));
    tokenizer
}

fn num_value(parser: &Pratt<StaticSymbol, StringTokenizer<StaticSymbol>>, i: usize) -> Option<(i64, usize)> {
    match parser.node(i) {
        Some(StaticSymbol::NumSymbol(NumToken { val, scale, .. })) => Some((*val, *scale)),
        _ => None,
    }
}

fn dyn_code(parser: &Pratt<DynamicSymbol, StringTokenizer<DynamicSymbol>>, i: usize) -> String {
    parser.node(i).unwrap().token.code.clone()
}

fn dyn_child(parser: &Pratt<DynamicSymbol, StringTokenizer<DynamicSymbol>>, i: usize, k: usize) -> usize {
    parser.node(i).unwrap().token.get_child(k).unwrap()
}

#[test]
fn test_static() {
    let program = "1 + 2 * 3 .";
    let tokenizer = static_tokenizer(program);
    let mut parser = Pratt::new(tokenizer);
    let ast = parser.pparse().unwrap();
    match parser.node(ast) {
        Some(StaticSymbol::PlusSymbol(PlusToken { left: l, right: r, .. })) => {
            let left = l.unwrap();
            match num_value(&parser, left) {
                Some((v, _)) => assert_eq!(v, 1),
                None => assert!(false, "1 not found"),
            }
            let right = r.unwrap();
            match parser.node(right) {
                Some(StaticSymbol::MultSymbol(MultToken { left: l, right: r, .. })) => {
                    match num_value(&parser, l.unwrap()) {
                        Some((v, _)) => assert_eq!(v, 2),
                        None => assert!(false, "2 not found"),
                    }
                    match num_value(&parser, r.unwrap()) {
                        Some((v, _)) => assert_eq!(v, 3),
                        None => assert!(false, "3 not found"),
                    }
                }
                _ => assert!(false, "mult not found"),
            }
        }
        _ => assert!(false, "plus not found"),
    }
}

#[test]
fn test_dynamic() {
    let program = "1 + 2 * 3 .";
    let tokenizer = dynamic_tokenizer(program, 0, 0);
    let mut parser = Pratt::new(tokenizer);
    let ast = parser.pparse().unwrap();
    assert_eq!("+", dyn_code(&parser, ast));
    let left = dyn_child(&parser, ast, 0);
    assert_eq!(dyn_code(&parser, left), "1");
    let right = dyn_child(&parser, ast, 1);
    assert_eq!(dyn_code(&parser, right), "*");
    let rl = dyn_child(&parser, right, 0);
    assert_eq!(dyn_code(&parser, rl), "2");
    let rr = dyn_child(&parser, right, 1);
    assert_eq!(dyn_code(&parser, rr), "3");
}

#[test]
fn plus_chains_group_to_the_left() {
    let mut parser = Pratt::new(static_tokenizer("1 + 2 + 3 ."));
    let ast = parser.pparse().unwrap();
    let (outer_l, outer_r) = match parser.node(ast) {
        Some(StaticSymbol::PlusSymbol(t)) => (t.left.unwrap(), t.right.unwrap()),
        _ => panic!("outer plus not found"),
    };
    assert_eq!(num_value(&parser, outer_r), Some((3, 0)));
    match parser.node(outer_l) {
        Some(StaticSymbol::PlusSymbol(t)) => {
            assert_eq!(num_value(&parser, t.left.unwrap()), Some((1, 0)));
            assert_eq!(num_value(&parser, t.right.unwrap()), Some((2, 0)));
        }
        _ => panic!("inner plus not found"),
    }
}

#[test]
fn lower_power_operator_after_higher_takes_the_product() {
    let mut parser = Pratt::new(static_tokenizer("2 * 3 + 4 ."));
    let ast = parser.pparse().unwrap();
    match parser.node(ast) {
        Some(StaticSymbol::PlusSymbol(t)) => {
            match parser.node(t.left.unwrap()) {
                Some(StaticSymbol::MultSymbol(m)) => {
                    assert_eq!(num_value(&parser, m.left.unwrap()), Some((2, 0)));
                    assert_eq!(num_value(&parser, m.right.unwrap()), Some((3, 0)));
                }
                _ => panic!("mult not found"),
            }
            assert_eq!(num_value(&parser, t.right.unwrap()), Some((4, 0)));
        }
        _ => panic!("plus not found"),
    }
}

#[test]
fn numerals_keep_their_exact_value() {
    let mut parser = Pratt::new(static_tokenizer("-12.50 ."));
    let ast = parser.pparse().unwrap();
    assert_eq!(num_value(&parser, ast), Some((-1250, 2)));
    let mut parser = Pratt::new(static_tokenizer("0.5 * 40 ."));
    let ast = parser.pparse().unwrap();
    match parser.node(ast) {
        Some(StaticSymbol::MultSymbol(m)) => {
            assert_eq!(num_value(&parser, m.left.unwrap()), Some((5, 1)));
            assert_eq!(num_value(&parser, m.right.unwrap()), Some((40, 0)));
        }
        _ => panic!("mult not found"),
    }
}

#[test]
fn numeral_extremes() {
    let mut parser = Pratt::new(static_tokenizer("-9223372036854775808 ."));
    let ast = parser.pparse().unwrap();
    assert_eq!(num_value(&parser, ast), Some((i64::MIN, 0)));
    let mut parser = Pratt::new(static_tokenizer("9223372036854775807 ."));
    let ast = parser.pparse().unwrap();
    assert_eq!(num_value(&parser, ast), Some((i64::MAX, 0)));
    let mut parser = Pratt::new(static_tokenizer("9223372036854775808 ."));
    assert_eq!(parser.pparse(), Err(ParseError::Lex(LexError::BadNumber(NumberError::OutOfRange))));
}

#[test]
fn parse_decimal_values() {
    assert_eq!(parse_decimal("7"), Ok((7, 0)));
    assert_eq!(parse_decimal("-0.25"), Ok((-25, 2)));
    assert_eq!(parse_decimal("1.2.3"), Err(NumberError::Malformed));
    assert_eq!(parse_decimal(".5"), Err(NumberError::Malformed));
    assert_eq!(parse_decimal("5."), Err(NumberError::Malformed));
    assert_eq!(parse_decimal("-"), Err(NumberError::Malformed));
    assert_eq!(parse_decimal(""), Err(NumberError::Malformed));
    assert_eq!(parse_decimal("12345678901234567890"), Err(NumberError::OutOfRange));
}

#[test]
fn quoted_form_is_one_string_token() {
    let mut parser = Pratt::new(static_tokenizer("'(a (b c) d) ."));
    let ast = parser.pparse().unwrap();
    match parser.node(ast) {
        Some(StaticSymbol::StringSymbol(t)) => assert_eq!(t.code, "(a (b c) d)"),
        _ => panic!("string not found"),
    }
    assert_eq!(parser.len(), 2);
}

#[test]
fn quoted_word_stops_at_space() {
    let mut parser = Pratt::new(static_tokenizer("'abc + 'd ."));
    let ast = parser.pparse().unwrap();
    match parser.node(ast) {
        Some(StaticSymbol::PlusSymbol(t)) => {
            match parser.node(t.left.unwrap()) {
                Some(StaticSymbol::StringSymbol(s)) => assert_eq!(s.code, "abc"),
                _ => panic!("left string not found"),
            }
            match parser.node(t.right.unwrap()) {
                Some(StaticSymbol::StringSymbol(s)) => assert_eq!(s.code, "d"),
                _ => panic!("right string not found"),
            }
        }
        _ => panic!("plus not found"),
    }
}

#[test]
fn double_quoted_string_keeps_interior() {
    let mut parser = Pratt::new(static_tokenizer("\"hi there\" ."));
    let ast = parser.pparse().unwrap();
    match parser.node(ast) {
        Some(StaticSymbol::StringSymbol(t)) => assert_eq!(t.code, "hi there"),
        _ => panic!("string not found"),
    }
}

#[test]
fn unregistered_spelling_is_a_literal() {
    let mut parser = Pratt::new(static_tokenizer("foo + bar ."));
    let ast = parser.pparse().unwrap();
    match parser.node(ast) {
        Some(StaticSymbol::PlusSymbol(t)) => {
            match parser.node(t.left.unwrap()) {
                Some(StaticSymbol::LiteralSymbol(l)) => assert_eq!(l.code, "foo"),
                _ => panic!("foo not found"),
            }
            match parser.node(t.right.unwrap()) {
                Some(StaticSymbol::LiteralSymbol(l)) => assert_eq!(l.code, "bar"),
                _ => panic!("bar not found"),
            }
        }
        _ => panic!("plus not found"),
    }
}

#[test]
fn registered_word_is_found_by_spelling() {
    let mut tokenizer = static_tokenizer("1 plus 2 .");
    tokenizer.register_token("plus", StaticSymbol::plus());
    let mut parser = Pratt::new(tokenizer);
    let ast = parser.pparse().unwrap();
    match parser.node(ast) {
        Some(StaticSymbol::PlusSymbol(t)) => assert_eq!(t.code, "plus"),
        _ => panic!("plus not found"),
    }
}

#[test]
fn static_and_dynamic_trees_have_the_same_shape() {
    let program = "1 * 2 + 3 * 4 + 5 .";
    let mut sp = Pratt::new(static_tokenizer(program));
    let sroot = sp.pparse().unwrap();
    let mut dp = Pratt::new(dynamic_tokenizer(program, 20, 30));
    let droot = dp.pparse().unwrap();
    assert_eq!(sroot, droot);
    assert_eq!(sp.len(), dp.len());
    for i in 0..sp.len() {
        let s = sp.node(i).unwrap();
        let d = dp.node(i).unwrap();
        for k in 0..3 {
            assert_eq!(s.get_child(k), d.get_child(k));
        }
    }
    assert_eq!(dyn_code(&dp, droot), "+");
}

#[test]
fn dynamic_prefix_and_postfix_operators() {
    let mut tokenizer = dynamic_tokenizer("neg 3 ! + 1 .", 20, 30);
    tokenizer.register_token("neg", DynamicSymbol::new(0, Nud::Prefix(40), Led::Missing));
    tokenizer.register_token("!", DynamicSymbol::new(50, Nud::Missing, Led::Postfix));
    let mut parser = Pratt::new(tokenizer);
    let ast = parser.pparse().unwrap();
    assert_eq!(dyn_code(&parser, ast), "+");
    let left = dyn_child(&parser, ast, 0);
    assert_eq!(dyn_code(&parser, left), "neg");
    let fact = dyn_child(&parser, left, 0);
    assert_eq!(dyn_code(&parser, fact), "!");
    let three = dyn_child(&parser, fact, 0);
    assert_eq!(dyn_code(&parser, three), "3");
    let one = dyn_child(&parser, ast, 1);
    assert_eq!(dyn_code(&parser, one), "1");
    assert_eq!(parser.node(ast).unwrap().token.get_child(2), None);
}

#[test]
fn infix_operator_in_prefix_position_fails() {
    let mut parser = Pratt::new(static_tokenizer("+ 1 ."));
    assert_eq!(parser.pparse(), Err(ParseError::MissingNud(0)));
}

#[test]
fn atom_in_infix_position_fails() {
    let mut tokenizer = dynamic_tokenizer("1 ? 2 .", 20, 30);
    tokenizer.register_token("?", DynamicSymbol::new(10, Nud::Atom, Led::Missing));
    let mut parser = Pratt::new(tokenizer);
    assert_eq!(parser.pparse(), Err(ParseError::MissingLed(1)));
}

#[test]
fn missing_end_marker_exhausts_the_stream() {
    let mut parser = Pratt::new(static_tokenizer("1 +"));
    assert_eq!(parser.pparse(), Err(ParseError::Exhausted));
    let mut parser = Pratt::new(static_tokenizer(""));
    assert_eq!(parser.pparse(), Err(ParseError::Exhausted));
}

#[test]
fn end_marker_alone_has_no_prefix_behaviour() {
    let mut parser = Pratt::new(static_tokenizer("."));
    assert_eq!(parser.pparse(), Err(ParseError::MissingNud(0)));
}

#[test]
fn bad_character_in_numeral() {
    let mut parser = Pratt::new(static_tokenizer("12x + 1 ."));
    assert_eq!(parser.pparse(), Err(ParseError::Lex(LexError::BadNumberChar(2))));
}

#[test]
fn malformed_numeral() {
    let mut parser = Pratt::new(static_tokenizer("1.2.3 ."));
    assert_eq!(parser.pparse(), Err(ParseError::Lex(LexError::BadNumber(NumberError::Malformed))));
}

#[test]
fn unterminated_string() {
    let mut parser = Pratt::new(static_tokenizer("1 + \"abc"));
    assert_eq!(parser.pparse(), Err(ParseError::Lex(LexError::UnterminatedString)));
}

#[test]
fn missing_class_constructor() {
    let mut tokenizer = StringTokenizer::new(String::from("1 ."));
    tokenizer.register_token("end", StaticSymbol::end());
    let mut parser = Pratt::new(tokenizer);
    assert_eq!(parser.pparse(), Err(ParseError::Lex(LexError::NoConstructor)));
}

#[test]
fn tokenizer_yields_tokens_in_order() {
    let mut tokenizer = static_tokenizer("  a 'q \"s\" 7 + .");
    let mut codes: Vec<String> = Vec::new();
    loop {
        match tokenizer.next_token() {
            Ok(Some(StaticSymbol::LiteralSymbol(t))) => codes.push(t.code),
            Ok(Some(StaticSymbol::StringSymbol(t))) => codes.push(t.code),
            Ok(Some(StaticSymbol::NumSymbol(t))) => codes.push(t.code),
            Ok(Some(StaticSymbol::PlusSymbol(t))) => codes.push(t.code),
            Ok(Some(StaticSymbol::EndSymbol(_))) => codes.push(String::from("<end>")),
            Ok(Some(_)) => codes.push(String::from("?")),
            Ok(None) => break,
            Err(_) => panic!("lexer failed"),
        }
    }
    assert_eq!(codes, vec!["a", "q", "s", "7", "+", "<end>"]);
}

#[test]
fn current_and_advance_walk_the_stream() {
    let mut parser = Pratt::new(static_tokenizer("1 + 2 ."));
    assert_eq!(parser.current(), None);
    assert_eq!(parser.advance(), Ok(()));
    assert_eq!(parser.current(), Some(0));
    assert_eq!(parser.advance(), Ok(()));
    assert_eq!(parser.current(), Some(1));
    assert_eq!(parser.advance(), Ok(()));
    assert_eq!(parser.advance(), Ok(()));
    assert_eq!(parser.current(), Some(3));
    assert_eq!(parser.advance(), Ok(()));
    assert_eq!(parser.current(), None);
}

#[test]
fn operand_chain_parses_up_to_the_end_marker() {
    let mut parser = Pratt::new(static_tokenizer("1 + 2 * 3 * 4 + 5 ."));
    let ast = parser.pparse().unwrap();
    assert_eq!(ast, 7);
    assert_eq!(parser.len(), 10);
    assert_eq!(parser.current(), Some(9));
    match parser.node(9) {
        Some(StaticSymbol::EndSymbol(t)) => assert_eq!(t.code, "."),
        _ => panic!("end marker not current"),
    }
}

#[test]
fn trailing_tokens_after_a_complete_expression_are_left() {
    let mut parser = Pratt::new(static_tokenizer("1 2 ."));
    let ast = parser.pparse().unwrap();
    assert_eq!(ast, 0);
    assert_eq!(parser.current(), Some(1));
}

#[test]
fn advance_appends_one_node_holding_the_lexeme() {
    let mut parser = Pratt::new(static_tokenizer("-7 'x"));
    assert_eq!(parser.advance(), Ok(()));
    assert_eq!(parser.len(), 1);
    assert_eq!(num_value(&parser, 0), Some((-7, 0)));
    assert_eq!(parser.advance(), Ok(()));
    assert_eq!(parser.len(), 2);
    match parser.node(1) {
        Some(StaticSymbol::StringSymbol(t)) => assert_eq!(t.code, "x"),
        _ => panic!("string not found"),
    }
    assert_eq!(parser.advance(), Ok(()));
    assert_eq!(parser.len(), 2);
}

#[test]
fn failed_advance_appends_nothing() {
    let mut parser = Pratt::new(static_tokenizer("1 2y ."));
    assert_eq!(parser.advance(), Ok(()));
    assert_eq!(parser.advance(), Err(LexError::BadNumberChar(3)));
    assert_eq!(parser.len(), 1);
    assert_eq!(parser.current(), Some(0));
}

#[test]
fn lone_minus_is_a_literal() {
    let mut parser = Pratt::new(static_tokenizer("- ."));
    let ast = parser.pparse().unwrap();
    match parser.node(ast) {
        Some(StaticSymbol::LiteralSymbol(t)) => assert_eq!(t.code, "-"),
        _ => panic!("literal not found"),
    }
}
