use risp::decimal::Decimal;
use risp::parse::parse;
use risp::temporal::ClockTime;
use risp::val::{val_float, val_num, val_sym, val_time, Val};

fn assert_parse_risp(input: &str, expected: &str) {
    let parsed = match parse(input) {
        Ok(p) => format!("{:?}", p),
        Err(e) => panic!("Parse failed: {:?}", e),
    };
    assert_eq!(parsed, expected);
}

#[test]
fn parsing_nonsense_results_in_error() {
    if let Ok(p) = parse("/|garbage|/") {
        panic!("Should not have parsed: {:?}", p);
    }
}

#[test]
fn parse_single_number() {
    assert_parse_risp("1", "Risp([Num(1)])");
}

#[test]
fn parse_multiple_numbers() {
    assert_parse_risp("1 2 3", "Risp([Num(1), Num(2), Num(3)])");
}

#[test]
fn parse_single_symbol() {
    let res = parse("a");
    assert!(res.is_ok(), "single symbol should parse");

    match res.unwrap() {
        Val::Risp(children) => {
            assert_eq!(1, children.len(), "Should have had one child");
            let child = children[0].clone();
            assert_eq!(val_sym("a"), child, "Should have been Val::Sym(a)");
        }
        _ => panic!("should have been a Val::Risp"),
    }
}

#[test]
fn symbol_can_have_numbers() {
    let res = parse("a1");
    assert!(res.is_ok(), "single symbol with number should parse");

    match res.unwrap() {
        Val::Risp(children) => {
            assert_eq!(1, children.len(), "Should have had one child");
            let child = children[0].clone();
            assert_eq!(val_sym("a1"), child, "Should have been Val::Sym(a1)");
        }
        _ => panic!("should have been a Val::Risp"),
    }
}

#[test]
fn symbol_can_not_start_with_a_number() {
    let res = parse("1a");
    assert!(res.is_err(), "symbol cant start with a number");
}

#[test]
fn parse_multiple_symbols() {
    let res = parse("a b c");
    assert!(res.is_ok(), "list of symbols should parse");

    match res.unwrap() {
        Val::Risp(children) => {
            assert_eq!(3, children.len(), "Should have had three children");
            assert_eq!(val_sym("a"), children[0].clone(), "Should have been Val::Sym(a)");
            assert_eq!(val_sym("b"), children[1].clone(), "Should have been Val::Sym(b)");
            assert_eq!(val_sym("c"), children[2].clone(), "Should have been Val::Sym(c)");
        }
        _ => panic!("should have been a Val::Risp"),
    }
}

#[test]
fn parse_single_char_operator() {
    assert_parse_risp("<", "Risp([Sym(\"<\")])");
}

#[test]
fn parse_double_char_operator() {
    assert_parse_risp("<=", "Risp([Sym(\"<=\")])");
}

#[test]
fn parse_list_of_numbers_and_symbols() {
    let res = match parse("(+ 1 a b)") {
        Ok(p) => p,
        Err(err) => panic!("{:?}", err),
    };

    let risp_children = match res {
        Val::Risp(children) => children,
        _ => panic!("should have been a Val::Risp"),
    };
    assert_eq!(1, risp_children.len(), "Risp should have had one child");

    let list = match &risp_children[0] {
        Val::List(l) => l,
        _ => panic!("Risp should have had a List as its one child"),
    };
    assert_eq!(4, list.len(), "List should have had four children");

    assert_eq!(val_sym("+"), list[0], "First element in list should have been Val::Sym(a)");
    assert_eq!(val_num(1), list[1], "Second element in list should have been Val::Num(1)");
    assert_eq!(val_sym("a"), list[2], "Third element in list should have been Val::Sym(a)");
    assert_eq!(val_sym("b"), list[3], "Fourth element in list should have been Val::Sym(b)");
}

#[test]
fn parse_single_float() {
    let res = parse("-3.1415");
    assert!(res.is_ok(), "single float should parse");

    match res.unwrap() {
        Val::Risp(children) => {
            assert_eq!(1, children.len(), "Should have had one child");
            let child = children[0].clone();
            assert_eq!(
                val_float(Decimal::from_units(-3_141_500_000)),
                child,
                "Should have been Val::Num(1)"
            );
        }
        _ => panic!("should have been a Val::Risp"),
    }
}

#[test]
fn parse_time() {
    let parsed = parse("00:00:00").unwrap();
    let expected = Val::Risp(vec![val_time(ClockTime::from_hms(0, 0, 0).unwrap())]);
    assert_eq!(parsed, expected);
}
