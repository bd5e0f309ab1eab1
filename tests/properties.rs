use risp::decimal::Decimal;
use risp::env::Env;
use risp::error::RispError;
use risp::eval::{builtin_add, builtin_ne, builtin_not, builtin_sub, eval, eval_at};
use risp::parse::{parse, RispParser};
use risp::render::{render_bool, render_decimal, render_num};
use risp::temporal::{CalDate, CalDateTime, ClockTime};
use risp::val::{
    val_add, val_bool, val_date, val_datetime, val_float, val_list, val_num, val_pop, val_risp,
    val_sym, val_time, Val,
};

fn run(s: &str, env: &mut Env) -> Result<Val, RispError> {
    let mut parsed = parse(s)?;
    eval(env, &mut parsed)
}

fn fresh() -> Env {
    Env::new(None)
}

fn float(units: i64) -> Val {
    val_float(Decimal::from_units(units))
}

fn noon() -> CalDateTime {
    CalDateTime::new(
        CalDate::from_ymd(2021, 6, 1).unwrap(),
        ClockTime::from_hms(12, 0, 0).unwrap(),
    )
}

#[test]
fn whole_numbers_read_back() {
    let mut env = fresh();
    assert_eq!(run("-42", &mut env).unwrap(), val_num(-42));
    assert_eq!(run("9223372036854775807", &mut env).unwrap(), val_num(i64::MAX));
    assert_eq!(run("-9223372036854775808", &mut env).unwrap(), val_num(i64::MIN));
}

#[test]
fn decimals_read_back() {
    let mut env = fresh();
    assert_eq!(run("12.500000000", &mut env).unwrap(), float(12_500_000_000));
    assert_eq!(run("-0.250000000", &mut env).unwrap(), float(-250_000_000));
    assert_eq!(run("0.000000001", &mut env).unwrap(), float(1));
}

#[test]
fn booleans_and_times_read_back() {
    let mut env = fresh();
    assert_eq!(run("true", &mut env).unwrap(), val_bool(true));
    assert_eq!(run("false", &mut env).unwrap(), val_bool(false));
    assert_eq!(
        run("09:30:15", &mut env).unwrap(),
        val_time(ClockTime::from_hms(9, 30, 15).unwrap())
    );
}

#[test]
fn invalid_time_is_a_parse_error() {
    assert!(matches!(parse("25:00:00"), Err(RispError::ParseError(_))));
}

#[test]
fn product_commutes_across_types() {
    let mut env = fresh();
    assert_eq!(run("(* 2 0.5)", &mut env).unwrap(), float(1_000_000_000));
    assert_eq!(run("(* 0.5 2)", &mut env).unwrap(), float(1_000_000_000));
    assert_eq!(run("(+ 1.5 2)", &mut env).unwrap(), run("(+ 2 1.5)", &mut env).unwrap());
}

#[test]
fn division_and_remainder_truncate() {
    let mut env = fresh();
    assert_eq!(run("(/ -7 2)", &mut env).unwrap(), val_num(-3));
    assert_eq!(run("(% -7 2)", &mut env).unwrap(), val_num(-1));
    assert_eq!(run("(/ 1 3.0)", &mut env).unwrap(), float(333_333_333));
    assert_eq!(run("(% 7.5 2)", &mut env).unwrap(), float(1_500_000_000));
}

#[test]
fn division_by_zero_is_not_a_number() {
    let mut env = fresh();
    assert_eq!(run("(/ 1 0)", &mut env).unwrap_err(), RispError::NotANumber);
    assert_eq!(run("(% 1 0)", &mut env).unwrap_err(), RispError::NotANumber);
    assert_eq!(run("(/ 1.0 0.0)", &mut env).unwrap_err(), RispError::NotANumber);
}

#[test]
fn overflow_is_not_a_number() {
    let mut env = fresh();
    assert_eq!(
        run("(+ 9223372036854775807 1)", &mut env).unwrap_err(),
        RispError::NotANumber
    );
    assert_eq!(
        run("(/ -9223372036854775808 -1)", &mut env).unwrap_err(),
        RispError::NotANumber
    );
    assert_eq!(
        run("(sub -9223372036854775808)", &mut env).unwrap_err(),
        RispError::NotANumber
    );
    assert_eq!(run("99999999999999999999", &mut env).unwrap_err(), RispError::NotANumber);
    assert_eq!(run("0.1234567891", &mut env).unwrap_err(), RispError::NotANumber);
}

#[test]
fn unary_sub_needs_a_whole_number() {
    let mut env = fresh();
    assert_eq!(run("(sub 1.5)", &mut env).unwrap_err(), RispError::NotANumber);
    assert_eq!(run("(- 5)", &mut env).unwrap(), val_num(-5));
}

#[test]
fn arithmetic_on_a_boolean_is_not_a_number() {
    let mut env = fresh();
    assert_eq!(run("(+ 1 true)", &mut env).unwrap_err(), RispError::NotANumber);
}

#[test]
fn unordered_values_are_an_argument_mismatch() {
    let mut env = fresh();
    assert_eq!(run("(< 1 true)", &mut env).unwrap_err(), RispError::ArgumentMismatch);
    assert_eq!(run("(min 1 00:00:01)", &mut env).unwrap_err(), RispError::ArgumentMismatch);
}

#[test]
fn comparison_stops_at_first_failing_pair() {
    let mut env = fresh();
    assert_eq!(run("(< 2 1 true)", &mut env).unwrap(), val_bool(false));
    assert_eq!(run("(min 5 2 8)", &mut env).unwrap(), val_num(2));
    assert_eq!(run("(max 5 2 8)", &mut env).unwrap(), val_num(8));
}

#[test]
fn ne_needs_whole_numbers() {
    let mut env = fresh();
    assert_eq!(run("(ne 1 2.5)", &mut env).unwrap_err(), RispError::NotANumber);
    assert_eq!(run("(ne 1 1 2.5)", &mut env).unwrap(), val_bool(false));
}

#[test]
fn if_skips_the_branch_not_taken() {
    let mut env = fresh();
    env.put("a".to_string(), val_num(1));
    env.put("b".to_string(), val_num(2));
    assert_eq!(run("(if (> a b) (undefined_fn 1) 7)", &mut env).unwrap(), val_num(7));
    assert_eq!(run("(if (< a b) 8 (/ 1 0))", &mut env).unwrap(), val_num(8));
}

#[test]
fn if_needs_a_boolean_condition() {
    let mut env = fresh();
    assert_eq!(
        run("(if 1 2 3)", &mut env).unwrap_err(),
        RispError::WrongType("bool".to_string(), "num".to_string())
    );
    assert_eq!(run("(if true 2)", &mut env).unwrap_err(), RispError::NumArguments(3, 2));
}

#[test]
fn and_or_not_check_arity() {
    let mut env = fresh();
    assert_eq!(run("(and 1)", &mut env).unwrap_err(), RispError::NumArguments(2, 1));
    assert_eq!(run("(or 1)", &mut env).unwrap_err(), RispError::NumArguments(2, 1));
    assert_eq!(run("(not 1 2)", &mut env).unwrap_err(), RispError::NumArguments(1, 2));
    assert_eq!(run("(now 1)", &mut env).unwrap_err(), RispError::NumArguments(0, 1));
    assert_eq!(run("(+)", &mut env).unwrap_err(), RispError::NumArguments(1, 0));
}

#[test]
fn or_of_all_false_is_false_without_the_last() {
    let mut env = fresh();
    assert_eq!(run("(or false nil (undefined_fn))", &mut env).unwrap(), val_bool(false));
}

#[test]
fn and_stops_at_first_false() {
    let mut env = fresh();
    assert_eq!(run("(and 1 false (undefined_fn))", &mut env).unwrap(), val_bool(false));
}

#[test]
fn unknown_symbol_is_reported() {
    let mut env = fresh();
    assert_eq!(
        run("undefined_name", &mut env).unwrap_err(),
        RispError::UnknownFunction("undefined_name".to_string())
    );
}

#[test]
fn calling_a_non_function_is_a_wrong_type() {
    let mut env = fresh();
    assert_eq!(
        run("(1 2)", &mut env).unwrap_err(),
        RispError::WrongType("function".to_string(), "num".to_string())
    );
}

#[test]
fn single_form_list_collapses() {
    let mut env = fresh();
    assert_eq!(run("(42)", &mut env).unwrap(), val_num(42));
    assert_eq!(run("((((7))))", &mut env).unwrap(), val_num(7));
}

#[test]
fn empty_list_and_empty_program_evaluate_to_themselves() {
    let mut env = fresh();
    assert_eq!(run("()", &mut env).unwrap(), val_list());
    assert_eq!(run("", &mut env).unwrap(), val_risp());
}

#[test]
fn program_gives_its_last_form() {
    let mut env = fresh();
    assert_eq!(run("1 2 (+ 1 2)", &mut env).unwrap(), val_num(3));
    assert_eq!(
        run("(undefined_fn) 2", &mut env).unwrap_err(),
        RispError::UnknownFunction("undefined_fn".to_string())
    );
}

#[test]
fn malformed_text_is_a_parse_error() {
    assert!(matches!(parse("/|garbage|/"), Err(RispError::ParseError(_))));
    assert!(matches!(parse("1a"), Err(RispError::ParseError(_))));
    assert!(matches!(parse("(+ 1 2"), Err(RispError::ParseError(_))));
    assert!(matches!(parse("1)"), Err(RispError::ParseError(_))));
    assert!(matches!(parse("1.2.3"), Err(RispError::ParseError(_))));
    assert!(matches!(RispParser::parse("a_b1 (x)"), Ok(_)));
}

#[test]
fn dates_compare_with_date_times_at_midnight() {
    let mut env = fresh();
    let day = CalDate::from_ymd(2020, 3, 12).unwrap();
    env.put("d".to_string(), val_date(day));
    env.put(
        "m".to_string(),
        val_datetime(CalDateTime::new(day, ClockTime::from_hms(0, 0, 0).unwrap())),
    );
    env.put(
        "t".to_string(),
        val_datetime(CalDateTime::new(day, ClockTime::from_hms(0, 0, 1).unwrap())),
    );
    assert_eq!(run("(== d m)", &mut env).unwrap(), val_bool(true));
    assert_eq!(run("(< d t)", &mut env).unwrap(), val_bool(true));
    assert_eq!(run("(> 00:00:02 t)", &mut env).unwrap(), val_bool(true));
}

#[test]
fn calendar_dates_are_validated() {
    assert!(CalDate::from_ymd(2020, 2, 29).is_some());
    assert!(CalDate::from_ymd(2021, 2, 29).is_none());
    assert!(CalDate::from_ymd(1900, 2, 29).is_none());
    assert!(CalDate::from_ymd(2000, 2, 29).is_some());
    assert!(CalDate::from_ymd(2021, 4, 31).is_none());
    assert!(ClockTime::from_hms(24, 0, 0).is_none());
}

#[test]
fn clock_is_reported_as_given() {
    let env = fresh();
    let program = parse("(now)").unwrap();
    assert_eq!(eval_at(&env, &program, noon()).unwrap(), val_datetime(noon()));
}

#[test]
fn environment_put_replaces_and_get_fails_for_unknown() {
    let mut env = fresh();
    env.put("x".to_string(), val_num(1));
    env.put("x".to_string(), val_num(2));
    assert_eq!(env.get("x").unwrap(), val_num(2));
    assert_eq!(env.get("y").unwrap_err(), RispError::UnknownFunction("y".to_string()));
    assert_eq!(env.get("nil").unwrap(), val_bool(false));
}

#[test]
fn environment_keeps_given_bindings_but_builtins_win() {
    let data = vec![("x".to_string(), val_num(5)), ("add".to_string(), val_num(0))];
    let mut env = Env::new(Some(data));
    assert_eq!(run("(add x 1)", &mut env).unwrap(), val_num(6));
}

#[test]
fn builtins_take_argument_lists() {
    let mut env = fresh();
    let mut args = val_list();
    val_add(&mut args, &val_num(2)).unwrap();
    val_add(&mut args, &val_num(3)).unwrap();
    assert_eq!(builtin_add(&mut env, &mut args).unwrap(), val_num(5));
    assert_eq!(builtin_sub(&mut env, &mut args).unwrap(), val_num(-1));
    assert_eq!(builtin_ne(&mut env, &mut args).unwrap(), val_bool(true));
    let mut raw = val_list();
    val_add(&mut raw, &val_sym("true")).unwrap();
    assert_eq!(builtin_not(&mut env, &mut raw).unwrap(), val_bool(false));
}

#[test]
fn children_can_be_added_and_removed() {
    let mut v = val_list();
    val_add(&mut v, &val_num(1)).unwrap();
    val_add(&mut v, &val_num(2)).unwrap();
    assert_eq!(v.len().unwrap(), 2);
    assert_eq!(val_pop(&mut v, 0).unwrap(), val_num(1));
    assert_eq!(v.len().unwrap(), 1);
    let mut n = val_num(3);
    assert_eq!(val_add(&mut n, &val_num(1)).unwrap_err(), RispError::NoChildren);
    assert_eq!(val_pop(&mut n, 0).unwrap_err(), RispError::NoChildren);
    assert_eq!(n.len().unwrap_err(), RispError::NoChildren);
    assert_eq!(n.as_num().unwrap(), 3);
    assert_eq!(
        n.as_bool().unwrap_err(),
        RispError::WrongType("bool".to_string(), "num".to_string())
    );
}

#[test]
fn decimal_arithmetic_is_exact() {
    let a = Decimal::from_units(1_200_000_000);
    let b = Decimal::from_units(2_300_000_000);
    assert_eq!(a.checked_add(b).unwrap().units, 3_500_000_000);
    assert_eq!(a.checked_mul(b).unwrap().units, 2_760_000_000);
    assert_eq!(Decimal::from_whole(3).unwrap().units, 3_000_000_000);
    assert!(Decimal::from_whole(i64::MAX).is_none());
    assert!(a.checked_div(Decimal::from_units(0)).is_none());
}

#[test]
fn rendered_literals_read_back() {
    let mut env = fresh();
    for n in [0i64, 7, -7, 1234567890, i64::MAX, i64::MIN] {
        assert_eq!(run(&render_num(n), &mut env).unwrap(), val_num(n));
    }
    for u in [0i64, 1, -1, 3_141_500_000, -250_000_000, i64::MAX, i64::MIN] {
        assert_eq!(run(&render_decimal(Decimal::from_units(u)), &mut env).unwrap(), float(u));
    }
    for b in [true, false] {
        assert_eq!(run(&render_bool(b), &mut env).unwrap(), val_bool(b));
    }
}

#[test]
fn rendering_gives_canonical_text() {
    assert_eq!(render_num(-42), "-42");
    assert_eq!(render_decimal(Decimal::from_units(-3_141_500_000)), "-3.141500000");
    assert_eq!(render_decimal(Decimal::from_units(5)), "0.000000005");
    assert_eq!(render_bool(false), "false");
}
