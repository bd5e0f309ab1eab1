use risp::decimal::Decimal;
use risp::env::Env;
use chrono::{Datelike, Duration, Local, NaiveDateTime, Timelike};
use std::ops::Add;
use risp::eval::eval;
use risp::parse::parse;
use risp::temporal::{CalDate, CalDateTime, ClockTime};
use risp::val::{val_bool, val_date, val_datetime, val_float, val_num, val_time, Val};

fn assert_eval(s: &str, env: &mut Env, v: Val) {
    let mut parsed = match parse(s) {
        Ok(p) => p,
        Err(err) => panic!("{:?}", err),
    };
    let evaled = match eval(env, &mut parsed) {
        Ok(v) => v,
        Err(err) => panic!("{:?}", err),
    };
    assert_eq!(v, evaled);
}

fn float(units: i64) -> Val {
    val_float(Decimal::from_units(units))
}

fn time(h: u32, m: u32, s: u32) -> ClockTime {
    ClockTime::from_hms(h, m, s).unwrap()
}

fn date(y: i32, m: u32, d: u32) -> CalDate {
    CalDate::from_ymd(y, m, d).unwrap()
}

fn from_chrono(dt: NaiveDateTime) -> CalDateTime {
    let d = CalDate::from_ymd(dt.year(), dt.month(), dt.day()).unwrap();
    let t = ClockTime { secs: dt.num_seconds_from_midnight(), frac: dt.nanosecond() };
    CalDateTime::new(d, t)
}

fn datetime(y: i32, mo: u32, d: u32, h: u32, mi: u32, s: u32) -> CalDateTime {
    CalDateTime::new(date(y, mo, d), time(h, mi, s))
}

#[test]
fn eval_single_number() {
    let mut env = Env::new(None);
    assert_eval("1", &mut env, val_num(1));
}

#[test]
fn eval_symbol() {
    let mut env = Env::new(None);
    env.put("a".to_string(), val_num(1));
    assert_eval("a", &mut env, val_num(1));
}

#[test]
fn add_two_numbers() {
    let mut env = Env::new(None);
    assert_eval("(add 1 1)", &mut env, val_num(2));
}

#[test]
fn add_two_numbers_alias() {
    let mut env = Env::new(None);
    assert_eval("(+ 1 1)", &mut env, val_num(2));
}

#[test]
fn add_three_numbers() {
    let mut env = Env::new(None);
    assert_eval("(add 1 1 1)", &mut env, val_num(3));
}

#[test]
fn add_numbers_and_symbols() {
    let mut env = Env::new(None);
    env.put("a".to_string(), val_num(1));
    assert_eval("(add 1 1 a)", &mut env, val_num(3));
}

#[test]
fn subtract_one_number() {
    let mut env = Env::new(None);
    assert_eval("(sub 1)", &mut env, val_num(-1));
}

#[test]
fn subtract_two_numbers() {
    let mut env = Env::new(None);
    assert_eval("(sub 1 1)", &mut env, val_num(0));
}

#[test]
fn subtract_two_numbers_alias() {
    let mut env = Env::new(None);
    assert_eval("(- 1 1)", &mut env, val_num(0));
}

#[test]
fn multiply_two_numbers() {
    let mut env = Env::new(None);
    assert_eval("(mul 2 2)", &mut env, val_num(4));
}

#[test]
fn multiply_two_numbers_alias() {
    let mut env = Env::new(None);
    assert_eval("(* 2 2)", &mut env, val_num(4));
}

#[test]
fn divide_two_numbers() {
    let mut env = Env::new(None);
    assert_eval("(div 4 2)", &mut env, val_num(2));
}

#[test]
fn divide_two_numbers_alias() {
    let mut env = Env::new(None);
    assert_eval("(/ 4 2)", &mut env, val_num(2));
}

#[test]
fn rem_two_numbers() {
    let mut env = Env::new(None);
    assert_eval("(rem 5 2)", &mut env, val_num(1));
    assert_eval("(% 5 2)", &mut env, val_num(1));
}

#[test]
fn min_two_numbers() {
    let mut env = Env::new(None);
    assert_eval("(min 5 2)", &mut env, val_num(2));
}

#[test]
fn max_two_numbers() {
    let mut env = Env::new(None);
    assert_eval("(max 5 2)", &mut env, val_num(5));
    assert_eval("(max 2 5)", &mut env, val_num(5));
}

#[test]
fn gt_multiple_numbers() {
    let mut env = Env::new(None);
    assert_eval("(gt 1 0)", &mut env, val_bool(true));
    assert_eval("(gt 0 1)", &mut env, val_bool(false));
    assert_eval("(> 1 0)", &mut env, val_bool(true));
    assert_eval("(> 0 1)", &mut env, val_bool(false));
    assert_eval("(> 3 2 1 0)", &mut env, val_bool(true));
    assert_eval("(> 3 0 1 0)", &mut env, val_bool(false));
}

#[test]
fn lt_multiple_numbers() {
    let mut env = Env::new(None);
    assert_eval("(< 0 1)", &mut env, val_bool(true));
    assert_eval("(< 0 1 2 3)", &mut env, val_bool(true));
    assert_eval("(lt 1 0)", &mut env, val_bool(false));
    assert_eval("(lt 0 1 0 3)", &mut env, val_bool(false));
}

#[test]
fn ge_multiple_numbers() {
    let mut env = Env::new(None);
    assert_eval("(ge 1 0)", &mut env, val_bool(true));
    assert_eval("(ge 1 1)", &mut env, val_bool(true));
    assert_eval("(>= 4 4 3 2 1 0)", &mut env, val_bool(true));
    assert_eval("(ge 4 4 0 2 1 0)", &mut env, val_bool(false));
}

#[test]
fn le_multiple_numbers() {
    let mut env = Env::new(None);
    assert_eval("(le 0 1)", &mut env, val_bool(true));
    assert_eval("(le 1 1)", &mut env, val_bool(true));
    assert_eval("(<= 0 0 1 2 3 4)", &mut env, val_bool(true));
    assert_eval("(le 0 0 1 0 3 4)", &mut env, val_bool(false));
}

#[test]
fn eq_multiple_numbers() {
    let mut env = Env::new(None);
    assert_eval("(eq 1 1 1)", &mut env, val_bool(true));
    assert_eval("(== 1 1 1)", &mut env, val_bool(true));
    assert_eval("(eq 0 0 1 0 3 4)", &mut env, val_bool(false));
}

#[test]
fn ne_multiple_numbers() {
    let mut env = Env::new(None);
    assert_eval("(ne 0 1 2)", &mut env, val_bool(true));
    assert_eval("(!= 0 1 2)", &mut env, val_bool(true));
    assert_eval("(ne 0 1 1 2 3)", &mut env, val_bool(false));
}

#[test]
fn if_true() {
    let mut env = Env::new(None);
    env.put("a".to_string(), val_num(1));
    env.put("b".to_string(), val_num(2));
    assert_eval("(if (< a b) (+ a b) (- a b))", &mut env, val_num(3));
}

#[test]
fn if_false() {
    let mut env = Env::new(None);
    env.put("a".to_string(), val_num(1));
    env.put("b".to_string(), val_num(2));
    assert_eval("(if (> a b) (+ a b) (- a b))", &mut env, val_num(-1));
}

#[test]
fn add_two_floats() {
    let mut env = Env::new(None);
    env.put("a".to_string(), float(1_200_000_000));
    env.put("b".to_string(), float(2_300_000_000));
    assert_eval("(+ a b)", &mut env, float(3_500_000_000));
}

#[test]
fn add_float_and_num() {
    let mut env = Env::new(None);
    env.put("a".to_string(), val_num(3));
    env.put("b".to_string(), float(141_500_000));
    assert_eval("(+ a b)", &mut env, float(3_141_500_000));
    assert_eval("(+ b a)", &mut env, float(3_141_500_000));
}

#[test]
fn compare_float_and_num() {
    let mut env = Env::new(None);
    env.put("a".to_string(), val_num(3));
    env.put("b".to_string(), float(141_500_000));
    env.put("c".to_string(), float(3_000_000_000));
    assert_eval("(< a b)", &mut env, val_bool(false));
    assert_eval("(> a b)", &mut env, val_bool(true));
    assert_eval("(>= a c)", &mut env, val_bool(true));
    assert_eval("(<= a c)", &mut env, val_bool(true));
    assert_eval("(== a c)", &mut env, val_bool(true));
    assert_eval("(min a b)", &mut env, float(141_500_000));
    assert_eval("(max a b)", &mut env, val_num(3));
}

#[test]
fn compare_two_times() {
    let mut env = Env::new(None);
    env.put("t1".to_string(), val_time(time(9, 0, 0)));
    env.put("t2".to_string(), val_time(time(10, 0, 0)));
    assert_eval("(> t1 t2)", &mut env, val_bool(false));
    assert_eval("(< t1 t2)", &mut env, val_bool(true));
    assert_eval("(>= t1 t2)", &mut env, val_bool(false));
    assert_eval("(<= t1 t2)", &mut env, val_bool(true));
    assert_eval("(min t1 t2)", &mut env, val_time(time(9, 0, 0)));
    assert_eval("(max t1 t2)", &mut env, val_time(time(10, 0, 0)));
}

#[test]
fn compare_two_dates() {
    let mut env = Env::new(None);
    env.put("t1".to_string(), val_date(date(2020, 3, 12)));
    env.put("t2".to_string(), val_date(date(2020, 3, 13)));
    assert_eval("(> t1 t2)", &mut env, val_bool(false));
    assert_eval("(< t1 t2)", &mut env, val_bool(true));
    assert_eval("(>= t1 t2)", &mut env, val_bool(false));
    assert_eval("(<= t1 t2)", &mut env, val_bool(true));
    assert_eval("(min t1 t2)", &mut env, val_date(date(2020, 3, 12)));
    assert_eval("(max t1 t2)", &mut env, val_date(date(2020, 3, 13)));
}

#[test]
fn compare_two_datetimes() {
    let mut env = Env::new(None);
    env.put("t1".to_string(), val_datetime(datetime(2020, 3, 12, 0, 0, 1)));
    env.put("t2".to_string(), val_datetime(datetime(2020, 3, 12, 0, 0, 2)));
    assert_eval("(> t1 t2)", &mut env, val_bool(false));
    assert_eval("(< t1 t2)", &mut env, val_bool(true));
    assert_eval("(>= t1 t2)", &mut env, val_bool(false));
    assert_eval("(<= t1 t2)", &mut env, val_bool(true));
    assert_eval("(min t1 t2)", &mut env, val_datetime(datetime(2020, 3, 12, 0, 0, 1)));
    assert_eval("(max t1 t2)", &mut env, val_datetime(datetime(2020, 3, 12, 0, 0, 2)));
}

#[test]
fn compare_date_and_datetime() {
    let mut env = Env::new(None);
    env.put("t1".to_string(),  val_datetime(datetime(2020, 3, 12, 0, 0, 1)));
    env.put("t2".to_string(), val_time(time(10, 0, 0)));
    assert_eval("(> t1 t2)", &mut env, val_bool(false));
    assert_eval("(> t2 t1)", &mut env, val_bool(true));
}

#[test]
fn can_get_current_datetime_and_compare() {
    let now = Local::now().naive_local();
    let t1 = now.add(Duration::seconds(-1));
    let t2 = now.add(Duration::seconds(1));
    let mut env = Env::new(None);
    env.put("t1".to_string(), val_datetime(from_chrono(t1)));
    env.put("t2".to_string(), val_datetime(from_chrono(t2)));
    assert_eval("(> (now) t1)", &mut env, val_bool(true));
    assert_eval("(> (now) t2)", &mut env, val_bool(false));
}

#[test]
fn and_operator() {
    let mut env = Env::new(None);
    assert_eval("(and (> 1 0) (< 0 1) (== 1 1) (42))", &mut env, val_num(42));
    assert_eval("(and (12) (13) (14) (15))", &mut env, val_num(15));
    assert_eval("(and (1) (0) (nil) (true))", &mut env, val_bool(false));
    assert_eval("(and (1) (0) (false) (true))", &mut env, val_bool(false));
}

#[test]
fn or_operator() {
    let mut env = Env::new(None);
    assert_eval("(or (> 1 0) (< 0 1) (== 1 1) (42))", &mut env, val_num(42));
    assert_eval("(or (nil) (nil) (1) (42))", &mut env, val_num(42));
}

#[test]
fn not_operator() {
    let mut env = Env::new(None);
    assert_eval("(not nil)", &mut env, val_bool(true));
    assert_eval("(not 1)", &mut env, val_bool(false));
    assert_eval("(not (> 1 0))", &mut env, val_bool(false));
    assert_eval("(not (< 1 0))", &mut env, val_bool(true));
}

