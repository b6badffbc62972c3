use reactive_core::value::decimal_text;
use reactive_core::{Expr, Kind, Value};

fn num(n: i32) -> Box<Expr> {
    Box::new(Expr::Lit(Value::Int(n)))
}

fn text(s: &str) -> Box<Expr> {
    Box::new(Expr::Lit(Value::Text(s.to_string())))
}

fn eval(e: &Expr, cells: &Vec<Value>) -> (Value, Vec<usize>) {
    assert!(e.check(cells, None).is_some());
    let mut reads = Vec::new();
    let v = e.eval(cells, None, &mut reads);
    (v, reads)
}

#[test]
fn decimal_of_small_numbers() {
    assert_eq!(decimal_text(0), "0");
    assert_eq!(decimal_text(7), "7");
    assert_eq!(decimal_text(10), "10");
    assert_eq!(decimal_text(100), "100");
    assert_eq!(decimal_text(-1), "-1");
    assert_eq!(decimal_text(-120), "-120");
}

#[test]
fn decimal_at_the_bounds() {
    assert_eq!(decimal_text(i32::MAX), "2147483647");
    assert_eq!(decimal_text(i32::MIN), "-2147483648");
}

#[test]
fn decimal_agrees_with_the_standard_form() {
    let samples = [0, 1, 9, 10, 11, 99, 101, 1000, 65535, -5, -10, -99999, 123456789];
    for n in samples {
        assert_eq!(decimal_text(n), n.to_string());
    }
}

#[test]
fn string_form_of_each_kind() {
    assert_eq!(Value::Int(42).text(), "42");
    assert_eq!(Value::Bool(true).text(), "true");
    assert_eq!(Value::Bool(false).text(), "false");
    assert_eq!(Value::Text("a<b".to_string()).text(), "a<b");
}

#[test]
fn kinds_and_equality() {
    assert_eq!(Value::Int(1).kind(), Kind::Int);
    assert_eq!(Value::Bool(true).kind(), Kind::Bool);
    assert_eq!(Value::Text(String::new()).kind(), Kind::Text);
    assert!(Value::Int(3).same(&Value::Int(3)));
    assert!(!Value::Int(3).same(&Value::Int(4)));
    assert!(!Value::Int(1).same(&Value::Bool(true)));
    assert!(Value::Text("x".to_string()).same(&Value::Text("x".to_string())));
    assert!(!Value::Text("x".to_string()).same(&Value::Text("y".to_string())));
    assert_eq!(Value::Text("x".to_string()).duplicate(), Value::Text("x".to_string()));
}

#[test]
fn sums_and_products_wrap() {
    let cells = vec![Value::Int(i32::MAX)];
    let sum = Expr::Add(Box::new(Expr::Read(0)), num(1));
    assert_eq!(eval(&sum, &cells), (Value::Int(i32::MIN), vec![0]));
    let product = Expr::Mul(Box::new(Expr::Read(0)), num(2));
    assert_eq!(eval(&product, &cells).0, Value::Int(-2));
    let plain = Expr::Add(num(2), num(3));
    assert_eq!(eval(&plain, &cells), (Value::Int(5), vec![]));
}

#[test]
fn remainder_takes_the_sign_of_the_dividend() {
    let cells: Vec<Value> = Vec::new();
    let cases = [(7, 2, 1), (-7, 2, -1), (7, -2, 1), (-7, -2, -1), (6, 3, 0), (i32::MIN, -1, 0), (i32::MIN, 2, 0), (i32::MAX, i32::MIN, i32::MAX)];
    for (a, d, want) in cases {
        let e = Expr::Rem(num(a), d);
        assert_eq!(eval(&e, &cells).0, Value::Int(want));
        assert_eq!(want, a.wrapping_rem(d));
    }
}

#[test]
fn remainder_by_zero_is_not_well_typed() {
    let cells: Vec<Value> = Vec::new();
    assert_eq!(Expr::Rem(num(7), 0).check(&cells, None), None);
}

#[test]
fn a_conditional_reads_only_the_chosen_branch() {
    let cells = vec![Value::Bool(true), Value::Int(1), Value::Int(2)];
    let e = Expr::If(
        Box::new(Expr::Read(0)),
        Box::new(Expr::Read(1)),
        Box::new(Expr::Read(2)),
    );
    assert_eq!(eval(&e, &cells), (Value::Int(1), vec![0, 1]));
    let cells = vec![Value::Bool(false), Value::Int(1), Value::Int(2)];
    assert_eq!(eval(&e, &cells), (Value::Int(2), vec![0, 2]));
}

#[test]
fn texts_join_and_values_show() {
    let cells = vec![Value::Int(-3)];
    let e = Expr::Join(Box::new(Expr::Show(Box::new(Expr::Read(0)))), text("px"));
    assert_eq!(eval(&e, &cells), (Value::Text("-3px".to_string()), vec![0]));
    let shown = Expr::Show(Box::new(Expr::Lit(Value::Bool(true))));
    assert_eq!(eval(&shown, &cells).0, Value::Text("true".to_string()));
}

#[test]
fn equality_compares_values_of_one_kind() {
    let cells = vec![Value::Text("a".to_string())];
    let same = Expr::Equals(Box::new(Expr::Read(0)), text("a"));
    assert_eq!(eval(&same, &cells).0, Value::Bool(true));
    let other = Expr::Equals(Box::new(Expr::Read(0)), text("b"));
    assert_eq!(eval(&other, &cells).0, Value::Bool(false));
    let mixed = Expr::Equals(Box::new(Expr::Read(0)), num(1));
    assert_eq!(mixed.check(&cells, None), None);
}

#[test]
fn kinds_are_checked() {
    let cells = vec![Value::Int(1), Value::Bool(true), Value::Text("t".to_string())];
    assert_eq!(Expr::Read(0).check(&cells, None), Some(Kind::Int));
    assert_eq!(Expr::Read(1).check(&cells, None), Some(Kind::Bool));
    assert_eq!(Expr::Read(2).check(&cells, None), Some(Kind::Text));
    assert_eq!(Expr::Read(3).check(&cells, None), None);
    assert_eq!(Expr::Arg.check(&cells, None), None);
    assert_eq!(Expr::Arg.check(&cells, Some(Kind::Text)), Some(Kind::Text));
    assert_eq!(Expr::Add(Box::new(Expr::Read(0)), Box::new(Expr::Read(1))).check(&cells, None), None);
    assert_eq!(Expr::Mul(Box::new(Expr::Read(0)), Box::new(Expr::Read(0))).check(&cells, None), Some(Kind::Int));
    assert_eq!(Expr::Join(Box::new(Expr::Read(2)), Box::new(Expr::Read(0))).check(&cells, None), None);
    assert_eq!(Expr::Show(Box::new(Expr::Read(1))).check(&cells, None), Some(Kind::Text));
    let branches = Expr::If(Box::new(Expr::Read(1)), Box::new(Expr::Read(0)), Box::new(Expr::Read(2)));
    assert_eq!(branches.check(&cells, None), None);
    let condition = Expr::If(Box::new(Expr::Read(0)), Box::new(Expr::Read(0)), Box::new(Expr::Read(0)));
    assert_eq!(condition.check(&cells, None), None);
}

#[test]
fn the_argument_is_the_value_handed_in() {
    let cells = vec![Value::Int(5)];
    let f = Expr::Add(Box::new(Expr::Arg), Box::new(Expr::Read(0)));
    assert_eq!(f.check(&cells, Some(Kind::Int)), Some(Kind::Int));
    let mut reads = Vec::new();
    let v = f.eval(&cells, Some(&Value::Int(37)), &mut reads);
    assert_eq!(v, Value::Int(42));
    assert_eq!(reads, vec![0]);
}

#[test]
fn a_copy_of_a_computation_is_equal_to_it() {
    let e = Expr::If(
        Box::new(Expr::Equals(Box::new(Expr::Rem(Box::new(Expr::Read(0)), 2)), num(1))),
        Box::new(Expr::Join(text("a"), Box::new(Expr::Show(Box::new(Expr::Arg))))),
        text("b"),
    );
    assert_eq!(e.duplicate(), e);
}
