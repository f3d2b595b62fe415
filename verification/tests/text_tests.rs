use particle_sim::text::{decimal, insert_implicit_mul, is_white_space_char, trim_decimal, trim_end_str};

#[test]
fn implicit_mul_number_before_call() {
    assert_eq!(insert_implicit_mul("3sin(2t)"), "3*sin(2*t)");
}

#[test]
fn implicit_mul_example_equations() {
    assert_eq!(insert_implicit_mul("2sin(2t)"), "2*sin(2*t)");
    assert_eq!(insert_implicit_mul("sin(3t)"), "sin(3*t)");
}

#[test]
fn implicit_mul_every_rule() {
    assert_eq!(insert_implicit_mul("5t"), "5*t");
    assert_eq!(insert_implicit_mul("5(t)"), "5*(t)");
    assert_eq!(insert_implicit_mul("t5"), "t*5");
    assert_eq!(insert_implicit_mul("(t)5"), "(t)*5");
    assert_eq!(insert_implicit_mul("(t)x"), "(t)*x");
    assert_eq!(insert_implicit_mul("(t)(x)"), "(t)*(x)");
    assert_eq!(insert_implicit_mul("x2y"), "x*2*y");
}

#[test]
fn implicit_mul_leaves_plain_products_alone() {
    assert_eq!(insert_implicit_mul("t*x+y/2"), "t*x+y/2");
    assert_eq!(insert_implicit_mul("sin(t)"), "sin(t)");
    assert_eq!(insert_implicit_mul("x(t)"), "x(t)");
    assert_eq!(insert_implicit_mul("2.5"), "2.5");
}

#[test]
fn implicit_mul_drops_white_space() {
    assert_eq!(insert_implicit_mul(" 2 t "), "2*t");
    assert_eq!(insert_implicit_mul("1\t+\n2"), "1+2");
    assert_eq!(insert_implicit_mul("3\u{3000}x"), "3*x");
    assert_eq!(insert_implicit_mul(""), "");
    assert_eq!(insert_implicit_mul("   "), "");
    assert_eq!(insert_implicit_mul("7"), "7");
}

#[test]
fn white_space_agrees_with_std() {
    for u in 0u32..0x3100 {
        if let Some(c) = char::from_u32(u) {
            assert_eq!(is_white_space_char(c), c.is_whitespace(), "U+{:04X}", u);
        }
    }
}

#[test]
fn trim_decimal_examples() {
    assert_eq!(trim_decimal("2.500000"), "2.5");
    assert_eq!(trim_decimal("4.000000"), "4");
    assert_eq!(trim_decimal("0.000000"), "0");
    assert_eq!(trim_decimal("100.000000"), "100");
    assert_eq!(trim_decimal("0.125000"), "0.125");
    assert_eq!(trim_decimal(&format!("{:.6}", 0.5f32)), "0.5");
}

#[test]
fn decimal_examples() {
    assert_eq!(decimal(0), "0");
    assert_eq!(decimal(7), "7");
    assert_eq!(decimal(42), "42");
    assert_eq!(decimal(1000), "1000");
    assert_eq!(decimal(usize::MAX), usize::MAX.to_string());
}

#[test]
fn trim_end_str_examples() {
    assert_eq!(trim_end_str("a.json", ".json"), "a");
    assert_eq!(trim_end_str("a.json.json", ".json"), "a");
    assert_eq!(trim_end_str("a.jsonx", ".json"), "a.jsonx");
    assert_eq!(trim_end_str("abc", ""), "abc");
    assert_eq!(trim_end_str(".json", ".json"), "");
}

#[test]
fn implicit_mul_twice_is_once() {
    for s in ["3sin(2t)", "x2y", "(a)(b)c", " 5 ( t ) ", "1+2"] {
        let once = insert_implicit_mul(s);
        assert_eq!(insert_implicit_mul(&once), once);
    }
}
