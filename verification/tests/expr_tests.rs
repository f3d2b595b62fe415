use particle_sim::expr::parse_parametric_expr;

#[test]
fn parses_implicit_products() {
    let e = parse_parametric_expr("2(3)").expect("parses");
    assert_eq!(e.eval().unwrap(), 6.0);
    let e = parse_parametric_expr("3 sin(0)+4").expect("parses");
    assert_eq!(e.eval().unwrap(), 4.0);
}

#[test]
fn parametric_expression_binds_variables() {
    let e = parse_parametric_expr("2t + i").expect("parses");
    let f = e.bind5("t", "i", "x", "y", "z").expect("binds");
    assert_eq!(f(1.5, 2.0, 0.0, 0.0, 0.0), 5.0);
}

#[test]
fn reports_the_parser_message() {
    let err = parse_parametric_expr("3+*").err().expect("fails");
    let direct = "3+*".parse::<meval::Expr>().err().expect("fails").to_string();
    assert_eq!(err, direct);
    assert!(parse_parametric_expr("(1").is_err());
}
