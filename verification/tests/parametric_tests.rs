use particle_sim::parametric::{
    apply_mode_hiding, first_equation_error, plan_parametric, EquationError, EquationRequest,
    IndexRange, PlanError,
};

fn req(n: usize, hidden: bool, failed: bool) -> EquationRequest {
    EquationRequest { num_particles: n, hidden, failed }
}

#[test]
fn too_many_particles_changes_nothing() {
    let mut hidden = vec![true, false, true];
    let r = plan_parametric(&vec![req(2, false, false), req(2, false, false)], true, &mut hidden);
    match r {
        Err(PlanError::TooManyParticles { requested, available }) => {
            assert_eq!((requested, available), (4, 3));
        }
        _ => panic!("expected TooManyParticles"),
    }
    assert_eq!(hidden, vec![true, false, true]);
}

#[test]
fn too_many_message() {
    let e = PlanError::TooManyParticles { requested: 1010, available: 1000 };
    assert_eq!(e.message(), "Total particles requested (1010) exceeds available (1000)");
    assert_eq!(PlanError::EquationErrors.message(), "Fix equation errors above");
}

#[test]
fn consecutive_runs_and_hiding_in_parametric_mode() {
    let mut hidden = vec![true; 10];
    let r = plan_parametric(&vec![req(3, false, false), req(2, true, false), req(1, false, false)], true, &mut hidden)
        .ok()
        .expect("plans");
    assert_eq!(
        r,
        vec![
            IndexRange { start: 0, count: 3 },
            IndexRange { start: 3, count: 2 },
            IndexRange { start: 5, count: 1 }
        ]
    );
    assert_eq!(hidden, vec![false, false, false, true, true, false, true, true, true, true]);
}

#[test]
fn simulation_mode_keeps_user_hiding() {
    let mut hidden = vec![true, false, false, true];
    let r = plan_parametric(&vec![req(1, false, false), req(2, true, false)], false, &mut hidden);
    assert_eq!(r.ok().unwrap(), vec![IndexRange { start: 0, count: 1 }, IndexRange { start: 1, count: 2 }]);
    assert_eq!(hidden, vec![true, true, true, true]);
}

#[test]
fn failed_equation_takes_no_particles() {
    let mut hidden = vec![false; 6];
    let r = plan_parametric(&vec![req(2, false, true), req(2, true, false)], true, &mut hidden);
    assert!(matches!(r, Err(PlanError::EquationErrors)));
    // the failing equation is skipped, so the hidden one starts at 0
    assert_eq!(hidden, vec![true, true, false, false, false, false]);
}

#[test]
fn first_error_order() {
    let e = first_equation_error(None, Some("bad y".to_string()), Some("bad z".to_string()), true, true);
    assert_eq!(e.unwrap().message(), "y: bad y");
    let e = first_equation_error(Some("bad x".to_string()), None, None, false, false);
    assert_eq!(e.unwrap().message(), "x: bad x");
    let e = first_equation_error(None, None, Some("oops".to_string()), true, false);
    assert_eq!(e.unwrap().message(), "z: oops");
    let e = first_equation_error(None, None, None, true, true);
    assert_eq!(e.unwrap().message(), "Spread must be a non-negative number");
    let e = first_equation_error(None, None, None, false, true);
    assert!(matches!(e, Some(EquationError::Domain)));
    assert_eq!(EquationError::Domain.message(), "Domain must be finite and satisfy max > min");
    assert!(first_equation_error(None, None, None, false, false).is_none());
}

#[test]
fn mode_switch_hiding() {
    let mut hidden = vec![true, false, true, false, false];
    apply_mode_hiding(&mut hidden, &vec![1, 2], true);
    assert_eq!(hidden, vec![false, false, false, true, true]);
    apply_mode_hiding(&mut hidden, &vec![1, 2], false);
    assert_eq!(hidden, vec![false; 5]);
}

#[test]
fn range_indices() {
    assert_eq!(IndexRange { start: 4, count: 3 }.indices(), vec![4, 5, 6]);
    assert!(IndexRange { start: 9, count: 0 }.indices().is_empty());
}

use particle_sim::parametric::{apply_equation_checks, EquationCheck, ParametricEquationEditor};

fn clean() -> EquationCheck {
    EquationCheck {
        x_error: None,
        y_error: None,
        z_error: None,
        spread_invalid: false,
        lower_invalid: false,
        upper_invalid: false,
        bounds_out_of_order: false,
    }
}

#[test]
fn editor_defaults() {
    let d = ParametricEquationEditor::default();
    assert_eq!((d.x_expr.as_str(), d.y_expr.as_str(), d.z_expr.as_str()), ("0", "0", "0"));
    assert_eq!(d.spread_expr, "0.01");
    assert!(d.use_domain && d.running && !d.hidden);
    assert_eq!((d.domain_lower_expr.as_str(), d.domain_upper_expr.as_str()), ("0.0", "10.0"));
    assert_eq!(d.num_particles, 10);
    let e = ParametricEquationEditor::example();
    assert_eq!((e.x_expr.as_str(), e.y_expr.as_str(), e.z_expr.as_str()), ("3sin(t)", "2sin(2t)", "sin(3t)"));
    assert!(!e.use_domain);
    assert_eq!(e.num_particles, 1000);
    assert!(e.error.is_none());
}

#[test]
fn checks_are_recorded_and_particles_planned() {
    let mut eqs = vec![ParametricEquationEditor::default(), ParametricEquationEditor::default()];
    eqs[1].hidden = true;
    let mut hidden = vec![false; 25];
    let r = apply_equation_checks(&mut eqs, &vec![clean(), clean()], true, &mut hidden);
    assert_eq!(r.ok().unwrap(), vec![IndexRange { start: 0, count: 10 }, IndexRange { start: 10, count: 10 }]);
    assert!(eqs.iter().all(|e| e.error.is_none()));
    let expected: Vec<bool> = (0..25).map(|i| i >= 10).collect();
    assert_eq!(hidden, expected);
}

#[test]
fn failed_checks_mark_the_editor() {
    let mut eqs = vec![ParametricEquationEditor::default(), ParametricEquationEditor::default()];
    let mut bad = clean();
    bad.y_error = Some("Parse error".to_string());
    bad.bounds_out_of_order = true;
    let mut hidden = vec![false; 25];
    let r = apply_equation_checks(&mut eqs, &vec![clean(), bad], true, &mut hidden);
    assert!(matches!(r, Err(PlanError::EquationErrors)));
    assert!(eqs[1].y_expr_error && !eqs[1].x_expr_error);
    assert_eq!(eqs[1].error.as_deref(), Some("y: Parse error"));
    assert!(eqs[0].error.is_none());
    // with errors, unclaimed particles are not hidden
    assert_eq!(hidden, vec![false; 25]);
}

#[test]
fn domain_checks_only_count_when_the_domain_is_used() {
    let mut eqs = vec![ParametricEquationEditor::example()];
    let mut c = clean();
    c.lower_invalid = true;
    let mut hidden = vec![false; 1000];
    let r = apply_equation_checks(&mut eqs, &vec![c], false, &mut hidden);
    assert!(r.is_ok());
    assert!(!eqs[0].domain_lower_expr_error);
    let mut eqs = vec![ParametricEquationEditor::default()];
    let mut c = clean();
    c.lower_invalid = true;
    let r = apply_equation_checks(&mut eqs, &vec![c], false, &mut vec![false; 10]);
    assert!(r.is_err());
    assert!(eqs[0].domain_lower_expr_error);
    assert_eq!(eqs[0].error.as_deref(), Some("Domain must be finite and satisfy max > min"));
}

#[test]
fn too_many_leaves_editor_alone() {
    let mut eqs = vec![ParametricEquationEditor::example()];
    let mut bad = clean();
    bad.x_error = Some("boom".to_string());
    let mut hidden = vec![true; 5];
    let r = apply_equation_checks(&mut eqs, &vec![bad], true, &mut hidden);
    match r {
        Err(e) => assert_eq!(e.message(), "Total particles requested (1000) exceeds available (5)"),
        Ok(_) => panic!("expected an error"),
    }
    assert!(eqs[0].error.is_none() && !eqs[0].x_expr_error);
    assert_eq!(hidden, vec![true; 5]);
}
