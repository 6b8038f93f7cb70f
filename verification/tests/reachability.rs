use flow_facts::stmt::{ends_with_ret, is_switch_case_body_unconditional_termination, Stmt};

/// A lone `return` terminates unconditionally.
#[test]
fn return_terminates() {
    let body = vec![Stmt::Return];
    assert!(is_switch_case_body_unconditional_termination(&body));
}

/// `throw` and `continue` terminate; `break` transfers out instead.
#[test]
fn break_is_not_a_terminator() {
    assert!(is_switch_case_body_unconditional_termination(&vec![Stmt::Throw]));
    assert!(is_switch_case_body_unconditional_termination(&vec![Stmt::Continue]));
    assert!(!is_switch_case_body_unconditional_termination(&vec![Stmt::Break]));
}

/// Ordinary statements fall through to what follows.
#[test]
fn falls_through_other_statements() {
    let body = vec![Stmt::Other, Stmt::Other, Stmt::Return];
    assert!(is_switch_case_body_unconditional_termination(&body));
    let open = vec![Stmt::Other, Stmt::Other];
    assert!(!is_switch_case_body_unconditional_termination(&open));
}

/// An `if`/`else` terminates only when both arms do.
#[test]
fn if_needs_both_arms() {
    let both = vec![Stmt::If {
        cons: Box::new(Stmt::Return),
        alt: Some(Box::new(Stmt::Throw)),
    }];
    assert!(is_switch_case_body_unconditional_termination(&both));

    let one = vec![Stmt::If {
        cons: Box::new(Stmt::Return),
        alt: Some(Box::new(Stmt::Other)),
    }];
    assert!(!is_switch_case_body_unconditional_termination(&one));

    // Without an `else` the false test falls through...
    let no_alt = vec![Stmt::If { cons: Box::new(Stmt::Return), alt: None }];
    assert!(!is_switch_case_body_unconditional_termination(&no_alt));

    // ...but a later return still closes every path.
    let no_alt_then_ret = vec![
        Stmt::If { cons: Box::new(Stmt::Return), alt: None },
        Stmt::Return,
    ];
    assert!(is_switch_case_body_unconditional_termination(&no_alt_then_ret));
}

/// A `break` inside an arm escapes the whole construct.
#[test]
fn break_in_arm_falls_out() {
    let body = vec![
        Stmt::If { cons: Box::new(Stmt::Break), alt: Some(Box::new(Stmt::Return)) },
        Stmt::Return,
    ];
    assert!(!is_switch_case_body_unconditional_termination(&body));
}

/// The tail judgment that drives fact hoisting looks at the final statement.
#[test]
fn ends_with_ret_tail() {
    assert!(ends_with_ret(&vec![Stmt::Other, Stmt::Return]));
    assert!(!ends_with_ret(&vec![Stmt::Return, Stmt::Other]));
    assert!(!ends_with_ret(&vec![]));
    assert!(!ends_with_ret(&vec![Stmt::Break]));
    assert!(ends_with_ret(&vec![Stmt::If {
        cons: Box::new(Stmt::Return),
        alt: Some(Box::new(Stmt::Continue)),
    }]));
    assert!(!ends_with_ret(&vec![Stmt::If { cons: Box::new(Stmt::Return), alt: None }]));
}
