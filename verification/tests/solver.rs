use wham::config::empty_histogram_action;
use wham::config::validate_config;
use wham::config::EmptyHistogramAction;
use wham::errors::WhamError;
use wham::solver::SolverControl;

#[test]
fn cli_no_convergence() {
    // --iterations 10 on a run that never converges
    let mut ctl = SolverControl::new(10);
    while ctl.keep_running() {
        ctl.begin_iteration();
        if ctl.is_check_iteration() {
            ctl.record_convergence(false);
        }
    }
    assert_eq!(10, ctl.iteration);
    let msg = ctl.finish().unwrap_err().message();
    assert!(msg.contains("WHAM not converged! (max iterations reached)"));
}

#[test]
fn solver_stops_at_convergence() {
    let mut ctl = SolverControl::new(100000);
    let mut checks = 0usize;
    while ctl.keep_running() {
        ctl.begin_iteration();
        if ctl.is_check_iteration() {
            checks += 1;
            // converge at the third convergence test
            ctl.record_convergence(checks == 3);
        }
    }
    // tests run every 10 iterations, so the loop stops after 30
    assert_eq!(30, ctl.iteration);
    assert!(ctl.finish().is_ok());
}

#[test]
fn solver_checks_every_tenth_iteration() {
    let mut ctl = SolverControl::new(25);
    let mut check_iterations = Vec::new();
    while ctl.keep_running() {
        ctl.begin_iteration();
        if ctl.is_check_iteration() {
            check_iterations.push(ctl.iteration);
            ctl.record_convergence(false);
        }
    }
    assert_eq!(vec![10usize, 20], check_iterations);
    assert!(ctl.finish().is_err());
}

#[test]
fn solver_converging_at_the_cap_succeeds() {
    // the convergence error is the cap reached *without* convergence: a
    // solve whose test first passes exactly at the cap has converged
    let mut ctl = SolverControl::new(10);
    while ctl.keep_running() {
        ctl.begin_iteration();
        if ctl.is_check_iteration() {
            ctl.record_convergence(ctl.iteration == 10);
        }
    }
    assert_eq!(10, ctl.iteration);
    assert!(ctl.converged);
    assert!(ctl.finish().is_ok());
}

#[test]
fn convdt_needs_start_end() {
    let r = validate_config(1, 1, 1, true, false, false);
    let msg = r.unwrap_err().message();
    assert!(msg.contains("--convdt requires --start and --end to be set"));
    assert!(validate_config(1, 1, 1, true, true, false).is_err());
    assert!(validate_config(1, 1, 1, true, false, true).is_err());
    assert!(validate_config(1, 1, 1, true, true, true).is_ok());
    assert!(validate_config(1, 1, 1, false, false, false).is_ok());
}

#[test]
fn dimension_mismatch_is_fatal() {
    let r = validate_config(2, 1, 2, false, false, false);
    assert!(matches!(r, Err(WhamError::DimensionMismatch)));
    let msg = validate_config(1, 1, 3, false, false, false).unwrap_err().message();
    assert!(msg.contains("Input dimensions do not match"));
}

#[test]
fn empty_histogram_policy() {
    // fatal only for the final dataset without --ignore-empty
    assert_eq!(EmptyHistogramAction::Fail, empty_histogram_action(true, false));
    assert_eq!(EmptyHistogramAction::Warn, empty_histogram_action(true, true));
    assert_eq!(EmptyHistogramAction::Warn, empty_histogram_action(false, false));
    assert_eq!(EmptyHistogramAction::Warn, empty_histogram_action(false, true));
}
