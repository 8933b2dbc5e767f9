use mandelbrot::escape::{escape_start, escape_step, EscapeStep, EscapeTime};
use num::Complex;

fn escape_time(c: Complex<f64>, limit: u32) -> EscapeTime {
    let mut z = Complex { re: 0.0, im: 0.0 };
    let mut step = escape_start(limit);
    loop {
        match step {
            EscapeStep::Stop(outcome) => return outcome,
            EscapeStep::Continue(i) => {
                z = z * z + c;
                step = escape_step(i, limit, z.norm_sqr() > 4.0);
            }
        }
    }
}

fn run_tests(outside: &[bool], limit: u32) -> EscapeTime {
    let mut step = escape_start(limit);
    loop {
        match step {
            EscapeStep::Stop(outcome) => return outcome,
            EscapeStep::Continue(i) => step = escape_step(i, limit, outside[i as usize]),
        }
    }
}

#[test]
fn start_with_zero_limit_is_bounded() {
    assert_eq!(escape_start(0), EscapeStep::Stop(EscapeTime::Bounded));
}

#[test]
fn start_with_positive_limit_continues_at_zero() {
    assert_eq!(escape_start(255), EscapeStep::Continue(0));
    assert_eq!(escape_start(1), EscapeStep::Continue(0));
}

#[test]
fn step_outside_escapes_at_current_iteration() {
    assert_eq!(escape_step(7, 255, true), EscapeStep::Stop(EscapeTime::Escaped(7)));
    assert_eq!(escape_step(0, 1, true), EscapeStep::Stop(EscapeTime::Escaped(0)));
    assert_eq!(escape_step(254, 255, true), EscapeStep::Stop(EscapeTime::Escaped(254)));
}

#[test]
fn step_inside_continues_with_next_iteration() {
    assert_eq!(escape_step(7, 255, false), EscapeStep::Continue(8));
}

#[test]
fn step_inside_at_last_iteration_is_bounded() {
    assert_eq!(escape_step(254, 255, false), EscapeStep::Stop(EscapeTime::Bounded));
    assert_eq!(escape_step(0, 1, false), EscapeStep::Stop(EscapeTime::Bounded));
}

#[test]
fn loop_reports_first_escape_below_limit() {
    let outside = [false, false, true, true, false];
    assert_eq!(run_tests(&outside, 5), EscapeTime::Escaped(2));
    assert_eq!(run_tests(&outside, 3), EscapeTime::Escaped(2));
    assert_eq!(run_tests(&outside, 2), EscapeTime::Bounded);
}

#[test]
fn far_point_escapes_at_iteration_zero() {
    for limit in [1u32, 2, 10, 255] {
        assert_eq!(escape_time(Complex { re: 3.0, im: 0.0 }, limit), EscapeTime::Escaped(0));
        assert_eq!(escape_time(Complex { re: 0.0, im: 2.5 }, limit), EscapeTime::Escaped(0));
        assert_eq!(escape_time(Complex { re: -1.5, im: -1.5 }, limit), EscapeTime::Escaped(0));
    }
}

#[test]
fn origin_is_bounded() {
    for limit in [0u32, 1, 2, 10, 255, 1000] {
        assert_eq!(escape_time(Complex { re: 0.0, im: 0.0 }, limit), EscapeTime::Bounded);
    }
}

#[test]
fn escape_after_some_iterations() {
    // 1 + 0i: z runs 1, 2, 5, so the test at iteration 2 is the first above 4.
    assert_eq!(escape_time(Complex { re: 1.0, im: 0.0 }, 255), EscapeTime::Escaped(2));
    assert_eq!(escape_time(Complex { re: 1.0, im: 0.0 }, 2), EscapeTime::Bounded);
}
