//! The reference structures: short-circuiting, failure propagation and the
//! counting fold.

use do_notation::effects::{run_counted_block, run_option_block, run_result_block, Counted};
use do_notation::Lift;

fn guard<'a>(cond: bool, err: &'a str) -> Result<(), &'a str> {
    if cond {
        Ok(())
    } else {
        Err(err)
    }
}

#[test]
fn option_block_multiplies() {
    // x <- Some(3); y <- Some(4); Some(x * y)
    let r = Some(3).and_then(|x| Some(4).and_then(|y| Some(x * y)));
    assert_eq!(r, Some(12));

    let absent: Option<i32> = None;
    let r = Some(3).and_then(|x| absent.and_then(|y| Some(x * y)));
    assert_eq!(r, None);
}

#[test]
fn result_block_fails_early() {
    // x <- Ok(1); _ <- guard(false, "bad"); Ok(x)
    let r = Ok(1).and_then(|x| guard(false, "bad").and_then(|_| Ok(x)));
    assert_eq!(r, Err("bad"));
}

#[test]
fn option_steps_stop_at_first_absent() {
    let steps = vec![Some(1), None, Some(2)];
    assert_eq!(run_option_block(&steps, Some(9)), (None, 2));

    let steps = vec![Some(1), Some(2), Some(3)];
    assert_eq!(run_option_block(&steps, Some(9)), (Some(9), 3));

    let steps = vec![];
    assert_eq!(run_option_block(&steps, None), (None, 0));
}

#[test]
fn result_steps_carry_the_first_error() {
    let steps = vec![Ok(1), Err(7), Ok(2), Err(8)];
    assert_eq!(run_result_block(&steps, Ok(0)), (Err(7), 2));

    let steps = vec![Ok(1), Ok(2)];
    assert_eq!(run_result_block(&steps, Err(5)), (Err(5), 2));
}

#[test]
fn counted_block_sums_counts() {
    // a <- Counted::new(10); b <- Counted::new(2); Counted::new(a + b)
    let ic = Counted::new(10i64).and_then(|a| Counted::new(2i64).and_then(|b| Counted::new(a + b)));
    assert_eq!(ic.value, 12);
    assert_eq!(ic.count, 3);

    let folded = run_counted_block(&[10, 2], 12);
    assert_eq!(folded.value, 12);
    assert_eq!(folded.count, 3);

    let folded = run_counted_block(&[], 5);
    assert_eq!(folded.value, 5);
    assert_eq!(folded.count, 1);
}

#[test]
fn lift_makes_the_default_instance() {
    assert_eq!(<Option<i32> as Lift<i32>>::lift(4), Some(4));
    assert_eq!(<Result<i32, &str> as Lift<i32>>::lift(4), Ok(4));

    let c: Counted<&str> = Lift::lift("a");
    assert_eq!(c.count, 1);
    assert_eq!(c.value, "a");
}
