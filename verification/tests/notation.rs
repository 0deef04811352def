//! The original do-block examples, written as the nested `and_then` /
//! `lift` calls that block expansion produces.

use do_notation::Lift;

struct IC<A> {
    count: usize,
    value: A,
}

impl<A> IC<A> {
    fn new(value: A) -> Self {
        IC { count: 1, value }
    }

    fn value(&self) -> &A {
        &self.value
    }

    fn count(&self) -> usize {
        self.count
    }

    fn and_then<B>(self, f: impl FnOnce(A) -> IC<B>) -> IC<B> {
        let r = f(self.value);

        IC { count: self.count + r.count, value: r.value }
    }
}

impl<A> Lift<A> for IC<A> {
    fn spec_lift(value: A) -> Self {
        Self::new(value)
    }

    fn lift(value: A) -> Self {
        Self::new(value)
    }
}

fn guard<E>(cond: bool, err: E) -> Result<(), E> {
    if cond {
        Ok(())
    } else {
        Err(err)
    }
}

#[test]
fn option() {
    // v <- Some(3); Some(v)
    let r: Option<i32> = Some(3).and_then(|v| Some(v));

    assert_eq!(r, Some(3));

    // v <- r; x <- Some(10); Some(v * x)
    let r: Option<i32> = r.and_then(|v| Some(10).and_then(|x| Some(v * x)));

    assert_eq!(r, Some(30));

    let n: Option<i32> = None;
    // v <- Some(314); x <- n; Some(v * x)
    let r: Option<i32> = Some(314).and_then(|v| n.and_then(|x| Some(v * x)));

    assert_eq!(r, None);

    // _ <- Some("a"); b <- Some("b"); _ <- Option::<&str>::None; Some(b)
    let r = Some("a")
        .and_then(|_| Some("b").and_then(|b| Option::<&str>::None.and_then(|_| Some(b))));

    assert_eq!(r, None);

    // _ <- Some("a"); return "b";
    let r = Some("a").and_then(|_| Lift::lift("b"));

    assert_eq!(r, Some("b"));
}

#[test]
fn result() {
    // v <- Ok(3); Ok(v)
    let r: Result<i32, &str> = Ok(3).and_then(|v| Ok(v));

    assert_eq!(r, Ok(3));

    // v <- r; x <- Ok(10); Ok(v * x)
    let r: Result<i32, &str> = r.and_then(|v| Ok(10).and_then(|x| Ok(v * x)));

    assert_eq!(r, Ok(30));

    let n: Result<i32, &str> = Err("error");
    // v <- Ok(314); x <- n; Ok(v * x)
    let r: Result<i32, &str> = Ok(314).and_then(|v| n.and_then(|x| Ok(v * x)));

    assert_eq!(r, Err("error"));

    // _ <- Result::<&str, &str>::Ok("a"); b <- Ok("b");
    // _ <- Result::<&str, &str>::Err("nope"); Ok(b)
    let r = Result::<&str, &str>::Ok("a").and_then(|_| {
        Ok("b").and_then(|b| Result::<&str, &str>::Err("nope").and_then(|_| Ok(b)))
    });

    assert_eq!(r, Err("nope"));

    // x <- Ok(true); _ <- guard(1 == 2, "meh"); Ok(x)
    let r = Ok(true).and_then(|x| guard(1 == 2, "meh").and_then(|_| Ok(x)));

    assert_eq!(r, Err("meh"));
}

#[test]
fn instruction_counter() {
    // a <- IC::new(10); b <- IC::new(2); IC::new(a + b)
    let ic = IC::new(10).and_then(|a| IC::new(2).and_then(|b| IC::new(a + b)));

    assert_eq!(ic.value(), &12);
    assert_eq!(ic.count(), 3);

    // _ <- IC::new("a"); return [1, 2, 3];
    let ic = IC::new("a").and_then(|_| Lift::lift([1, 2, 3]));

    assert_eq!(ic.value(), &[1, 2, 3]);
    assert_eq!(ic.count(), 2);
}
