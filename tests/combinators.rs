use pipes::{SourceExt, WorkExt};
use pipes::{
    cond, work_fn, And, AsyncCloned, Either, Error, Filter, Flatten, NoopWork, Pipeline, Source, Split,
    Then, Work, Wrap,
};

fn err(msg: &str) -> Error {
    Error::new(msg.to_string())
}

fn ok_values(out: Vec<Result<u64, Error>>) -> Vec<u64> {
    out.into_iter().map(|r| r.unwrap()).collect()
}

#[test]
fn and_runs_right_on_left_output() {
    let inc = work_fn(|_: &(), x: u64| -> Result<u64, Error> { Ok(x + 1) });
    let double = work_fn(|_: &(), x: u64| -> Result<u64, Error> { Ok(x * 2) });
    let w = And::new(inc, double);
    assert_eq!(w.call(&(), 3).unwrap(), 8);
}

#[test]
fn and_short_circuits_on_left_error() {
    let fail = work_fn(|_: &(), _x: u64| -> Result<u64, Error> { Err(Error::new("left failed".to_string())) });
    let double = work_fn(|_: &(), _x: u64| -> Result<u64, Error> { panic!("right must not run") });
    let w = And::new(fail, double);
    let r = w.call(&(), 3);
    assert_eq!(r.unwrap_err().inner(), "left failed");
}

#[test]
fn then_recovers_from_failure() {
    let fail = work_fn(|_: &(), _x: u64| -> Result<u64, Error> { Err(Error::new("E1".to_string())) });
    let recover = work_fn(|_: &(), _r: Result<u64, Error>| -> Result<String, Error> { Ok("recovered".to_string()) });
    let w = Then::new(fail, recover);
    assert_eq!(w.call(&(), 1).unwrap(), "recovered");
}

#[test]
fn then_passes_the_error_itself() {
    let fail = work_fn(|_: &(), _x: u64| -> Result<u64, Error> { Err(Error::new("E1".to_string())) });
    let inspect = work_fn(|_: &(), r: Result<u64, Error>| -> Result<String, Error> {
        match r {
            Ok(_) => Ok("ok".to_string()),
            Err(e) => Ok(format!("saw {}", e.inner())),
        }
    });
    assert_eq!(Then::new(fail, inspect).call(&(), 1).unwrap(), "saw E1");
}

#[test]
fn cond_pass_through() {
    let double = work_fn(|_: &(), x: u64| -> Result<u64, Error> { Ok(x * 2) });
    let c = cond(|x: &u64| *x == 2, double);
    let source: Vec<Result<u64, Error>> = vec![Ok(1), Ok(2), Ok(3)];
    let out = Pipeline::new_with(source, c).create_stream(&());
    let out: Vec<Either<u64, u64>> = out.into_iter().map(|r| r.unwrap()).collect();
    assert_eq!(out, vec![Either::Left(1), Either::Right(4), Either::Left(3)]);
}

#[test]
fn cond_reports_inner_error() {
    let fail = work_fn(|_: &(), _x: u64| -> Result<u64, Error> { Err(err("bad")) });
    let c = cond(|x: &u64| *x > 10, fail);
    assert_eq!(c.call(&(), 1).unwrap(), Either::Left(1));
    assert_eq!(c.call(&(), 11).unwrap_err().inner(), "bad");
}

#[test]
fn split_rejoins_branches() {
    let double = work_fn(|_: &(), x: u64| -> Result<u64, Error> { Ok(x * 2) });
    let c = cond(|x: &u64| *x % 2 == 0, double);
    let left = work_fn(|_: &(), x: u64| -> Result<String, Error> { Ok(format!("odd {}", x)) });
    let right = work_fn(|_: &(), x: u64| -> Result<String, Error> { Ok(format!("doubled {}", x)) });
    let s = Split::new(c, left, right);
    assert_eq!(s.call(&(), 3).unwrap(), "odd 3");
    assert_eq!(s.call(&(), 4).unwrap(), "doubled 8");
}

#[test]
fn wrap_decorates_the_call() {
    let inc = work_fn(|_: &(), x: u64| -> Result<u64, Error> { Ok(x + 1) });
    let w = Wrap::new(inc, |ctx: &(), x: u64, inner: &_| -> Result<u64, Error> {
        let r = Work::call(inner, ctx, x)?;
        Ok(r * 10)
    });
    assert_eq!(w.call(&(), 4).unwrap(), 50);
}

#[test]
fn either_work_dispatches() {
    let inc = work_fn(|_: &(), x: u64| -> Result<u64, Error> { Ok(x + 1) });
    let w: Either<_, NoopWork> = Either::Left(inc);
    assert_eq!(w.call(&(), 1).unwrap(), Either::Left(2));
    let n: Either<NoopWork, NoopWork> = Either::Right(NoopWork);
    assert_eq!(Work::<(), u64>::call(&n, &(), 7).unwrap(), Either::Right(7));
}

#[test]
fn pipeline_keeps_order_and_errors() {
    let inc = work_fn(|_: &(), x: u64| -> Result<u64, Error> { Ok(x + 1) });
    let source: Vec<Result<u64, Error>> = vec![Ok(1), Err(err("boom")), Ok(3)];
    let out = Pipeline::new_with(source, inc).create_stream(&());
    assert_eq!(out.len(), 3);
    assert_eq!(*out[0].as_ref().unwrap(), 2);
    assert_eq!(out[1].as_ref().unwrap_err().inner(), "boom");
    assert_eq!(*out[2].as_ref().unwrap(), 4);
}

#[test]
fn pipe_without_stage_is_identity() {
    let source: Vec<Result<u64, Error>> = vec![Ok(4), Ok(5)];
    let out = pipes::pipe(source).create_stream(&());
    assert_eq!(ok_values(out), vec![4, 5]);
}

#[test]
fn cloned_ordering() {
    let inc = work_fn(|_: &(), x: u64| -> Result<u64, Error> { Ok(x + 1) });
    let source: Vec<Result<u64, Error>> = vec![Ok(5)];
    let out = AsyncCloned::new(source, inc, NoopWork).create_stream(&());
    assert_eq!(ok_values(out), vec![6, 5]);
}

#[test]
fn cloned_stops_at_first_error() {
    let fail_on_2 = work_fn(|_: &(), x: u64| -> Result<u64, Error> {
        if x == 2 { Err(Error::new("two".to_string())) } else { Ok(x * 10) }
    });
    let source: Vec<Result<u64, Error>> = vec![Ok(1), Ok(2), Ok(3)];
    let out = AsyncCloned::new(source, fail_on_2, NoopWork).create_stream(&());
    assert_eq!(out.len(), 3);
    assert_eq!(*out[0].as_ref().unwrap(), 10);
    assert_eq!(*out[1].as_ref().unwrap(), 1);
    assert_eq!(out[2].as_ref().unwrap_err().inner(), "two");
}

#[test]
fn flatten_order_preservation() {
    let source: Vec<Result<Vec<Result<u64, Error>>, Error>> = vec![Ok(vec![Ok(1), Ok(2)]), Ok(vec![Ok(3)])];
    let out = Flatten::new(source).create_stream(&());
    assert_eq!(ok_values(out), vec![1, 2, 3]);
}

#[test]
fn flatten_error_ends_only_its_inner_sequence() {
    let source: Vec<Result<Vec<Result<u64, Error>>, Error>> = vec![
        Ok(vec![Ok(1), Err(err("inner")), Ok(2)]),
        Err(err("outer")),
        Ok(vec![Ok(3)]),
    ];
    let out = Flatten::new(source).create_stream(&());
    assert_eq!(out.len(), 4);
    assert_eq!(*out[0].as_ref().unwrap(), 1);
    assert_eq!(out[1].as_ref().unwrap_err().inner(), "inner");
    assert_eq!(out[2].as_ref().unwrap_err().inner(), "outer");
    assert_eq!(*out[3].as_ref().unwrap(), 3);
}

#[test]
fn filter_drops_none() {
    let evens = work_fn(|_: &(), x: u64| -> Result<Option<u64>, Error> {
        if x % 2 == 0 { Ok(Some(x)) } else { Ok(None) }
    });
    let source: Vec<Result<u64, Error>> = vec![Ok(1), Ok(2), Ok(3), Ok(4)];
    let out = Filter::new(source, evens).create_stream(&());
    assert_eq!(ok_values(out), vec![2, 4]);
}

#[test]
fn then_source_sees_every_element() {
    let describe = work_fn(|_: &(), r: Result<u64, Error>| -> Result<String, Error> {
        match r {
            Ok(v) => Ok(format!("ok {}", v)),
            Err(e) => Ok(format!("err {}", e.inner())),
        }
    });
    let source: Vec<Result<u64, Error>> = vec![Ok(1), Err(err("x"))];
    let out = Then::new(source, describe).create_stream(&());
    let out: Vec<String> = out.into_iter().map(|r| r.unwrap()).collect();
    assert_eq!(out, vec!["ok 1".to_string(), "err x".to_string()]);
}

#[test]
fn either_source_tags_items() {
    let left: Vec<Result<u64, Error>> = vec![Ok(1), Ok(2)];
    let s: Either<Vec<Result<u64, Error>>, Vec<Result<String, Error>>> = Either::Left(left);
    let out = s.create_stream(&());
    let out: Vec<Either<u64, String>> = out.into_iter().map(|r| r.unwrap()).collect();
    assert_eq!(out, vec![Either::Left(1), Either::Left(2)]);
}

#[test]
fn single_result_source() {
    let s: Result<u64, Error> = Ok(9);
    assert_eq!(ok_values(s.create_stream(&())), vec![9]);
}

#[test]
fn parse_str_reads_numbers() {
    let p = pipes::parse_str::<u64>();
    assert_eq!(p.call(&(), "42".to_string()).unwrap(), 42);
    assert_eq!(p.call(&(), "+7".to_string()).unwrap(), 7);
    assert_eq!(p.call(&(), "18446744073709551615".to_string()).unwrap(), u64::MAX);
    assert!(p.call(&(), "18446744073709551616".to_string()).is_err());
    assert!(p.call(&(), "".to_string()).is_err());
    assert!(p.call(&(), "+".to_string()).is_err());
    assert!(p.call(&(), "-1".to_string()).is_err());
    assert!(p.call(&(), "12a".to_string()).is_err());
    assert_eq!(pipes::parse_u64("0012"), Some(12));
}

#[test]
fn and_source_interleaves_in_turn() {
    let a: Vec<Result<u64, Error>> = vec![Ok(1), Ok(2), Ok(3)];
    let b: Vec<Result<u64, Error>> = vec![Ok(10)];
    let out = And::new(a, b).create_stream(&());
    assert_eq!(ok_values(out), vec![1, 10, 2, 3]);
}

#[test]
fn builders_compose_stages_and_sources() {
    let inc = work_fn(|_: &(), x: u64| -> Result<u64, Error> { Ok(x + 1) });
    let double = work_fn(|_: &(), x: u64| -> Result<u64, Error> { Ok(x * 2) });
    let stage = WorkExt::<(), u64>::pipe(inc, double);
    let source: Vec<Result<u64, Error>> = vec![Ok(1), Ok(2)];
    let out = SourceExt::<()>::pipe(source, stage).create_stream(&());
    assert_eq!(ok_values(out), vec![4, 6]);
}

#[test]
fn concurrent_pipeline_yields_every_output_once() {
    let double = work_fn(|_: &(), x: u64| -> Result<u64, Error> { Ok(x * 2) });
    let source: Vec<Result<u64, Error>> = vec![Ok(1), Ok(2), Ok(3), Ok(4), Ok(5)];
    let p = pipes::ConcurrentPipeline::new(source, double, 2, vec![1, 1, 0, 1]);
    let out = ok_values(p.create_stream(&()));
    assert_eq!(out, vec![4, 6, 2, 10, 8]);
    let mut sorted = out.clone();
    sorted.sort();
    assert_eq!(sorted, vec![2, 4, 6, 8, 10]);
}

#[test]
fn concurrent_pipeline_with_limit_one_keeps_order() {
    let inc = work_fn(|_: &(), x: u64| -> Result<u64, Error> { Ok(x + 1) });
    let source: Vec<Result<u64, Error>> = vec![Ok(1), Err(err("bad")), Ok(3)];
    let out = pipes::ConcurrentPipeline::new(source, inc, 1, Vec::new()).create_stream(&());
    assert_eq!(out.len(), 3);
    assert_eq!(*out[0].as_ref().unwrap(), 2);
    assert_eq!(out[1].as_ref().unwrap_err().inner(), "bad");
    assert_eq!(*out[2].as_ref().unwrap(), 4);
}
