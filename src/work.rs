use vstd::prelude::*;
use either::Either;
use crate::error::Error;

verus! {

/// A single-item transform: given a shared context and one input, produce
/// one output or fail.
pub trait Work<C, I>: Sized {
    type Output;

    /// What a caller must establish before `call`.
    spec fn call_requires(&self, ctx: C, input: I) -> bool;

    /// What holds of every outcome of `call`.
    spec fn call_ensures(&self, ctx: C, input: I, out: Result<Self::Output, Error>) -> bool;

    fn call(&self, ctx: &C, input: I) -> (r: Result<Self::Output, Error>)
        requires
            self.call_requires(*ctx, input),
        ensures
            self.call_ensures(*ctx, input, r),
    ;
}

/// The identity stage: hands its input on unchanged.
#[derive(Clone, Copy)]
pub struct NoopWork;

impl<C, I> Work<C, I> for NoopWork {
    type Output = I;

    open spec fn call_requires(&self, ctx: C, input: I) -> bool {
        true
    }

    open spec fn call_ensures(&self, ctx: C, input: I, out: Result<I, Error>) -> bool {
        out == Ok::<I, Error>(input)
    }

    fn call(&self, ctx: &C, input: I) -> (r: Result<I, Error>) {
        Ok(input)
    }
}

/// A stage made of a function of the context and the input.
pub struct WorkFn<F>(pub F);

pub fn work_fn<F>(func: F) -> (r: WorkFn<F>)
    ensures
        r.0 == func,
{
    WorkFn(func)
}

impl<C, I, O, F: Fn(&C, I) -> Result<O, Error>> Work<C, I> for WorkFn<F> {
    type Output = O;

    open spec fn call_requires(&self, ctx: C, input: I) -> bool {
        self.0.requires((&ctx, input))
    }

    open spec fn call_ensures(&self, ctx: C, input: I, out: Result<O, Error>) -> bool {
        self.0.ensures((&ctx, input), out)
    }

    fn call(&self, ctx: &C, input: I) -> (r: Result<O, Error>) {
        (self.0)(ctx, input)
    }
}

/// Sequential composition: runs `left`, and only on success feeds its
/// output to `right`.
pub struct And<T1, T2> {
    pub left: T1,
    pub right: T2,
}

impl<T1, T2> And<T1, T2> {
    pub fn new(left: T1, right: T2) -> (r: And<T1, T2>)
        ensures
            r.left == left,
            r.right == right,
    {
        And { left, right }
    }
}

impl<C, I, T1: Work<C, I>, T2: Work<C, T1::Output>> Work<C, I> for And<T1, T2> {
    type Output = T2::Output;

    open spec fn call_requires(&self, ctx: C, input: I) -> bool {
        &&& self.left.call_requires(ctx, input)
        &&& forall|mid: T1::Output| #[trigger] self.left.call_ensures(ctx, input, Ok(mid))
            ==> self.right.call_requires(ctx, mid)
    }

    open spec fn call_ensures(&self, ctx: C, input: I, out: Result<T2::Output, Error>) -> bool {
        exists|mid: Result<T1::Output, Error>| #[trigger] self.left.call_ensures(ctx, input, mid)
            && match mid {
                Ok(o) => self.right.call_ensures(ctx, o, out),
                Err(e) => out == Err::<T2::Output, Error>(e),
            }
    }

    fn call(&self, ctx: &C, input: I) -> (r: Result<T2::Output, Error>) {
        let mid = self.left.call(ctx, input);
        match mid {
            Ok(o) => {
                let r = self.right.call(ctx, o);
                r
            }
            Err(e) => Err(e),
        }
    }
}


/// Post-processing that sees failure: `right` always receives the outcome of
/// `left`, success or error.
pub struct Then<T1, T2> {
    pub left: T1,
    pub right: T2,
}

impl<T1, T2> Then<T1, T2> {
    pub fn new(left: T1, right: T2) -> (r: Then<T1, T2>)
        ensures
            r.left == left,
            r.right == right,
    {
        Then { left, right }
    }
}

impl<C, I, T1: Work<C, I>, T2: Work<C, Result<T1::Output, Error>>> Work<C, I> for Then<T1, T2> {
    type Output = T2::Output;

    open spec fn call_requires(&self, ctx: C, input: I) -> bool {
        &&& self.left.call_requires(ctx, input)
        &&& forall|mid: Result<T1::Output, Error>| #[trigger] self.left.call_ensures(ctx, input, mid)
            ==> self.right.call_requires(ctx, mid)
    }

    open spec fn call_ensures(&self, ctx: C, input: I, out: Result<T2::Output, Error>) -> bool {
        exists|mid: Result<T1::Output, Error>| #[trigger] self.left.call_ensures(ctx, input, mid)
            && self.right.call_ensures(ctx, mid, out)
    }

    fn call(&self, ctx: &C, input: I) -> (r: Result<T2::Output, Error>) {
        let mid = self.left.call(ctx, input);
        self.right.call(ctx, mid)
    }
}

/// A predicate-gated branch: inputs that fail the check pass through as
/// `Left`, the others go through `work` and come out as `Right`.
pub struct Cond<P, W> {
    pub check: P,
    pub work: W,
}

pub fn cond<P, W>(check: P, work: W) -> (r: Cond<P, W>)
    ensures
        r.check == check,
        r.work == work,
{
    Cond { check, work }
}

impl<C, I, P: Fn(&I) -> bool, W: Work<C, I>> Work<C, I> for Cond<P, W> {
    type Output = Either<I, W::Output>;

    open spec fn call_requires(&self, ctx: C, input: I) -> bool {
        &&& self.check.requires((&input,))
        &&& self.check.ensures((&input,), true) ==> self.work.call_requires(ctx, input)
    }

    open spec fn call_ensures(&self, ctx: C, input: I, out: Result<Either<I, W::Output>, Error>) -> bool {
        exists|b: bool| #[trigger] self.check.ensures((&input,), b)
            && if b {
                exists|o: Result<W::Output, Error>| #[trigger] self.work.call_ensures(ctx, input, o)
                    && out == match o {
                        Ok(v) => Ok::<Either<I, W::Output>, Error>(Either::Right(v)),
                        Err(e) => Err(e),
                    }
            } else {
                out == Ok::<Either<I, W::Output>, Error>(Either::Left(input))
            }
    }

    fn call(&self, ctx: &C, input: I) -> (r: Result<Either<I, W::Output>, Error>) {
        if (self.check)(&input) {
            match self.work.call(ctx, input) {
                Ok(v) => Ok(Either::Right(v)),
                Err(e) => Err(e),
            }
        } else {
            Ok(Either::Left(input))
        }
    }
}

/// Routes the two cases of a union produced by `splitter` to `left` and
/// `right`, which converge on one output type.
pub struct Split<S, L, R> {
    pub splitter: S,
    pub left: L,
    pub right: R,
}

impl<S, L, R> Split<S, L, R> {
    pub fn new(splitter: S, left: L, right: R) -> (r: Split<S, L, R>)
        ensures
            r.splitter == splitter,
            r.left == left,
            r.right == right,
    {
        Split { splitter, left, right }
    }
}

impl<C, I, A, B, S, L, R> Work<C, I> for Split<S, L, R> where
    S: Work<C, I, Output = Either<A, B>>,
    L: Work<C, A>,
    R: Work<C, B, Output = L::Output>,
 {
    type Output = L::Output;

    open spec fn call_requires(&self, ctx: C, input: I) -> bool {
        &&& self.splitter.call_requires(ctx, input)
        &&& forall|a: A| #[trigger] self.splitter.call_ensures(ctx, input, Ok(Either::Left(a)))
            ==> self.left.call_requires(ctx, a)
        &&& forall|b: B| #[trigger] self.splitter.call_ensures(ctx, input, Ok(Either::Right(b)))
            ==> self.right.call_requires(ctx, b)
    }

    open spec fn call_ensures(&self, ctx: C, input: I, out: Result<L::Output, Error>) -> bool {
        exists|mid: Result<Either<A, B>, Error>| #[trigger] self.splitter.call_ensures(ctx, input, mid)
            && match mid {
                Ok(Either::Left(a)) => self.left.call_ensures(ctx, a, out),
                Ok(Either::Right(b)) => self.right.call_ensures(ctx, b, out),
                Err(e) => out == Err::<L::Output, Error>(e),
            }
    }

    fn call(&self, ctx: &C, input: I) -> (r: Result<L::Output, Error>) {
        let mid = self.splitter.call(ctx, input);
        match mid {
            Ok(Either::Left(a)) => self.left.call(ctx, a),
            Ok(Either::Right(b)) => self.right.call(ctx, b),
            Err(e) => Err(e),
        }
    }
}

/// A decorator: `func` receives the context, the input and the wrapped
/// stage, and decides what to do around the call.
pub struct Wrap<T, F> {
    pub task: T,
    pub func: F,
}

impl<T, F> Wrap<T, F> {
    pub fn new(task: T, func: F) -> (r: Wrap<T, F>)
        ensures
            r.task == task,
            r.func == func,
    {
        Wrap { task, func }
    }
}

impl<C, I, O, T, F: Fn(&C, I, &T) -> Result<O, Error>> Work<C, I> for Wrap<T, F> {
    type Output = O;

    open spec fn call_requires(&self, ctx: C, input: I) -> bool {
        self.func.requires((&ctx, input, &self.task))
    }

    open spec fn call_ensures(&self, ctx: C, input: I, out: Result<O, Error>) -> bool {
        self.func.ensures((&ctx, input, &self.task), out)
    }

    fn call(&self, ctx: &C, input: I) -> (r: Result<O, Error>) {
        (self.func)(ctx, input, &self.task)
    }
}

/// A union of two stages is a stage whose output says which one ran.
impl<C, I, L: Work<C, I>, R: Work<C, I>> Work<C, I> for Either<L, R> {
    type Output = Either<L::Output, R::Output>;

    open spec fn call_requires(&self, ctx: C, input: I) -> bool {
        match self {
            Either::Left(l) => l.call_requires(ctx, input),
            Either::Right(r) => r.call_requires(ctx, input),
        }
    }

    open spec fn call_ensures(&self, ctx: C, input: I, out: Result<Either<L::Output, R::Output>, Error>) -> bool {
        match self {
            Either::Left(l) => exists|o: Result<L::Output, Error>| #[trigger] l.call_ensures(ctx, input, o)
                && out == match o {
                    Ok(v) => Ok::<Either<L::Output, R::Output>, Error>(Either::Left(v)),
                    Err(e) => Err(e),
                },
            Either::Right(r) => exists|o: Result<R::Output, Error>| #[trigger] r.call_ensures(ctx, input, o)
                && out == match o {
                    Ok(v) => Ok::<Either<L::Output, R::Output>, Error>(Either::Right(v)),
                    Err(e) => Err(e),
                },
        }
    }

    fn call(&self, ctx: &C, input: I) -> (r: Result<Either<L::Output, R::Output>, Error>) {
        match self {
            Either::Left(l) => match l.call(ctx, input) {
                Ok(v) => Ok(Either::Left(v)),
                Err(e) => Err(e),
            },
            Either::Right(r) => match r.call(ctx, input) {
                Ok(v) => Ok(Either::Right(v)),
                Err(e) => Err(e),
            },
        }
    }
}


/// Sequential composition: an outcome of `And(a, b)` on `x` is exactly, for
/// some outcome of `a` on `x`, either an outcome of `b` on `a`'s output, or
/// `a`'s error unchanged.
pub proof fn lemma_and_composes<C, I, T1: Work<C, I>, T2: Work<C, T1::Output>>(
    a: T1,
    b: T2,
    ctx: C,
    x: I,
    out: Result<T2::Output, Error>,
)
    ensures
        (And { left: a, right: b }).call_ensures(ctx, x, out) <==> (
            (exists|o: T1::Output| #[trigger] a.call_ensures(ctx, x, Ok(o)) && b.call_ensures(ctx, o, out))
            || (exists|e: Error| #[trigger] a.call_ensures(ctx, x, Err(e)) && out == Err::<T2::Output, Error>(e))),
{
    let w = And { left: a, right: b };
    if w.call_ensures(ctx, x, out) {
        let mid = choose|mid: Result<T1::Output, Error>| #[trigger] a.call_ensures(ctx, x, mid)
            && match mid {
                Ok(o) => b.call_ensures(ctx, o, out),
                Err(e) => out == Err::<T2::Output, Error>(e),
            };
        match mid {
            Ok(o) => assert(a.call_ensures(ctx, x, Ok(o)) && b.call_ensures(ctx, o, out)),
            Err(e) => assert(a.call_ensures(ctx, x, Err(e)) && out == Err::<T2::Output, Error>(e)),
        }
    }
    if exists|o: T1::Output| #[trigger] a.call_ensures(ctx, x, Ok(o)) && b.call_ensures(ctx, o, out) {
        let o = choose|o: T1::Output| #[trigger] a.call_ensures(ctx, x, Ok(o)) && b.call_ensures(ctx, o, out);
        assert(w.left.call_ensures(ctx, x, Ok::<T1::Output, Error>(o)));
        assert(w.call_ensures(ctx, x, out));
    }
    if exists|e: Error| #[trigger] a.call_ensures(ctx, x, Err(e)) && out == Err::<T2::Output, Error>(e) {
        let e = choose|e: Error| #[trigger] a.call_ensures(ctx, x, Err(e)) && out == Err::<T2::Output, Error>(e);
        assert(w.left.call_ensures(ctx, x, Err::<T1::Output, Error>(e)));
        assert(w.call_ensures(ctx, x, out));
    }
}

/// Short-circuit: where `a` can only fail on `x`, with `e`, the only outcome
/// of `And(a, b)` on `x` is that same error, whatever `b` is.
pub proof fn lemma_and_short_circuits<C, I, T1: Work<C, I>, T2: Work<C, T1::Output>>(
    a: T1,
    b: T2,
    ctx: C,
    x: I,
    e: Error,
    out: Result<T2::Output, Error>,
)
    requires
        forall|mid: Result<T1::Output, Error>| #[trigger] a.call_ensures(ctx, x, mid) ==> mid == Err::<T1::Output, Error>(e),
        (And { left: a, right: b }).call_ensures(ctx, x, out),
    ensures
        out == Err::<T2::Output, Error>(e),
{
}

/// `Then` sees failure: whatever outcome `a` has on `x`, an error included,
/// is handed to `b`, and `b`'s outcome on it is an outcome of `Then(a, b)`.
pub proof fn lemma_then_sees_failure<C, I, T1: Work<C, I>, T2: Work<C, Result<T1::Output, Error>>>(
    a: T1,
    b: T2,
    ctx: C,
    x: I,
    mid: Result<T1::Output, Error>,
    out: Result<T2::Output, Error>,
)
    requires
        a.call_ensures(ctx, x, mid),
        b.call_ensures(ctx, mid, out),
    ensures
        (Then { left: a, right: b }).call_ensures(ctx, x, out),
{
    let w = Then { left: a, right: b };
    assert(w.left.call_ensures(ctx, x, mid));
}

/// Recovery through `Then`: where `a` can only fail on `x` and `b` turns
/// every outcome into `Ok(v)`, the only outcome of `Then(a, b)` is `Ok(v)`.
pub proof fn lemma_then_recovers<C, I, T1: Work<C, I>, T2: Work<C, Result<T1::Output, Error>>>(
    a: T1,
    b: T2,
    ctx: C,
    x: I,
    v: T2::Output,
    out: Result<T2::Output, Error>,
)
    requires
        forall|mid: Result<T1::Output, Error>| #[trigger] a.call_ensures(ctx, x, mid) ==> mid is Err,
        forall|mid: Result<T1::Output, Error>, o: Result<T2::Output, Error>|
            #[trigger] b.call_ensures(ctx, mid, o) ==> o == Ok::<T2::Output, Error>(v),
        (Then { left: a, right: b }).call_ensures(ctx, x, out),
    ensures
        out == Ok::<T2::Output, Error>(v),
{
}

} // verus!
