use vstd::prelude::*;
use crate::error::Error;
use crate::source::Source;
use crate::work::Work;

verus! {

/// Duplication that may have to do work first (load lazy content) and may
/// fail; the value itself may change in the process.
pub trait AsyncClone: Sized {
    /// What holds of the value after the call (`after`) and the outcome.
    spec fn clone_ensures(&self, after: Self, r: Result<Self, Error>) -> bool;

    fn async_clone(&mut self) -> (r: Result<Self, Error>)
        ensures
            old(self).clone_ensures(*final(self), r),
    ;
}

impl AsyncClone for u64 {
    open spec fn clone_ensures(&self, after: u64, r: Result<u64, Error>) -> bool {
        after == *self && r == Ok::<u64, Error>(*self)
    }

    fn async_clone(&mut self) -> (r: Result<u64, Error>) {
        Ok(*self)
    }
}

impl AsyncClone for i64 {
    open spec fn clone_ensures(&self, after: i64, r: Result<i64, Error>) -> bool {
        after == *self && r == Ok::<i64, Error>(*self)
    }

    fn async_clone(&mut self) -> (r: Result<i64, Error>) {
        Ok(*self)
    }
}

/// A group ends the output when it ends in an error.
pub open spec fn ends_in_error<T>(g: Seq<Result<T, Error>>) -> bool {
    g.len() > 0 && g.last() is Err
}

/// The outputs that one source element gives: the duplicate through
/// `work1`, then the item itself through `work2`, stopping at the first error.
pub open spec fn cloned_group<C, I: AsyncClone, T1: Work<C, I>, T2: Work<C, I, Output = T1::Output>>(
    work1: T1,
    work2: T2,
    ctx: C,
    item: Result<I, Error>,
    g: Seq<Result<T1::Output, Error>>,
) -> bool {
    match item {
        Err(e) => g == seq![Err::<T1::Output, Error>(e)],
        Ok(x) => exists|after: I, c: Result<I, Error>| #[trigger] x.clone_ensures(after, c)
            && match c {
                Err(e) => g == seq![Err::<T1::Output, Error>(e)],
                Ok(d) => exists|r1: Result<T1::Output, Error>| #[trigger] work1.call_ensures(ctx, d, r1)
                    && if r1 is Err {
                        g == seq![r1]
                    } else {
                        exists|r2: Result<T1::Output, Error>| #[trigger] work2.call_ensures(ctx, after, r2)
                            && g == seq![r1, r2]
                    },
            },
    }
}

/// Fan-out: each item is duplicated; the duplicate goes through `work1`,
/// the item itself through `work2`, and both outputs are yielded in that order.
/// The first error ends the sequence.
pub struct AsyncCloned<S, T1, T2> {
    pub source: S,
    pub work1: T1,
    pub work2: T2,
}

impl<S, T1, T2> AsyncCloned<S, T1, T2> {
    pub fn new(source: S, work1: T1, work2: T2) -> (r: AsyncCloned<S, T1, T2>)
        ensures
            r.source == source,
            r.work1 == work1,
            r.work2 == work2,
    {
        AsyncCloned { source, work1, work2 }
    }
}

impl<C, I, S, T1, T2> Source<C> for AsyncCloned<S, T1, T2> where
    I: AsyncClone,
    S: Source<C, Item = I>,
    T1: Work<C, I>,
    T2: Work<C, I, Output = T1::Output>,
 {
    type Item = T1::Output;

    open spec fn start_requires(&self, ctx: C) -> bool {
        &&& self.source.start_requires(ctx)
        &&& forall|x: I, after: I, d: I| #[trigger] x.clone_ensures(after, Ok(d))
            ==> self.work1.call_requires(ctx, d) && self.work2.call_requires(ctx, after)
    }

    open spec fn produces(&self, ctx: C, out: Seq<Result<T1::Output, Error>>) -> bool {
        exists|input: Seq<Result<I, Error>>, groups: Seq<Seq<Result<T1::Output, Error>>>|
            #![trigger self.source.produces(ctx, input), groups.flatten()]
            self.source.produces(ctx, input)
            && groups.len() <= input.len()
            && (forall|i: int| 0 <= i < groups.len()
                ==> #[trigger] cloned_group(self.work1, self.work2, ctx, input[i], groups[i]))
            && (forall|i: int| 0 <= i < groups.len() - 1 ==> !ends_in_error(#[trigger] groups[i]))
            && (groups.len() < input.len() ==> groups.len() > 0 && ends_in_error(groups.last()))
            && out == groups.flatten()
    }

    fn create_stream(self, ctx: &C) -> (r: Vec<Result<T1::Output, Error>>) {
        let AsyncCloned { source, work1, work2 } = self;
        let input = source.create_stream(ctx);
        let ghost s = input@;
        let ghost mut groups: Seq<Seq<Result<T1::Output, Error>>> = Seq::empty();
        let mut out: Vec<Result<T1::Output, Error>> = Vec::new();
        let mut done = false;
        for item in it: input
            invariant
                source.produces(*ctx, s),
                forall|x: I, after: I, d: I| #[trigger] x.clone_ensures(after, Ok(d))
                    ==> work1.call_requires(*ctx, d) && work2.call_requires(*ctx, after),
                it.seq() == s,
                groups.len() <= it.index(),
                !done ==> groups.len() == it.index(),
                !done ==> forall|i: int| 0 <= i < groups.len() ==> !ends_in_error(#[trigger] groups[i]),
                done ==> groups.len() > 0 && ends_in_error(groups.last()),
                done ==> forall|i: int| 0 <= i < groups.len() - 1 ==> !ends_in_error(#[trigger] groups[i]),
                forall|i: int| 0 <= i < groups.len() ==> #[trigger] cloned_group(work1, work2, *ctx, s[i], groups[i]),
                out@ == groups.flatten(),
        {
            proof {
                assert(s[it.index() as int] == item);
            }
            if !done {
                let ghost cur = item;
                let ghost g: Seq<Result<T1::Output, Error>>;
                match item {
                    Err(e) => {
                        proof { g = seq![Err::<T1::Output, Error>(e)]; }
                        out.push(Err(e));
                        done = true;
                    },
                    Ok(x) => {
                        let mut x = x;
                        let ghost x0 = x;
                        let c = x.async_clone();
                        let ghost gc = c;
                        match c {
                            Err(e) => {
                                proof { g = seq![Err::<T1::Output, Error>(e)]; }
                                out.push(Err(e));
                                done = true;
                            },
                            Ok(d) => {
                                let r1 = work1.call(ctx, d);
                                let ghost g1 = r1;
                                if r1.is_err() {
                                    proof { g = seq![g1]; }
                                    out.push(r1);
                                    done = true;
                                } else {
                                    out.push(r1);
                                    let ghost xa = x;
                                    let r2 = work2.call(ctx, x);
                                    let ghost g2 = r2;
                                    proof {
                                        g = seq![g1, g2];
                                        assert(work2.call_ensures(*ctx, xa, g2));
                                    }
                                    done = r2.is_err();
                                    out.push(r2);
                                }
                                proof {
                                    assert(work1.call_ensures(*ctx, d, g1));
                                }
                            },
                        }
                        proof {
                            assert(x0.clone_ensures(x, gc));
                        }
                    },
                }
                proof {
                    assert(cloned_group(work1, work2, *ctx, cur, g));
                    groups.lemma_flatten_push(g);
                    groups = groups.push(g);
                    assert(out@ =~= groups.flatten());
                }
            }
        }
        out
    }
}

} // verus!
