use vstd::prelude::*;
use crate::error::Error;
use crate::source::{Source, grouped};
use crate::work::And;

verus! {

/// A terminal consumer of items.
pub trait Dest<T>: Sized {
    /// What a caller must establish before `call`.
    spec fn dest_requires(&self, input: T) -> bool;

    /// What holds of every outcome of `call`.
    spec fn dest_ensures(&self, input: T, out: Result<(), Error>) -> bool;

    fn call(&self, input: T) -> (r: Result<(), Error>)
        requires
            self.dest_requires(input),
        ensures
            self.dest_ensures(input, r),
    ;
}

/// A consumer made of a function.
pub struct DestFn<F>(pub F);

pub fn dest_fn<F>(func: F) -> (r: DestFn<F>)
    ensures
        r.0 == func,
{
    DestFn(func)
}

impl<T, F: Fn(T) -> Result<(), Error>> Dest<T> for DestFn<F> {
    open spec fn dest_requires(&self, input: T) -> bool {
        self.0.requires((input,))
    }

    open spec fn dest_ensures(&self, input: T, out: Result<(), Error>) -> bool {
        self.0.ensures((input,), out)
    }

    fn call(&self, input: T) -> (r: Result<(), Error>) {
        (self.0)(input)
    }
}

/// A driver that runs to completion and reports every error it met, in the
/// order met.
pub trait Unit<C>: Sized {
    spec fn run_requires(&self, ctx: C) -> bool;

    spec fn run_ensures(&self, ctx: C, errors: Seq<Error>) -> bool;

    fn run(self, ctx: &C) -> (r: Vec<Error>)
        requires
            self.run_requires(*ctx),
        ensures
            self.run_ensures(*ctx, r@),
    ;
}

/// The errors one source element gives: its own, or the one its consumer
/// returned.
pub open spec fn unit_group<T, D: Dest<T>>(dest: D, item: Result<T, Error>, g: Seq<Error>) -> bool {
    match item {
        Err(e) => g == seq![e],
        Ok(x) => exists|o: Result<(), Error>| #[trigger] dest.dest_ensures(x, o)
            && g == match o {
                Ok(_) => Seq::<Error>::empty(),
                Err(e) => seq![e],
            },
    }
}

/// Drives a source to exhaustion, handing each successful item to `dest`.
/// Errors do not stop the run; they are collected and returned.
pub struct SourceUnit<S, D> {
    pub source: S,
    pub dest: D,
}

impl<S, D> SourceUnit<S, D> {
    pub fn new(source: S, dest: D) -> (r: SourceUnit<S, D>)
        ensures
            r.source == source,
            r.dest == dest,
    {
        SourceUnit { source, dest }
    }
}

impl<C, S: Source<C>, D: Dest<S::Item>> Unit<C> for SourceUnit<S, D> {
    open spec fn run_requires(&self, ctx: C) -> bool {
        &&& self.source.start_requires(ctx)
        &&& forall|s: Seq<Result<S::Item, Error>>, i: int|
            #![trigger self.source.produces(ctx, s), s[i]]
            self.source.produces(ctx, s) && 0 <= i < s.len() && s[i] is Ok
                ==> self.dest.dest_requires(s[i]->Ok_0)
    }

    open spec fn run_ensures(&self, ctx: C, errors: Seq<Error>) -> bool {
        exists|input: Seq<Result<S::Item, Error>>| #[trigger] self.source.produces(ctx, input)
            && grouped(input, errors, |item: Result<S::Item, Error>, g: Seq<Error>| unit_group(self.dest, item, g))
    }

    fn run(self, ctx: &C) -> (r: Vec<Error>) {
        let SourceUnit { source, dest } = self;
        let input = source.create_stream(ctx);
        let ghost s = input@;
        let ghost mut groups: Seq<Seq<Error>> = Seq::empty();
        let mut errors: Vec<Error> = Vec::new();
        for item in it: input
            invariant
                source.produces(*ctx, s),
                forall|s: Seq<Result<S::Item, Error>>, i: int|
                    #![trigger source.produces(*ctx, s), s[i]]
                    source.produces(*ctx, s) && 0 <= i < s.len() && s[i] is Ok
                        ==> dest.dest_requires(s[i]->Ok_0),
                it.seq() == s,
                groups.len() == it.index(),
                forall|i: int| 0 <= i < groups.len() ==> #[trigger] unit_group(dest, s[i], groups[i]),
                errors@ == groups.flatten(),
        {
            proof {
                assert(s[it.index() as int] == item);
            }
            let ghost cur = item;
            let ghost g: Seq<Error>;
            match item {
                Ok(x) => {
                    let o = dest.call(x);
                    let ghost go = o;
                    match o {
                        Ok(_) => {
                            proof { g = Seq::empty(); }
                        },
                        Err(e) => {
                            proof { g = seq![e]; }
                            errors.push(e);
                        },
                    }
                    proof {
                        assert(dest.dest_ensures(x, go));
                    }
                },
                Err(e) => {
                    proof { g = seq![e]; }
                    errors.push(e);
                },
            }
            proof {
                assert(unit_group(dest, cur, g));
                groups.lemma_flatten_push(g);
                groups = groups.push(g);
                assert(errors@ =~= groups.flatten());
            }
        }
        proof {
            assert(grouped(s, errors@, |item: Result<S::Item, Error>, g: Seq<Error>| unit_group(dest, item, g)));
        }
        errors
    }
}

/// Two drivers run to completion, one after the other; the errors of the
/// first come before those of the second.
impl<C, U1: Unit<C>, U2: Unit<C>> Unit<C> for And<U1, U2> {
    open spec fn run_requires(&self, ctx: C) -> bool {
        self.left.run_requires(ctx) && self.right.run_requires(ctx)
    }

    open spec fn run_ensures(&self, ctx: C, errors: Seq<Error>) -> bool {
        exists|e1: Seq<Error>, e2: Seq<Error>|
            #![trigger self.left.run_ensures(ctx, e1), self.right.run_ensures(ctx, e2)]
            self.left.run_ensures(ctx, e1) && self.right.run_ensures(ctx, e2) && errors == e1 + e2
    }

    fn run(self, ctx: &C) -> (r: Vec<Error>) {
        let And { left, right } = self;
        let mut e1 = left.run(ctx);
        let ghost g1 = e1@;
        let mut e2 = right.run(ctx);
        let ghost g2 = e2@;
        e1.append(&mut e2);
        proof {
            assert(e1@ =~= g1 + g2);
        }
        e1
    }
}

} // verus!
