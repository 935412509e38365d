use vstd::prelude::*;
use crate::error::Error;
use crate::work::{And, NoopWork, Then, Work, Wrap};
use either::Either;

verus! {

/// A producer of a sequence of items or errors, started once with a context.
/// Starting a source runs it to its end and hands over what it produced, in
/// order; `produces` says which sequences that can be.
pub trait Source<C>: Sized {
    type Item;

    /// What a caller must establish before `create_stream`.
    spec fn start_requires(&self, ctx: C) -> bool;

    /// What holds of every sequence the source can produce.
    spec fn produces(&self, ctx: C, out: Seq<Result<Self::Item, Error>>) -> bool;

    fn create_stream(self, ctx: &C) -> (r: Vec<Result<Self::Item, Error>>)
        requires
            self.start_requires(*ctx),
        ensures
            self.produces(*ctx, r@),
    ;
}

/// A finite in-memory sequence is a source of exactly its elements.
impl<C, T> Source<C> for Vec<Result<T, Error>> {
    type Item = T;

    open spec fn start_requires(&self, ctx: C) -> bool {
        true
    }

    open spec fn produces(&self, ctx: C, out: Seq<Result<T, Error>>) -> bool {
        out == self@
    }

    fn create_stream(self, ctx: &C) -> (r: Vec<Result<T, Error>>) {
        self
    }
}

/// A single result is a source of that one element.
impl<C, T> Source<C> for Result<T, Error> {
    type Item = T;

    open spec fn start_requires(&self, ctx: C) -> bool {
        true
    }

    open spec fn produces(&self, ctx: C, out: Seq<Result<T, Error>>) -> bool {
        out == seq![*self]
    }

    fn create_stream(self, ctx: &C) -> (r: Vec<Result<T, Error>>) {
        let mut v = Vec::new();
        v.push(self);
        v
    }
}

/// Item by item, the outcome of `work` on each successful input; errors of
/// the input pass through at their place.
pub open spec fn piped<C, I, W: Work<C, I>>(
    work: W,
    ctx: C,
    input: Seq<Result<I, Error>>,
    out: Seq<Result<W::Output, Error>>,
) -> bool {
    &&& out.len() == input.len()
    &&& forall|i: int|
        0 <= i < input.len() ==> match #[trigger] input[i] {
            Ok(x) => work.call_ensures(ctx, x, out[i]),
            Err(e) => out[i] == Err::<W::Output, Error>(e),
        }
}

/// `work` may be called on every successful item that `source` can produce.
pub open spec fn work_accepts<C, S: Source<C>, W: Work<C, S::Item>>(
    source: S,
    work: W,
    ctx: C,
) -> bool {
    forall|s: Seq<Result<S::Item, Error>>, i: int|
        #![trigger source.produces(ctx, s), s[i]]
        source.produces(ctx, s) && 0 <= i < s.len() && s[i] is Ok
            ==> work.call_requires(ctx, s[i]->Ok_0)
}

/// A source bound to a stage: each item pulled from `source` goes through
/// `work`, one at a time and in order.
pub struct Pipeline<S, W> {
    pub source: S,
    pub work: W,
}

impl<S> Pipeline<S, NoopWork> {
    pub fn new(source: S) -> (r: Pipeline<S, NoopWork>)
        ensures
            r.source == source,
    {
        Pipeline { source, work: NoopWork }
    }
}

impl<S, W> Pipeline<S, W> {
    pub fn new_with(source: S, work: W) -> (r: Pipeline<S, W>)
        ensures
            r.source == source,
            r.work == work,
    {
        Pipeline { source, work }
    }
}

impl<S, W> Pipeline<S, W> {
    /// Puts a decorator around the pipeline's stage.
    pub fn wrap<F>(self, func: F) -> (r: Pipeline<S, Wrap<W, F>>)
        ensures
            r.source == self.source,
            r.work.task == self.work,
            r.work.func == func,
    {
        Pipeline { source: self.source, work: Wrap::new(self.work, func) }
    }
}

/// Starts a pipeline on `source` with no stage yet.
pub fn pipe<S>(source: S) -> (r: Pipeline<S, NoopWork>)
    ensures
        r.source == source,
{
    Pipeline::new(source)
}

impl<C, S: Source<C>, W: Work<C, S::Item>> Source<C> for Pipeline<S, W> {
    type Item = W::Output;

    open spec fn start_requires(&self, ctx: C) -> bool {
        &&& self.source.start_requires(ctx)
        &&& work_accepts(self.source, self.work, ctx)
    }

    open spec fn produces(&self, ctx: C, out: Seq<Result<W::Output, Error>>) -> bool {
        exists|input: Seq<Result<S::Item, Error>>| #[trigger] self.source.produces(ctx, input)
            && piped(self.work, ctx, input, out)
    }

    fn create_stream(self, ctx: &C) -> (r: Vec<Result<W::Output, Error>>) {
        let Pipeline { source, work } = self;
        let input = source.create_stream(ctx);
        let ghost s = input@;
        let mut out: Vec<Result<W::Output, Error>> = Vec::new();
        for item in it: input
            invariant
                source.produces(*ctx, s),
                work_accepts(source, work, *ctx),
                it.seq() == s,
                out.len() == it.index(),
                forall|i: int|
                    0 <= i < out.len() ==> match #[trigger] s[i] {
                        Ok(x) => work.call_ensures(*ctx, x, out@[i]),
                        Err(e) => out@[i] == Err::<W::Output, Error>(e),
                    },
        {
            proof {
                assert(s[it.index() as int] == item);
            }
            match item {
                Ok(x) => {
                    let r = work.call(ctx, x);
                    out.push(r);
                },
                Err(e) => {
                    out.push(Err(e));
                },
            }
        }
        proof {
            assert(piped(work, *ctx, s, out@));
        }
        out
    }
}


/// `out` is the concatenation of one group per input element, each group
/// related to its element by `rel`.
pub open spec fn grouped<X, Y>(input: Seq<X>, out: Seq<Y>, rel: spec_fn(X, Seq<Y>) -> bool) -> bool {
    exists|groups: Seq<Seq<Y>>|
        #![trigger groups.flatten()]
        groups.len() == input.len()
            && (forall|i: int| 0 <= i < input.len() ==> #[trigger] rel(input[i], groups[i]))
            && out == groups.flatten()
}

/// Where a filtering stage drops an item, its group is empty.
pub open spec fn filter_group<C, T, W: Work<C, T, Output = Option<T>>>(
    work: W,
    ctx: C,
    item: Result<T, Error>,
    g: Seq<Result<T, Error>>,
) -> bool {
    match item {
        Err(e) => g == seq![Err::<T, Error>(e)],
        Ok(x) => exists|o: Result<Option<T>, Error>| #[trigger] work.call_ensures(ctx, x, o)
            && g == match o {
                Ok(Some(v)) => seq![Ok::<T, Error>(v)],
                Ok(None) => Seq::<Result<T, Error>>::empty(),
                Err(e) => seq![Err::<T, Error>(e)],
            },
    }
}

/// Keeps the items for which `work` returns `Some`, in order.
pub struct Filter<S, W> {
    pub source: S,
    pub work: W,
}

impl<S, W> Filter<S, W> {
    pub fn new(source: S, work: W) -> (r: Filter<S, W>)
        ensures
            r.source == source,
            r.work == work,
    {
        Filter { source, work }
    }
}

impl<C, T, S: Source<C, Item = T>, W: Work<C, T, Output = Option<T>>> Source<C> for Filter<S, W> {
    type Item = T;

    open spec fn start_requires(&self, ctx: C) -> bool {
        &&& self.source.start_requires(ctx)
        &&& work_accepts(self.source, self.work, ctx)
    }

    open spec fn produces(&self, ctx: C, out: Seq<Result<T, Error>>) -> bool {
        exists|input: Seq<Result<T, Error>>| #[trigger] self.source.produces(ctx, input)
            && grouped(input, out, |item: Result<T, Error>, g: Seq<Result<T, Error>>| filter_group(self.work, ctx, item, g))
    }

    fn create_stream(self, ctx: &C) -> (r: Vec<Result<T, Error>>) {
        let Filter { source, work } = self;
        let input = source.create_stream(ctx);
        let ghost s = input@;
        let ghost mut groups: Seq<Seq<Result<T, Error>>> = Seq::empty();
        let mut out: Vec<Result<T, Error>> = Vec::new();
        for item in it: input
            invariant
                source.produces(*ctx, s),
                work_accepts(source, work, *ctx),
                it.seq() == s,
                groups.len() == it.index(),
                forall|i: int| 0 <= i < groups.len() ==> #[trigger] filter_group(work, *ctx, s[i], groups[i]),
                out@ == groups.flatten(),
        {
            proof {
                assert(s[it.index() as int] == item);
            }
            let ghost g: Seq<Result<T, Error>>;
            let ghost cur = item;
            match item {
                Ok(x) => {
                    let o = work.call(ctx, x);
                    let ghost go = o;
                    match o {
                        Ok(Some(v)) => {
                            proof { g = seq![Ok::<T, Error>(v)]; }
                            out.push(Ok(v));
                        },
                        Ok(None) => {
                            proof { g = Seq::empty(); }
                        },
                        Err(e) => {
                            proof { g = seq![Err::<T, Error>(e)]; }
                            out.push(Err(e));
                        },
                    }
                    proof {
                        assert(work.call_ensures(*ctx, x, go));
                        assert(filter_group(work, *ctx, cur, g));
                    }
                },
                Err(e) => {
                    proof { g = seq![Err::<T, Error>(e)]; }
                    out.push(Err(e));
                },
            }
            proof {
                assert(filter_group(work, *ctx, cur, g));
                assert(s[groups.len() as int] == cur);
                groups.lemma_flatten_push(g);
                groups = groups.push(g);
                assert(out@ =~= groups.flatten());
            }
        }
        proof {
            assert(grouped(s, out@, |item: Result<T, Error>, g: Seq<Result<T, Error>>| filter_group(work, *ctx, item, g)));
        }
        out
    }
}


/// A stage over a source's outcomes: every element, success or error, goes
/// through `right`.
impl<C, S: Source<C>, W: Work<C, Result<S::Item, Error>>> Source<C> for Then<S, W> {
    type Item = W::Output;

    open spec fn start_requires(&self, ctx: C) -> bool {
        &&& self.left.start_requires(ctx)
        &&& forall|s: Seq<Result<S::Item, Error>>, i: int|
            #![trigger self.left.produces(ctx, s), s[i]]
            self.left.produces(ctx, s) && 0 <= i < s.len() ==> self.right.call_requires(ctx, s[i])
    }

    open spec fn produces(&self, ctx: C, out: Seq<Result<W::Output, Error>>) -> bool {
        exists|input: Seq<Result<S::Item, Error>>| #[trigger] self.left.produces(ctx, input)
            && out.len() == input.len()
            && forall|i: int| 0 <= i < input.len() ==> self.right.call_ensures(ctx, #[trigger] input[i], out[i])
    }

    fn create_stream(self, ctx: &C) -> (r: Vec<Result<W::Output, Error>>) {
        let Then { left, right } = self;
        let input = left.create_stream(ctx);
        let ghost s = input@;
        let mut out: Vec<Result<W::Output, Error>> = Vec::new();
        for item in it: input
            invariant
                left.produces(*ctx, s),
                forall|s: Seq<Result<S::Item, Error>>, i: int|
                    #![trigger left.produces(*ctx, s), s[i]]
                    left.produces(*ctx, s) && 0 <= i < s.len() ==> right.call_requires(*ctx, s[i]),
                it.seq() == s,
                out.len() == it.index(),
                forall|i: int| 0 <= i < out.len() ==> right.call_ensures(*ctx, #[trigger] s[i], out@[i]),
        {
            proof {
                assert(s[it.index() as int] == item);
            }
            let r = right.call(ctx, item);
            out.push(r);
        }
        out
    }
}

/// The part of an inner sequence that a flattening keeps: everything up to
/// and including its first error.
pub open spec fn cut_at_error<T>(s: Seq<Result<T, Error>>, r: Seq<Result<T, Error>>) -> bool {
    &&& r.len() <= s.len()
    &&& r == s.take(r.len() as int)
    &&& forall|j: int| 0 <= j < r.len() - 1 ==> (#[trigger] r[j]) is Ok
    &&& r.len() < s.len() ==> r.len() > 0 && r.last() is Err
}

pub open spec fn flatten_group<T>(item: Result<Vec<Result<T, Error>>, Error>, g: Seq<Result<T, Error>>) -> bool {
    match item {
        Err(e) => g == seq![Err::<T, Error>(e)],
        Ok(v) => cut_at_error(v@, g),
    }
}

/// The concatenation of a source of inner sequences, in source order.
pub struct Flatten<S> {
    pub source: S,
}

impl<S> Flatten<S> {
    pub fn new(source: S) -> (r: Flatten<S>)
        ensures
            r.source == source,
    {
        Flatten { source }
    }
}

/// The kept part of one inner sequence.
fn take_until_error<T>(v: Vec<Result<T, Error>>) -> (r: Vec<Result<T, Error>>)
    ensures
        cut_at_error(v@, r@),
{
    let ghost s = v@;
    let mut out: Vec<Result<T, Error>> = Vec::new();
    let mut done = false;
    for item in it: v
        invariant
            it.seq() == s,
            out.len() <= it.index(),
            out@ == s.take(out.len() as int),
            !done ==> out.len() == it.index(),
            !done ==> forall|j: int| 0 <= j < out.len() ==> (#[trigger] out@[j]) is Ok,
            done ==> out.len() > 0 && out@.last() is Err,
            done ==> forall|j: int| 0 <= j < out.len() - 1 ==> (#[trigger] out@[j]) is Ok,
    {
        proof {
            assert(s[it.index() as int] == item);
        }
        if !done {
            done = item.is_err();
            out.push(item);
            proof {
                assert(out@ =~= s.take(out.len() as int));
            }
        }
    }
    out
}

impl<C, T, S: Source<C, Item = Vec<Result<T, Error>>>> Source<C> for Flatten<S> {
    type Item = T;

    open spec fn start_requires(&self, ctx: C) -> bool {
        self.source.start_requires(ctx)
    }

    open spec fn produces(&self, ctx: C, out: Seq<Result<T, Error>>) -> bool {
        exists|input: Seq<Result<Vec<Result<T, Error>>, Error>>| #[trigger] self.source.produces(ctx, input)
            && grouped(input, out, |item: Result<Vec<Result<T, Error>>, Error>, g: Seq<Result<T, Error>>| flatten_group(item, g))
    }

    fn create_stream(self, ctx: &C) -> (r: Vec<Result<T, Error>>) {
        let input = self.source.create_stream(ctx);
        let ghost s = input@;
        let ghost mut groups: Seq<Seq<Result<T, Error>>> = Seq::empty();
        let mut out: Vec<Result<T, Error>> = Vec::new();
        for item in it: input
            invariant
                self.source.produces(*ctx, s),
                it.seq() == s,
                groups.len() == it.index(),
                forall|i: int| 0 <= i < groups.len() ==> #[trigger] flatten_group(s[i], groups[i]),
                out@ == groups.flatten(),
        {
            proof {
                assert(s[it.index() as int] == item);
            }
            let ghost cur = item;
            let mut g = match item {
                Ok(v) => take_until_error(v),
                Err(e) => {
                    let mut one = Vec::new();
                    one.push(Err(e));
                    one
                },
            };
            proof {
                assert(flatten_group(cur, g@));
                groups.lemma_flatten_push(g@);
                groups = groups.push(g@);
            }
            out.append(&mut g);
        }
        proof {
            assert(grouped(s, out@, |item: Result<Vec<Result<T, Error>>, Error>, g: Seq<Result<T, Error>>| flatten_group(item, g)));
        }
        out
    }
}

/// Flattening keeps order: where no outer element and no inner element
/// fails, the output is the inner sequences concatenated in source order.
pub proof fn lemma_flatten_keeps_order<T>(
    input: Seq<Result<Vec<Result<T, Error>>, Error>>,
    out: Seq<Result<T, Error>>,
)
    requires
        grouped(input, out, |item: Result<Vec<Result<T, Error>>, Error>, g: Seq<Result<T, Error>>| flatten_group(item, g)),
        forall|i: int| 0 <= i < input.len() ==> (#[trigger] input[i]) is Ok,
        forall|i: int, j: int| 0 <= i < input.len() && 0 <= j < input[i]->Ok_0@.len() ==> (#[trigger] input[i]->Ok_0@[j]) is Ok,
    ensures
        out == input.map_values(|x: Result<Vec<Result<T, Error>>, Error>| x->Ok_0@).flatten(),
{
    let rel = |item: Result<Vec<Result<T, Error>>, Error>, g: Seq<Result<T, Error>>| flatten_group(item, g);
    let groups = choose|groups: Seq<Seq<Result<T, Error>>>|
        #![trigger groups.flatten()]
        groups.len() == input.len()
            && (forall|i: int| 0 <= i < input.len() ==> #[trigger] rel(input[i], groups[i]))
            && out == groups.flatten();
    let inner = input.map_values(|x: Result<Vec<Result<T, Error>>, Error>| x->Ok_0@);
    assert forall|i: int| 0 <= i < input.len() implies groups[i] == inner[i] by {
        assert(rel(input[i], groups[i]));
        let s = input[i]->Ok_0@;
        let g = groups[i];
        assert(cut_at_error(s, g));
        if g.len() < s.len() {
            assert(g.last() == s[g.len() - 1]);
            assert(s[g.len() - 1] is Ok);
        }
        assert(g =~= s);
    }
    assert(groups =~= inner);
}

/// Tags each successful item of a source with the side it came from.
pub open spec fn tag_left<A, B>(r: Result<A, Error>) -> Result<Either<A, B>, Error> {
    match r {
        Ok(v) => Ok(Either::Left(v)),
        Err(e) => Err(e),
    }
}

pub open spec fn tag_right<A, B>(r: Result<B, Error>) -> Result<Either<A, B>, Error> {
    match r {
        Ok(v) => Ok(Either::Right(v)),
        Err(e) => Err(e),
    }
}

/// A union of two sources is a source whose items say which one ran.
impl<C, L: Source<C>, R: Source<C>> Source<C> for Either<L, R> {
    type Item = Either<L::Item, R::Item>;

    open spec fn start_requires(&self, ctx: C) -> bool {
        match self {
            Either::Left(l) => l.start_requires(ctx),
            Either::Right(r) => r.start_requires(ctx),
        }
    }

    open spec fn produces(&self, ctx: C, out: Seq<Result<Either<L::Item, R::Item>, Error>>) -> bool {
        match self {
            Either::Left(l) => exists|input: Seq<Result<L::Item, Error>>| #[trigger] l.produces(ctx, input)
                && out == input.map_values(|x: Result<L::Item, Error>| tag_left::<L::Item, R::Item>(x)),
            Either::Right(r) => exists|input: Seq<Result<R::Item, Error>>| #[trigger] r.produces(ctx, input)
                && out == input.map_values(|x: Result<R::Item, Error>| tag_right::<L::Item, R::Item>(x)),
        }
    }

    fn create_stream(self, ctx: &C) -> (r: Vec<Result<Either<L::Item, R::Item>, Error>>) {
        let mut out: Vec<Result<Either<L::Item, R::Item>, Error>> = Vec::new();
        match self {
            Either::Left(l) => {
                let input = l.create_stream(ctx);
                let ghost s = input@;
                for item in it: input
                    invariant
                        it.seq() == s,
                        out.len() == it.index(),
                        forall|i: int| 0 <= i < out.len() ==> out@[i] == tag_left::<L::Item, R::Item>(#[trigger] s[i]),
                {
                    proof {
                        assert(s[it.index() as int] == item);
                    }
                    match item {
                        Ok(v) => out.push(Ok(Either::Left(v))),
                        Err(e) => out.push(Err(e)),
                    }
                }
                proof {
                    assert(out@ =~= s.map_values(|x: Result<L::Item, Error>| tag_left::<L::Item, R::Item>(x)));
                }
            },
            Either::Right(r) => {
                let input = r.create_stream(ctx);
                let ghost s = input@;
                for item in it: input
                    invariant
                        it.seq() == s,
                        out.len() == it.index(),
                        forall|i: int| 0 <= i < out.len() ==> out@[i] == tag_right::<L::Item, R::Item>(#[trigger] s[i]),
                {
                    proof {
                        assert(s[it.index() as int] == item);
                    }
                    match item {
                        Ok(v) => out.push(Ok(Either::Right(v))),
                        Err(e) => out.push(Err(e)),
                    }
                }
                proof {
                    assert(out@ =~= s.map_values(|x: Result<R::Item, Error>| tag_right::<L::Item, R::Item>(x)));
                }
            },
        }
        out
    }
}


/// `out` is an interleaving of `a` and `b`: each of them appears in it in
/// its own order, and nothing else does.
pub open spec fn interleaves<T>(out: Seq<T>, a: Seq<T>, b: Seq<T>) -> bool
    decreases out.len(),
{
    if out.len() == 0 {
        a.len() == 0 && b.len() == 0
    } else {
        (a.len() > 0 && out.last() == a.last() && interleaves(out.drop_last(), a.drop_last(), b))
            || (b.len() > 0 && out.last() == b.last() && interleaves(out.drop_last(), a, b.drop_last()))
    }
}

/// The elements of `v` in reverse order.
pub(crate) fn reversed<T>(v: Vec<T>) -> (r: Vec<T>)
    ensures
        r@ == v@.reverse(),
{
    let ghost orig = v@;
    let mut v = v;
    let mut r: Vec<T> = Vec::new();
    while v.len() > 0
        invariant
            v@ == orig.take(v.len() as int),
            v.len() <= orig.len(),
            r@ == orig.reverse().take(orig.len() - v.len()),
        decreases v.len(),
    {
        let ghost k = orig.len() - v.len();
        let x = v.pop().unwrap();
        proof {
            assert(x == orig[v.len() as int]);
            assert(orig.reverse()[k] == orig[orig.len() - 1 - k]);
        }
        r.push(x);
        proof {
            assert(v@ =~= orig.take(v.len() as int));
            assert(r@ =~= orig.reverse().take(orig.len() - v.len()));
        }
    }
    proof {
        assert(r@ =~= orig.reverse());
    }
    r
}

/// Two sources merged into one: each keeps its order, and they take turns.
impl<C, T, S1: Source<C, Item = T>, S2: Source<C, Item = T>> Source<C> for And<S1, S2> {
    type Item = T;

    open spec fn start_requires(&self, ctx: C) -> bool {
        self.left.start_requires(ctx) && self.right.start_requires(ctx)
    }

    open spec fn produces(&self, ctx: C, out: Seq<Result<T, Error>>) -> bool {
        exists|a: Seq<Result<T, Error>>, b: Seq<Result<T, Error>>|
            #![trigger self.left.produces(ctx, a), self.right.produces(ctx, b)]
            self.left.produces(ctx, a) && self.right.produces(ctx, b) && interleaves(out, a, b)
    }

    fn create_stream(self, ctx: &C) -> (r: Vec<Result<T, Error>>) {
        let And { left, right } = self;
        let va = left.create_stream(ctx);
        let vb = right.create_stream(ctx);
        let ghost a = va@;
        let ghost b = vb@;
        let mut ra = reversed(va);
        let mut rb = reversed(vb);
        let mut out: Vec<Result<T, Error>> = Vec::new();
        let mut left_turn = true;
        while ra.len() > 0 || rb.len() > 0
            invariant
                left.produces(*ctx, a),
                right.produces(*ctx, b),
                ra.len() <= a.len(),
                rb.len() <= b.len(),
                ra@ == a.skip(a.len() - ra.len()).reverse(),
                rb@ == b.skip(b.len() - rb.len()).reverse(),
                interleaves(out@, a.take(a.len() - ra.len()), b.take(b.len() - rb.len())),
            decreases ra.len() + rb.len(),
        {
            let ghost before = out@;
            if (left_turn && ra.len() > 0) || rb.len() == 0 {
                let x = ra.pop().unwrap();
                proof {
                    assert(x == a[a.len() - ra.len() - 1]);
                }
                out.push(x);
                proof {
                    let ta = a.take(a.len() - ra.len());
                    assert(ta.drop_last() =~= a.take(a.len() - ra.len() - 1));
                    assert(out@.drop_last() =~= before);
                    assert(ra@ =~= a.skip(a.len() - ra.len()).reverse());
                }
            } else {
                let x = rb.pop().unwrap();
                proof {
                    assert(x == b[b.len() - rb.len() - 1]);
                }
                out.push(x);
                proof {
                    let tb = b.take(b.len() - rb.len());
                    assert(tb.drop_last() =~= b.take(b.len() - rb.len() - 1));
                    assert(out@.drop_last() =~= before);
                    assert(rb@ =~= b.skip(b.len() - rb.len()).reverse());
                }
            }
            left_turn = !left_turn;
        }
        proof {
            assert(a.take(a.len() as int) =~= a);
            assert(b.take(b.len() as int) =~= b);
        }
        out
    }
}

} // verus!
