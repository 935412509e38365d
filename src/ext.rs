use vstd::prelude::*;
use crate::cloned::AsyncCloned;
use crate::source::{Filter, Flatten, Pipeline, Source};
use crate::unit::{SourceUnit, Unit};
use crate::work::{And, Split, Then, Work, Wrap};

verus! {

/// Builders for composing stages.
pub trait WorkExt<C, I>: Work<C, I> {
    /// Sequential composition with `work`.
    fn pipe<W>(self, work: W) -> (r: And<Self, W>)
        ensures
            r.left == self,
            r.right == work,
    {
        And::new(self, work)
    }

    /// Hands this stage's outcome, success or error, to `work`.
    fn then<W>(self, work: W) -> (r: Then<Self, W>)
        ensures
            r.left == self,
            r.right == work,
    {
        Then::new(self, work)
    }

    /// Puts a decorator around this stage.
    fn wrap<F>(self, func: F) -> (r: Wrap<Self, F>)
        ensures
            r.task == self,
            r.func == func,
    {
        Wrap::new(self, func)
    }

    /// Routes the two cases of this stage's output to `left` and `right`.
    fn split<L, R>(self, left: L, right: R) -> (r: Split<Self, L, R>)
        ensures
            r.splitter == self,
            r.left == left,
            r.right == right,
    {
        Split::new(self, left, right)
    }
}

impl<C, I, T: Work<C, I>> WorkExt<C, I> for T {}

/// Builders for composing sources.
pub trait SourceExt<C>: Source<C> {
    /// Merges this source with `source`.
    fn and<S>(self, source: S) -> (r: And<Self, S>)
        ensures
            r.left == self,
            r.right == source,
    {
        And::new(self, source)
    }

    /// Keeps the items for which `work` returns `Some`.
    fn filter<W>(self, work: W) -> (r: Filter<Self, W>)
        ensures
            r.source == self,
            r.work == work,
    {
        Filter::new(self, work)
    }

    /// Runs each item through `work`.
    fn pipe<W>(self, work: W) -> (r: Pipeline<Self, W>)
        ensures
            r.source == self,
            r.work == work,
    {
        Pipeline::new_with(self, work)
    }

    /// Concatenates the inner sequences this source yields.
    fn flatten(self) -> (r: Flatten<Self>)
        ensures
            r.source == self,
    {
        Flatten::new(self)
    }

    /// Duplicates each item through `work1` and `work2`.
    fn cloned<T1, T2>(self, work1: T1, work2: T2) -> (r: AsyncCloned<Self, T1, T2>)
        ensures
            r.source == self,
            r.work1 == work1,
            r.work2 == work2,
    {
        AsyncCloned::new(self, work1, work2)
    }

    /// Hands every element, success or error, to `work`.
    fn then<W>(self, work: W) -> (r: Then<Self, W>)
        ensures
            r.left == self,
            r.right == work,
    {
        Then::new(self, work)
    }

    /// Drives this source into `dest`.
    fn dest<D>(self, dest: D) -> (r: SourceUnit<Self, D>)
        ensures
            r.source == self,
            r.dest == dest,
    {
        SourceUnit::new(self, dest)
    }
}

impl<C, S: Source<C>> SourceExt<C> for S {}

/// Builders for combining drivers.
pub trait UnitExt<C>: Unit<C> {
    /// Runs this driver and `next`, both to completion.
    fn and<U>(self, next: U) -> (r: And<Self, U>)
        ensures
            r.left == self,
            r.right == next,
    {
        And::new(self, next)
    }
}

impl<C, U: Unit<C>> UnitExt<C> for U {}

} // verus!
