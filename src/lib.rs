//! A typed pipeline engine: stages (`Work`), producers (`Source`) and
//! consumers (`Dest`), with combinators for sequencing, recovery, branching,
//! fan-out, filtering and flattening, the package model that sink-bound
//! stages work on, and the decisions of the bounded concurrent driver and of
//! the exclusive-path file sink.

use vstd::prelude::*;

pub mod cloned;
pub mod concurrent;
pub mod error;
pub mod ext;
pub mod fs;
pub mod package;
pub mod parse;
pub mod paths;
pub mod sink;
pub mod source;
pub mod unit;
pub mod work;

pub use cloned::{AsyncClone, AsyncCloned};
pub use concurrent::{Action, ConcurrentPipeline, Scheduler};
pub use either::Either;
pub use error::{Error, Result};
pub use ext::{SourceExt, UnitExt, WorkExt};
pub use fs::{Cached, Fs, FileResolver, FsDest, FsSource, FsWork, KravlDestination, WriteMode, WritePlan};
pub use package::{Body, Glob, IntoPackage, IntoPackageWork, Matcher, Meta, MimeMatcher, Package, Transfer, match_glob, match_mime};
pub use parse::{ParseStr, parse_str, parse_u64};
pub use sink::OpenPaths;
pub use source::{Filter, Flatten, Pipeline, Source, pipe};
pub use unit::{Dest, DestFn, SourceUnit, Unit, dest_fn};
pub use work::{And, Cond, NoopWork, Split, Then, Work, WorkFn, Wrap, cond, work_fn};

verus! {

/// The two-case union of the `either` crate; its variants are public and
/// are read as they stand.
#[verifier::external_type_specification]
#[verifier::reject_recursive_types(L)]
#[verifier::reject_recursive_types(R)]
pub struct ExEither<L, R>(either::Either<L, R>);

} // verus!
