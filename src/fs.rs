use vstd::prelude::*;
use crate::error::Error;
use crate::package::{Body, Package};
use crate::paths::{glob_match, glob_matches, guess_mime, guessed_mime, logical_path, logical_path_of, os_file_name, os_file_name_of};
use crate::work::Work;

verus! {

/// What a file-name pattern is tested against: the final component of the
/// path, or the whole path where it has none.
pub open spec fn match_subject(path: Seq<char>) -> Seq<char> {
    match os_file_name_of(path) {
        Some(n) => n,
        None => path,
    }
}

/// A path is kept when no pattern is set, or when one of them matches.
pub open spec fn accepted(patterns: Seq<String>, path: Seq<char>) -> bool {
    patterns.len() == 0 || exists|i: int| 0 <= i < patterns.len() && glob_matches(#[trigger] patterns[i]@, match_subject(path))
}

/// Selects files under a root directory by file-name glob patterns.
pub struct FileResolver {
    patterns: Vec<String>,
    root: String,
}

impl FileResolver {
    pub closed spec fn patterns_spec(&self) -> Seq<String> {
        self.patterns@
    }

    pub closed spec fn root_spec(&self) -> Seq<char> {
        self.root@
    }

    pub fn new(root: String) -> (r: FileResolver)
        ensures
            r.root_spec() == root@,
            r.patterns_spec().len() == 0,
    {
        FileResolver { patterns: Vec::new(), root }
    }

    pub fn pattern(self, pattern: String) -> (r: FileResolver)
        ensures
            r.root_spec() == self.root_spec(),
            r.patterns_spec() == self.patterns_spec().push(pattern),
    {
        let mut patterns = self.patterns;
        patterns.push(pattern);
        FileResolver { patterns, root: self.root }
    }

    pub fn root(&self) -> (r: &String)
        ensures
            r@ == self.root_spec(),
    {
        &self.root
    }

    /// Whether a found path is kept.
    pub fn accepts(&self, path: &String) -> (r: bool)
        ensures
            r == accepted(self.patterns_spec(), path@),
    {
        if self.patterns.len() == 0 {
            return true;
        }
        let subject = match os_file_name(path.as_str()) {
            Some(n) => n,
            None => path.clone(),
        };
        let mut i: usize = 0;
        while i < self.patterns.len()
            invariant
                i <= self.patterns.len(),
                subject@ == match_subject(path@),
                forall|j: int| 0 <= j < i ==> !glob_matches(#[trigger] self.patterns@[j]@, match_subject(path@)),
            decreases self.patterns.len() - i,
        {
            if glob_match(self.patterns[i].as_str(), subject.as_str()) {
                return true;
            }
            i = i + 1;
        }
        false
    }
}

/// The package for a file under `root`: its relative path, the MIME type
/// guessed from the full path, and the unread file as body.
pub open spec fn file_package(root: Seq<char>, rel: Seq<char>, p: Package) -> bool {
    &&& p.wf()
    &&& p.path_spec() == rel
    &&& p.mime_spec() == guessed_mime(logical_path_of(rel, root))
    &&& p.content_spec() is Path
    &&& p.content_spec()->Path_0@ == logical_path_of(rel, root)
    &&& p.meta_spec() == Map::<Seq<char>, Seq<char>>::empty()
}

fn package_for(root: &String, rel: String) -> (r: Package)
    ensures
        file_package(root@, rel@, r),
{
    let full = logical_path(rel.as_str(), root.as_str());
    let mime = guess_mime(full.as_str());
    Package::new(rel, mime, Body::Path(full))
}

/// A source of the files under a root directory, selected by patterns.
pub struct FsSource {
    root: FileResolver,
}

impl FsSource {
    pub closed spec fn resolver(&self) -> FileResolver {
        self.root
    }

    pub fn new(root: String) -> (r: FsSource)
        ensures
            r.resolver().root_spec() == root@,
            r.resolver().patterns_spec().len() == 0,
    {
        FsSource { root: FileResolver::new(root) }
    }

    pub fn pattern(self, pattern: String) -> (r: FsSource)
        ensures
            r.resolver().root_spec() == self.resolver().root_spec(),
            r.resolver().patterns_spec() == self.resolver().patterns_spec().push(pattern),
    {
        FsSource { root: self.root.pattern(pattern) }
    }

    pub fn resolver_ref(&self) -> (r: &FileResolver)
        ensures
            *r == self.resolver(),
    {
        &self.root
    }

    /// The package for a found file, given by its path relative to the root.
    pub fn package(&self, rel: String) -> (r: Package)
        ensures
            file_package(self.resolver().root_spec(), rel@, r),
    {
        package_for(&self.root.root, rel)
    }
}

/// A stage that turns a path relative to `root` into the package of that
/// file.
pub struct FsWork {
    root: String,
}

impl FsWork {
    pub closed spec fn root_spec(&self) -> Seq<char> {
        self.root@
    }

    pub fn new(root: String) -> (r: FsWork)
        ensures
            r.root_spec() == root@,
    {
        FsWork { root }
    }
}

impl<C> Work<C, String> for FsWork {
    type Output = Package;

    open spec fn call_requires(&self, ctx: C, input: String) -> bool {
        true
    }

    open spec fn call_ensures(&self, ctx: C, input: String, out: Result<Package, Error>) -> bool {
        out is Ok && file_package(self.root_spec(), input@, out->Ok_0)
    }

    fn call(&self, ctx: &C, input: String) -> (r: Result<Package, Error>) {
        Ok(package_for(&self.root, input))
    }
}

/// A sink that writes each package to its path under a root directory.
pub struct FsDest {
    path: String,
}

impl FsDest {
    pub closed spec fn root_spec(&self) -> Seq<char> {
        self.path@
    }

    pub fn new(path: String) -> (r: FsDest)
        ensures
            r.root_spec() == path@,
    {
        FsDest { path }
    }

    pub fn root(&self) -> (r: &String)
        ensures
            r@ == self.root_spec(),
    {
        &self.path
    }

    /// Where a package is written.
    pub fn target(&self, package: &Package) -> (r: String)
        ensures
            r@ == logical_path_of(package.path_spec(), self.root_spec()),
    {
        logical_path(package.path().as_str(), self.path.as_str())
    }
}

/// Package storage under a root directory.
pub struct Fs {
    root: String,
}

impl Fs {
    pub closed spec fn root_spec(&self) -> Seq<char> {
        self.root@
    }

    pub fn new(root: String) -> (r: Fs)
        ensures
            r.root_spec() == root@,
    {
        Fs { root }
    }

    /// The file that stores the package at relative path `rel`.
    pub fn file_path(&self, rel: &String) -> (r: String)
        ensures
            r@ == logical_path_of(rel@, self.root_spec()),
    {
        logical_path(rel.as_str(), self.root.as_str())
    }
}

/// A stage whose outputs are kept in files under `root`, keyed by the
/// input package's path: a stored output is read back instead of running
/// the stage again.
pub struct Cached<T> {
    work: T,
    root: String,
}

impl<T> Cached<T> {
    pub closed spec fn root_spec(&self) -> Seq<char> {
        self.root@
    }

    pub closed spec fn work_spec(&self) -> T {
        self.work
    }

    pub fn work(&self) -> (r: &T)
        ensures
            *r == self.work_spec(),
    {
        &self.work
    }

    pub fn new(root: String, work: T) -> (r: Cached<T>)
        ensures
            r.root_spec() == root@,
            r.work_spec() == work,
    {
        Cached { work, root }
    }

    /// Where the output for `package` is kept.
    pub fn cache_path(&self, package: &Package) -> (r: String)
        ensures
            r@ == logical_path_of(package.path_spec(), self.root_spec()),
    {
        logical_path(package.path().as_str(), self.root.as_str())
    }
}

/// How a sink opens its target file.
#[derive(PartialEq, Eq, Structural, Clone, Copy, Debug)]
pub enum WriteMode {
    /// Keep what the file holds and add to its end.
    Append,
    /// Replace what the file holds.
    Truncate,
}

/// What a file holds after a write of `bytes` in `mode`.
pub open spec fn content_after(content: Seq<u8>, mode: WriteMode, bytes: Seq<u8>) -> Seq<u8> {
    match mode {
        WriteMode::Append => content + bytes,
        WriteMode::Truncate => bytes,
    }
}

/// One write for the sink to perform: the target file, how to open it and
/// the bytes to put there.
#[derive(Debug)]
pub struct WritePlan {
    pub path: String,
    pub mode: WriteMode,
    pub bytes: Vec<u8>,
}

/// A sink for packages under a root directory: packages of a MIME type
/// listed as an append filter are added, each followed by a newline, to the
/// end of their file; the others replace its content.
pub struct KravlDestination {
    root: String,
    append: Vec<String>,
}

impl KravlDestination {
    pub closed spec fn root_spec(&self) -> Seq<char> {
        self.root@
    }

    pub closed spec fn filters(&self) -> Seq<String> {
        self.append@
    }

    /// Whether a package of MIME type `mime` is appended.
    pub open spec fn appends(&self, mime: Seq<char>) -> bool {
        exists|i: int| 0 <= i < self.filters().len() && #[trigger] self.filters()[i]@ == mime
    }

    pub fn new(root: String) -> (r: KravlDestination)
        ensures
            r.root_spec() == root@,
            r.filters().len() == 0,
    {
        KravlDestination { root, append: Vec::new() }
    }

    pub fn append_when(self, mime: String) -> (r: KravlDestination)
        ensures
            r.root_spec() == self.root_spec(),
            r.filters() == self.filters().push(mime),
    {
        let mut append = self.append;
        append.push(mime);
        KravlDestination { root: self.root, append }
    }

    pub fn append(&self, package: &Package) -> (r: bool)
        ensures
            r == self.appends(package.mime_spec()),
    {
        let mut i: usize = 0;
        while i < self.append.len()
            invariant
                i <= self.append.len(),
                forall|j: int| 0 <= j < i ==> (#[trigger] self.append@[j])@ != package.mime_spec(),
            decreases self.append.len() - i,
        {
            if self.append[i] == *package.mime() {
                proof {
                    assert(self.filters()[i as int]@ == package.mime_spec());
                }
                return true;
            }
            i = i + 1;
        }
        false
    }

    /// The write that stores `package`: its bytes (loaded with `read_file`
    /// where the body is a file), to its path under the root, appended with
    /// a trailing newline or replacing the file.
    pub fn plan<F: Fn(&String) -> Result<Vec<u8>, Error>>(&self, package: Package, read_file: &F) -> (r: Result<WritePlan, Error>)
        requires
            package.content_spec() is Path ==> read_file.requires((&package.content_spec()->Path_0,)),
        ensures
            exists|after: Body, lr: Result<(), Error>| #[trigger] package.content_spec().loads_to(*read_file, after, lr)
                && (lr is Err ==> r == Err::<WritePlan, Error>(lr->Err_0))
                && (lr is Ok ==> r is Ok
                    && r->Ok_0.path@ == logical_path_of(package.path_spec(), self.root_spec())
                    && (self.appends(package.mime_spec()) ==> r->Ok_0.mode == WriteMode::Append
                        && r->Ok_0.bytes@ == after.loaded_bytes().push(10u8))
                    && (!self.appends(package.mime_spec()) ==> r->Ok_0.mode == WriteMode::Truncate
                        && r->Ok_0.bytes@ == after.loaded_bytes())),
    {
        let path = logical_path(package.path().as_str(), self.root.as_str());
        let append = self.append(&package);
        let mut package = package;
        let body = package.take_content();
        match body.bytes(read_file) {
            Err(e) => Err(e),
            Ok(bytes) => {
                let mut bytes = bytes;
                if append {
                    bytes.push(10u8);
                    Ok(WritePlan { path, mode: WriteMode::Append, bytes })
                } else {
                    Ok(WritePlan { path, mode: WriteMode::Truncate, bytes })
                }
            },
        }
    }
}

} // verus!
