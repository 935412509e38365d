use vstd::prelude::*;
use crate::cloned::AsyncClone;
use crate::error::Error;
use crate::paths::{file_name, file_name_of, glob_match, glob_matches};
use crate::work::Work;
use either::Either;

verus! {

/// The content of a package: bytes in memory, an unread file, a lazy
/// sequence of chunks not yet read, or nothing.
#[derive(Debug)]
pub enum Body {
    Bytes(Vec<u8>),
    Path(String),
    Stream(Vec<Result<Vec<u8>, Error>>),
    Empty,
}

/// The bytes of a sequence of chunks, in order.
pub open spec fn joined(chunks: Seq<Result<Vec<u8>, Error>>) -> Seq<u8>
    decreases chunks.len(),
{
    if chunks.len() == 0 {
        Seq::empty()
    } else {
        joined(chunks.drop_last()) + match chunks.last() {
            Ok(v) => v@,
            Err(_) => Seq::<u8>::empty(),
        }
    }
}

/// `k` is the position of the first failed chunk.
pub open spec fn first_failure(chunks: Seq<Result<Vec<u8>, Error>>, k: int) -> bool {
    &&& 0 <= k < chunks.len()
    &&& chunks[k] is Err
    &&& forall|j: int| 0 <= j < k ==> (#[trigger] chunks[j]) is Ok
}

impl Body {
    /// Materialised: nothing is left to read.
    pub open spec fn is_loaded(&self) -> bool {
        self is Bytes || self is Empty
    }

    /// The bytes of a materialised body.
    pub open spec fn loaded_bytes(&self) -> Seq<u8> {
        match self {
            Body::Bytes(v) => v@,
            _ => Seq::empty(),
        }
    }

    /// What `load` does with a file body, given what reading the file gave.
    pub open spec fn path_loaded(&self, read: Result<Vec<u8>, Error>, after: Body, r: Result<(), Error>) -> bool {
        match read {
            Ok(v) => after == Body::Bytes(v) && r is Ok,
            Err(e) => after == *self && r == Err::<(), Error>(e),
        }
    }

    /// What holds of every outcome of `load`.
    pub open spec fn load_ensures(&self, after: Body, r: Result<(), Error>) -> bool {
        match self {
            Body::Bytes(_) => after == *self && r is Ok,
            Body::Empty => after == *self && r is Ok,
            Body::Path(_) => (r is Ok && after is Bytes) || (r is Err && after == *self),
            Body::Stream(chunks) => {
                if forall|j: int| 0 <= j < chunks.len() ==> (#[trigger] chunks@[j]) is Ok {
                    after is Bytes && after.loaded_bytes() == joined(chunks@) && r is Ok
                } else {
                    exists|k: int| #[trigger] first_failure(chunks@, k)
                        && r == Err::<(), Error>(chunks@[k]->Err_0)
                        && after is Stream
                        && after->Stream_0@ == chunks@.skip(k + 1)
                }
            },
        }
    }

    /// What `load` does with `read_file` as the way to read files: what holds
    /// of every outcome and, for a file body, the result of the read itself.
    pub open spec fn loads_to<F: Fn(&String) -> Result<Vec<u8>, Error>>(&self, read_file: F, after: Body, r: Result<(), Error>) -> bool {
        &&& self.load_ensures(after, r)
        &&& self is Path ==> exists|read: Result<Vec<u8>, Error>|
            #[trigger] read_file.ensures((&self->Path_0,), read) && self.path_loaded(read, after, r)
    }

    /// Reads the whole of a lazy sequence of chunks; stops at the first
    /// failed chunk and keeps what follows it.
    fn collect(chunks: Vec<Result<Vec<u8>, Error>>) -> (r: Result<Vec<u8>, (Error, Vec<Result<Vec<u8>, Error>>)>)
        ensures
            (forall|j: int| 0 <= j < chunks.len() ==> (#[trigger] chunks@[j]) is Ok) ==> r is Ok && r->Ok_0@ == joined(chunks@),
            !(forall|j: int| 0 <= j < chunks.len() ==> (#[trigger] chunks@[j]) is Ok) ==> r is Err && exists|k: int|
                #[trigger] first_failure(chunks@, k) && r->Err_0.0 == chunks@[k]->Err_0 && r->Err_0.1@ == chunks@.skip(k + 1),
    {
        let ghost s = chunks@;
        let mut buf: Vec<u8> = Vec::new();
        let mut failure: Option<Error> = None;
        let mut rest: Vec<Result<Vec<u8>, Error>> = Vec::new();
        let ghost mut k: int = 0;
        for chunk in it: chunks
            invariant
                it.seq() == s,
                failure is None ==> forall|j: int| 0 <= j < it.index() ==> (#[trigger] s[j]) is Ok,
                failure is None ==> buf@ == joined(s.take(it.index() as int)),
                failure is None ==> rest@.len() == 0,
                failure is Some ==> first_failure(s, k) && failure->Some_0 == s[k]->Err_0
                    && k < it.index() && rest@ == s.subrange(k + 1, it.index() as int),
        {
            proof {
                assert(s[it.index() as int] == chunk);
            }
            if failure.is_some() {
                rest.push(chunk);
                proof {
                    assert(rest@ =~= s.subrange(k + 1, it.index() + 1));
                }
            } else {
                match chunk {
                    Ok(bytes) => {
                        let mut bytes = bytes;
                        proof {
                            let t = s.take(it.index() + 1);
                            assert(t.drop_last() =~= s.take(it.index() as int));
                            assert(t.last() == s[it.index() as int]);
                        }
                        buf.append(&mut bytes);
                    },
                    Err(e) => {
                        proof {
                            k = it.index() as int;
                            assert(rest@ =~= s.subrange(k + 1, it.index() + 1));
                        }
                        failure = Some(e);
                    },
                }
            }
        }
        match failure {
            None => {
                proof {
                    assert(s.take(s.len() as int) =~= s);
                }
                Ok(buf)
            },
            Some(e) => {
                proof {
                    assert(rest@ =~= s.skip(k + 1));
                }
                Err((e, rest))
            },
        }
    }

    /// Reads a lazy sequence of chunks to its end.
    fn load_stream(&mut self) -> (r: Result<(), Error>)
        requires
            (*old(self)) is Stream,
        ensures
            old(self).load_ensures(*final(self), r),
    {
        let mut current = Body::Empty;
        core::mem::swap(self, &mut current);
        match current {
            Body::Stream(chunks) => match Body::collect(chunks) {
                Ok(v) => {
                    *self = Body::Bytes(v);
                    Ok(())
                },
                Err((e, rest)) => {
                    *self = Body::Stream(rest);
                    Err(e)
                },
            },
            other => {
                *self = other;
                Ok(())
            },
        }
    }

    /// Materialises the body: a file is read with `read_file`, a lazy
    /// sequence is read to its end. A materialised body is left as it is.
    pub fn load<F: Fn(&String) -> Result<Vec<u8>, Error>>(&mut self, read_file: &F) -> (r: Result<(), Error>)
        requires
            (*old(self)) is Path ==> read_file.requires((&(*old(self))->Path_0,)),
        ensures
            old(self).loads_to(*read_file, *final(self), r),
    {
        let mut current = Body::Empty;
        core::mem::swap(self, &mut current);
        match current {
            Body::Path(path) => {
                let read = read_file(&path);
                let ghost gread = read;
                match read {
                    Ok(v) => {
                        *self = Body::Bytes(v);
                        proof {
                            assert(old(self).path_loaded(gread, *self, Ok::<(), Error>(())));
                        }
                        Ok(())
                    },
                    Err(e) => {
                        *self = Body::Path(path);
                        proof {
                            assert(old(self).path_loaded(gread, *self, Err::<(), Error>(e)));
                        }
                        Err(e)
                    },
                }
            },
            Body::Stream(chunks) => {
                *self = Body::Stream(chunks);
                self.load_stream()
            },
            other => {
                *self = other;
                Ok(())
            },
        }
    }
}


impl Body {
    /// Loads the body and hands out its bytes; an empty body gives none.
    pub fn bytes<F: Fn(&String) -> Result<Vec<u8>, Error>>(self, read_file: &F) -> (r: Result<Vec<u8>, Error>)
        requires
            self is Path ==> read_file.requires((&self->Path_0,)),
        ensures
            self.is_loaded() ==> r is Ok && r->Ok_0@ == self.loaded_bytes(),
            exists|after: Body, lr: Result<(), Error>| #[trigger] self.loads_to(*read_file, after, lr)
                && (lr is Ok ==> r is Ok && r->Ok_0@ == after.loaded_bytes())
                && (lr is Err ==> r == Err::<Vec<u8>, Error>(lr->Err_0)),
    {
        let mut body = self;
        let lr = body.load(read_file);
        match lr {
            Err(e) => Err(e),
            Ok(()) => match body {
                Body::Bytes(v) => Ok(v),
                _ => Ok(Vec::new()),
            },
        }
    }

    /// A second, independent body with the same bytes; the body is loaded
    /// first, since a lazy sequence cannot be read twice.
    pub fn clone<F: Fn(&String) -> Result<Vec<u8>, Error>>(&mut self, read_file: &F) -> (r: Result<Body, Error>)
        requires
            (*old(self)) is Path ==> read_file.requires((&(*old(self))->Path_0,)),
        ensures
            exists|lr: Result<(), Error>| #[trigger] old(self).loads_to(*read_file, *final(self), lr)
                && (lr is Ok ==> r is Ok && r->Ok_0.is_loaded() && final(self).is_loaded()
                    && r->Ok_0.loaded_bytes() == final(self).loaded_bytes()
                    && (r->Ok_0 is Empty <==> (*final(self)) is Empty))
                && (lr is Err ==> r == Err::<Body, Error>(lr->Err_0)),
    {
        let lr = self.load(read_file);
        match lr {
            Err(e) => Err(e),
            Ok(()) => match self {
                Body::Bytes(v) => {
                    let c = v.clone();
                    proof {
                        assert(c@ =~= v@);
                    }
                    Ok(Body::Bytes(c))
                },
                _ => Ok(Body::Empty),
            },
        }
    }
}

/// How a body reaches a file: its bytes are written, the file it names is
/// copied, or nothing is done.
#[derive(Debug)]
pub enum Transfer {
    Write(Vec<u8>),
    Copy(String),
    Nothing,
}

impl Body {
    /// What storing the body takes. A lazy sequence is read first and the
    /// body keeps its bytes; the other bodies stay as they are.
    pub fn transfer(&mut self) -> (r: Result<Transfer, Error>)
        ensures
            match *old(self) {
                Body::Bytes(v) => *final(self) == *old(self) && r is Ok && r->Ok_0 is Write && r->Ok_0->Write_0@ == v@,
                Body::Path(p) => *final(self) == *old(self) && r is Ok && r->Ok_0 is Copy && r->Ok_0->Copy_0@ == p@,
                Body::Empty => *final(self) == *old(self) && r is Ok && r->Ok_0 is Nothing,
                Body::Stream(_) => exists|lr: Result<(), Error>| #[trigger] old(self).load_ensures(*final(self), lr)
                    && (lr is Ok ==> r is Ok && r->Ok_0 is Write && r->Ok_0->Write_0@ == final(self).loaded_bytes())
                    && (lr is Err ==> r == Err::<Transfer, Error>(lr->Err_0)),
            },
    {
        let stream = matches!(self, Body::Stream(_));
        if stream {
            let lr = self.load_stream();
            match lr {
                Err(e) => { return Err(e); },
                Ok(()) => {},
            }
        }
        match self {
            Body::Bytes(v) => {
                let c = v.clone();
                proof {
                    assert(c@ =~= v@);
                }
                Ok(Transfer::Write(c))
            },
            Body::Path(p) => Ok(Transfer::Copy(p.clone())),
            _ => Ok(Transfer::Nothing),
        }
    }
}

/// Loading is idempotent: on a materialised body `load` changes nothing and
/// succeeds, so the bytes handed out afterwards are the same; and a body
/// that one `load` materialised is left as it is by the next.
pub proof fn lemma_load_idempotent(b: Body, after: Body, r: Result<(), Error>, again: Body, r2: Result<(), Error>)
    requires
        b.load_ensures(after, r),
        r is Ok,
        after.load_ensures(again, r2),
    ensures
        after.is_loaded(),
        again == after,
        r2 is Ok,
        again.loaded_bytes() == after.loaded_bytes(),
        b.is_loaded() ==> after == b,
{
}

/// Out-of-band values attached to a package, one per key; inserting under a
/// key replaces what it held.
#[derive(Debug)]
pub struct Meta {
    entries: Vec<(String, String)>,
}

impl Meta {
    pub closed spec fn view(&self) -> Map<Seq<char>, Seq<char>> {
        Map::new(
            |k: Seq<char>| exists|i: int| 0 <= i < self.entries.len() && #[trigger] self.entries@[i].0@ == k,
            |k: Seq<char>| self.entries@[choose|i: int| 0 <= i < self.entries.len() && #[trigger] self.entries@[i].0@ == k].1@,
        )
    }

    pub closed spec fn wf(&self) -> bool {
        forall|i: int, j: int| 0 <= i < j < self.entries.len() ==> #[trigger] self.entries@[i].0@ != #[trigger] self.entries@[j].0@
    }

    pub fn new() -> (r: Meta)
        ensures
            r.wf(),
            r@ == Map::<Seq<char>, Seq<char>>::empty(),
    {
        let r = Meta { entries: Vec::new() };
        proof {
            assert(r@ =~= Map::<Seq<char>, Seq<char>>::empty());
        }
        r
    }

    fn position(&self, key: &String) -> (r: Option<usize>)
        ensures
            match r {
                Some(i) => i < self.entries.len() && self.entries@[i as int].0@ == key@,
                None => forall|j: int| 0 <= j < self.entries.len() ==> (#[trigger] self.entries@[j]).0@ != key@,
            },
    {
        let mut i: usize = 0;
        while i < self.entries.len()
            invariant
                i <= self.entries.len(),
                forall|j: int| 0 <= j < i ==> (#[trigger] self.entries@[j]).0@ != key@,
            decreases self.entries.len() - i,
        {
            if self.entries[i].0 == *key {
                return Some(i);
            }
            i = i + 1;
        }
        None
    }

    pub fn get(&self, key: &String) -> (r: Option<&String>)
        requires
            self.wf(),
        ensures
            match r {
                Some(v) => self@.contains_key(key@) && self@[key@] == v@,
                None => !self@.contains_key(key@),
            },
    {
        match self.position(key) {
            Some(i) => {
                proof {
                    let k = choose|j: int| 0 <= j < self.entries.len() && #[trigger] self.entries@[j].0@ == key@;
                    assert(k == i as int);
                }
                Some(&self.entries[i].1)
            },
            None => None,
        }
    }

    /// Sets `key` to `value` and returns what it held before, if anything.
    pub fn insert(&mut self, key: String, value: String) -> (r: Option<String>)
        requires
            old(self).wf(),
        ensures
            final(self).wf(),
            final(self)@ == old(self)@.insert(key@, value@),
            match r {
                Some(v) => old(self)@.contains_key(key@) && old(self)@[key@] == v@,
                None => !old(self)@.contains_key(key@),
            },
    {
        let ghost before = self.entries@;
        match self.position(&key) {
            Some(i) => {
                let ghost kv = key@;
                let ghost vv = value@;
                let previous = self.entries[i].1.clone();
                self.entries.set(i, (key, value));
                proof {
                    let k = choose|j: int| 0 <= j < before.len() && #[trigger] before[j].0@ == kv;
                    assert(k == i as int);
                    assert(self.wf()) by {
                        assert forall|a: int, b: int| 0 <= a < b < self.entries.len() implies #[trigger] self.entries@[a].0@ != #[trigger] self.entries@[b].0@ by {
                            assert(self.entries@[a].0@ == before[a].0@);
                            assert(self.entries@[b].0@ == before[b].0@);
                        }
                    }
                    assert forall|q: Seq<char>| #[trigger] self@.contains_key(q) <==> old(self)@.insert(kv, vv).contains_key(q) by {
                        if self@.contains_key(q) {
                            let j = choose|j: int| 0 <= j < self.entries.len() && #[trigger] self.entries@[j].0@ == q;
                            assert(before[j].0@ == q);
                        }
                        if old(self)@.contains_key(q) {
                            let j = choose|j: int| 0 <= j < before.len() && #[trigger] before[j].0@ == q;
                            assert(self.entries@[j].0@ == q);
                        }
                    }
                    assert forall|q: Seq<char>| #[trigger] self@.contains_key(q) implies self@[q] == old(self)@.insert(kv, vv)[q] by {
                        let j = choose|j: int| 0 <= j < self.entries.len() && #[trigger] self.entries@[j].0@ == q;
                        if q != kv {
                            let j0 = choose|j: int| 0 <= j < before.len() && #[trigger] before[j].0@ == q;
                            assert(self.entries@[j0].0@ == q);
                            assert(j0 == j);
                        }
                    }
                    assert(self@ =~= old(self)@.insert(kv, vv));
                }
                Some(previous)
            },
            None => {
                let ghost kv = key@;
                let ghost vv = value@;
                self.entries.push((key, value));
                proof {
                    let n = before.len() as int;
                    assert(self.entries@[n].0@ == kv);
                    assert forall|q: Seq<char>| #[trigger] self@.contains_key(q) <==> old(self)@.insert(kv, vv).contains_key(q) by {
                        if self@.contains_key(q) {
                            let j = choose|j: int| 0 <= j < self.entries.len() && #[trigger] self.entries@[j].0@ == q;
                            if j < n {
                                assert(before[j].0@ == q);
                            }
                        }
                        if old(self)@.contains_key(q) {
                            let j = choose|j: int| 0 <= j < before.len() && #[trigger] before[j].0@ == q;
                            assert(self.entries@[j].0@ == q);
                        }
                    }
                    assert forall|q: Seq<char>| #[trigger] self@.contains_key(q) implies self@[q] == old(self)@.insert(kv, vv)[q] by {
                        let j = choose|j: int| 0 <= j < self.entries.len() && #[trigger] self.entries@[j].0@ == q;
                        if q == kv {
                            assert(j == n);
                        } else {
                            let j0 = choose|j: int| 0 <= j < before.len() && #[trigger] before[j].0@ == q;
                            assert(self.entries@[j0].0@ == q);
                            assert(j0 == j);
                        }
                    }
                    assert(self@ =~= old(self)@.insert(kv, vv));
                }
                None
            },
        }
    }
}


/// The unit of data bound for storage: a logical relative path, a MIME type,
/// a body and metadata.
#[derive(Debug)]
pub struct Package {
    path: String,
    mime: String,
    content: Body,
    meta: Meta,
}

impl Package {
    pub closed spec fn path_spec(&self) -> Seq<char> {
        self.path@
    }

    pub closed spec fn mime_spec(&self) -> Seq<char> {
        self.mime@
    }

    pub closed spec fn content_spec(&self) -> Body {
        self.content
    }

    pub closed spec fn meta_spec(&self) -> Map<Seq<char>, Seq<char>> {
        self.meta@
    }

    pub closed spec fn wf(&self) -> bool {
        self.meta.wf()
    }

    pub fn new(path: String, mime: String, body: Body) -> (r: Package)
        ensures
            r.wf(),
            r.path_spec() == path@,
            r.mime_spec() == mime@,
            r.content_spec() == body,
            r.meta_spec() == Map::<Seq<char>, Seq<char>>::empty(),
    {
        Package { path, mime, content: body, meta: Meta::new() }
    }

    pub fn path(&self) -> (r: &String)
        ensures
            r@ == self.path_spec(),
    {
        &self.path
    }

    pub fn set_path(&mut self, path: String)
        ensures
            final(self).path_spec() == path@,
            final(self).mime_spec() == old(self).mime_spec(),
            final(self).content_spec() == old(self).content_spec(),
            final(self).meta_spec() == old(self).meta_spec(),
            final(self).wf() == old(self).wf(),
    {
        self.path = path;
    }

    /// The file name: the last component of the path.
    pub fn name(&self) -> (r: Option<String>)
        ensures
            match r {
                Some(n) => file_name_of(self.path_spec()) == Some(n@),
                None => file_name_of(self.path_spec()) is None,
            },
    {
        file_name(self.path.as_str())
    }

    pub fn mime(&self) -> (r: &String)
        ensures
            r@ == self.mime_spec(),
    {
        &self.mime
    }

    pub fn content(&self) -> (r: &Body)
        ensures
            *r == self.content_spec(),
    {
        &self.content
    }

    pub fn set_content(&mut self, content: Body)
        ensures
            final(self).content_spec() == content,
            final(self).path_spec() == old(self).path_spec(),
            final(self).mime_spec() == old(self).mime_spec(),
            final(self).meta_spec() == old(self).meta_spec(),
            final(self).wf() == old(self).wf(),
    {
        self.content = content;
    }

    /// Takes the body out, leaving an empty one.
    pub fn take_content(&mut self) -> (r: Body)
        ensures
            r == old(self).content_spec(),
            final(self).content_spec() == Body::Empty,
            final(self).path_spec() == old(self).path_spec(),
            final(self).mime_spec() == old(self).mime_spec(),
            final(self).meta_spec() == old(self).meta_spec(),
            final(self).wf() == old(self).wf(),
    {
        let mut body = Body::Empty;
        core::mem::swap(&mut self.content, &mut body);
        body
    }

    pub fn meta(&self) -> (r: &Meta)
        ensures
            r@ == self.meta_spec(),
            self.wf() ==> r.wf(),
    {
        &self.meta
    }

    /// Sets a metadata entry and returns what the key held before.
    pub fn insert_meta(&mut self, key: String, value: String) -> (r: Option<String>)
        requires
            old(self).wf(),
        ensures
            final(self).wf(),
            final(self).meta_spec() == old(self).meta_spec().insert(key@, value@),
            match r {
                Some(v) => old(self).meta_spec().contains_key(key@) && old(self).meta_spec()[key@] == v@,
                None => !old(self).meta_spec().contains_key(key@),
            },
            final(self).path_spec() == old(self).path_spec(),
            final(self).mime_spec() == old(self).mime_spec(),
            final(self).content_spec() == old(self).content_spec(),
    {
        self.meta.insert(key, value)
    }

    /// A second package with the same path, type, metadata and bytes; the body
    /// is loaded first.
    pub fn clone<F: Fn(&String) -> Result<Vec<u8>, Error>>(&mut self, read_file: &F) -> (r: Result<Package, Error>)
        requires
            old(self).wf(),
            old(self).content_spec() is Path ==> read_file.requires((&old(self).content_spec()->Path_0,)),
        ensures
            final(self).wf(),
            final(self).path_spec() == old(self).path_spec(),
            final(self).mime_spec() == old(self).mime_spec(),
            final(self).meta_spec() == old(self).meta_spec(),
            exists|lr: Result<(), Error>| #[trigger] old(self).content_spec().loads_to(*read_file, final(self).content_spec(), lr)
                && (lr is Ok ==> r is Ok && r->Ok_0.wf()
                    && r->Ok_0.path_spec() == old(self).path_spec()
                    && r->Ok_0.mime_spec() == old(self).mime_spec()
                    && r->Ok_0.meta_spec() == old(self).meta_spec()
                    && r->Ok_0.content_spec().is_loaded()
                    && r->Ok_0.content_spec().loaded_bytes() == final(self).content_spec().loaded_bytes())
                && (lr is Err ==> r == Err::<Package, Error>(lr->Err_0)),
    {
        let content = self.content.clone(read_file);
        match content {
            Err(e) => Err(e),
            Ok(body) => {
                let meta = self.meta.duplicate();
                Ok(Package { path: self.path.clone(), mime: self.mime.clone(), content: body, meta })
            },
        }
    }
}

impl Meta {
    /// A copy with the same entries.
    pub fn duplicate(&self) -> (r: Meta)
        ensures
            self.wf() ==> r.wf() && r@ == self@,
    {
        let mut entries: Vec<(String, String)> = Vec::new();
        let mut i: usize = 0;
        while i < self.entries.len()
            invariant
                i <= self.entries.len(),
                entries.len() == i,
                forall|j: int| 0 <= j < i ==> (#[trigger] entries@[j]).0@ == self.entries@[j].0@
                    && entries@[j].1@ == self.entries@[j].1@,
            decreases self.entries.len() - i,
        {
            let k = self.entries[i].0.clone();
            let v = self.entries[i].1.clone();
            entries.push((k, v));
            i = i + 1;
        }
        let r = Meta { entries };
        proof {
          if self.wf() {
            assert(r.wf()) by {
                assert forall|a: int, b: int| 0 <= a < b < r.entries.len() implies #[trigger] r.entries@[a].0@ != #[trigger] r.entries@[b].0@ by {
                    assert(r.entries@[a].0@ == self.entries@[a].0@);
                    assert(r.entries@[b].0@ == self.entries@[b].0@);
                }
            }
            assert forall|q: Seq<char>| #[trigger] r@.contains_key(q) <==> self@.contains_key(q) by {
                if r@.contains_key(q) {
                    let j = choose|j: int| 0 <= j < r.entries.len() && #[trigger] r.entries@[j].0@ == q;
                    assert(self.entries@[j].0@ == q);
                }
                if self@.contains_key(q) {
                    let j = choose|j: int| 0 <= j < self.entries.len() && #[trigger] self.entries@[j].0@ == q;
                    assert(r.entries@[j].0@ == q);
                }
            }
            assert forall|q: Seq<char>| #[trigger] r@.contains_key(q) implies r@[q] == self@[q] by {
                let j = choose|j: int| 0 <= j < r.entries.len() && #[trigger] r.entries@[j].0@ == q;
                let j0 = choose|j: int| 0 <= j < self.entries.len() && #[trigger] self.entries@[j].0@ == q;
                assert(r.entries@[j0].0@ == q);
                assert(j == j0);
            }
            assert(r@ =~= self@);
          }
        }
        r
    }
}

/// Duplicating a package for a fan-out: a lazy sequence of chunks is read
/// first, since it cannot be read twice; a file body is shared by path, as a
/// file can be read again.
impl AsyncClone for Package {
    open spec fn clone_ensures(&self, after: Package, r: Result<Package, Error>) -> bool {
        &&& after.path_spec() == self.path_spec()
        &&& after.mime_spec() == self.mime_spec()
        &&& after.meta_spec() == self.meta_spec()
        &&& after.wf() == self.wf()
        &&& match self.content_spec() {
            Body::Stream(_) => exists|lr: Result<(), Error>| #[trigger] self.content_spec().load_ensures(after.content_spec(), lr)
                && (lr is Err ==> r == Err::<Package, Error>(lr->Err_0))
                && (lr is Ok ==> r is Ok),
            _ => after.content_spec() == self.content_spec() && r is Ok,
        }
        &&& r is Ok ==> r->Ok_0.path_spec() == self.path_spec()
            && r->Ok_0.mime_spec() == self.mime_spec()
            && (self.wf() ==> r->Ok_0.wf() && r->Ok_0.meta_spec() == self.meta_spec())
            && match after.content_spec() {
                Body::Bytes(v) => r->Ok_0.content_spec() is Bytes && r->Ok_0.content_spec().loaded_bytes() == v@,
                _ => r->Ok_0.content_spec() == after.content_spec(),
            }
    }

    fn async_clone(&mut self) -> (r: Result<Package, Error>) {
        if matches!(self.content, Body::Stream(_)) {
            let lr = self.content.load_stream();
            match lr {
                Err(e) => { return Err(e); },
                Ok(()) => {},
            }
        }
        let body = match &self.content {
            Body::Bytes(v) => {
                let c = v.clone();
                proof {
                    assert(c@ =~= v@);
                }
                Body::Bytes(c)
            },
            Body::Path(p) => Body::Path(p.clone()),
            Body::Stream(_) => Body::Empty,
            Body::Empty => Body::Empty,
        };
        let meta = self.meta.duplicate();
        Ok(Package { path: self.path.clone(), mime: self.mime.clone(), content: body, meta })
    }
}


/// A value that can be turned into a package.
pub trait IntoPackage: Sized {
    spec fn into_package_ensures(&self, r: Result<Package, Error>) -> bool;

    fn into_package(self) -> (r: Result<Package, Error>)
        ensures
            self.into_package_ensures(r),
    ;
}

impl IntoPackage for Package {
    open spec fn into_package_ensures(&self, r: Result<Package, Error>) -> bool {
        r == Ok::<Package, Error>(*self)
    }

    fn into_package(self) -> (r: Result<Package, Error>) {
        Ok(self)
    }
}

impl<L: IntoPackage, R: IntoPackage> IntoPackage for Either<L, R> {
    open spec fn into_package_ensures(&self, r: Result<Package, Error>) -> bool {
        match self {
            Either::Left(l) => l.into_package_ensures(r),
            Either::Right(x) => x.into_package_ensures(r),
        }
    }

    fn into_package(self) -> (r: Result<Package, Error>) {
        match self {
            Either::Left(l) => l.into_package(),
            Either::Right(x) => x.into_package(),
        }
    }
}

/// A stage whose output is turned into a package.
pub struct IntoPackageWork<T> {
    pub worker: T,
}

impl<T> IntoPackageWork<T> {
    pub fn new(worker: T) -> (r: IntoPackageWork<T>)
        ensures
            r.worker == worker,
    {
        IntoPackageWork { worker }
    }
}

impl<C, I, T: Work<C, I>> Work<C, I> for IntoPackageWork<T> where T::Output: IntoPackage {
    type Output = Package;

    open spec fn call_requires(&self, ctx: C, input: I) -> bool {
        self.worker.call_requires(ctx, input)
    }

    open spec fn call_ensures(&self, ctx: C, input: I, out: Result<Package, Error>) -> bool {
        exists|mid: Result<T::Output, Error>| #[trigger] self.worker.call_ensures(ctx, input, mid)
            && match mid {
                Ok(v) => v.into_package_ensures(out),
                Err(e) => out == Err::<Package, Error>(e),
            }
    }

    fn call(&self, ctx: &C, input: I) -> (r: Result<Package, Error>) {
        match self.worker.call(ctx, input) {
            Ok(v) => v.into_package(),
            Err(e) => Err(e),
        }
    }
}

/// A test on a value.
pub trait Matcher<T> {
    spec fn matches(&self, value: T) -> bool;

    fn is_match(&self, value: &T) -> (r: bool)
        ensures
            r == self.matches(*value),
    ;
}

/// A string matches the string equal to it.
impl Matcher<String> for String {
    open spec fn matches(&self, value: String) -> bool {
        value@ == self@
    }

    fn is_match(&self, value: &String) -> (r: bool) {
        *value == *self
    }
}

/// Matches packages whose path fits a glob pattern.
pub struct Glob(pub String);

pub fn match_glob(pattern: String) -> (r: Glob)
    ensures
        r.0 == pattern,
{
    Glob(pattern)
}

impl Matcher<Package> for Glob {
    open spec fn matches(&self, value: Package) -> bool {
        glob_matches(self.0@, value.path_spec())
    }

    fn is_match(&self, value: &Package) -> (r: bool) {
        glob_match(self.0.as_str(), value.path().as_str())
    }
}

/// Matches packages of one MIME type.
pub struct MimeMatcher(pub String);

pub fn match_mime(mime: String) -> (r: MimeMatcher)
    ensures
        r.0 == mime,
{
    MimeMatcher(mime)
}

impl Matcher<Package> for MimeMatcher {
    open spec fn matches(&self, value: Package) -> bool {
        value.mime_spec() == self.0@
    }

    fn is_match(&self, value: &Package) -> (r: bool) {
        *value.mime() == self.0
    }
}

} // verus!
