use pipes::{
    AsyncClone, dest_fn, match_glob, match_mime, Action, And, Body, Error, FileResolver, FsDest, FsSource, FsWork,
    IntoPackage, IntoPackageWork, KravlDestination, Matcher, Meta, OpenPaths, Package, Scheduler,
    SourceUnit, Unit, Work, WriteMode,
};

fn no_files(_: &String) -> Result<Vec<u8>, Error> {
    Err(Error::new("no file system here".to_string()))
}

fn err(msg: &str) -> Error {
    Error::new(msg.to_string())
}

#[test]
fn bounded_concurrency_liveness() {
    let total = 7u64;
    let mut s = Scheduler::new(3);
    let mut pulled = 0u64;
    let mut max_running = 0usize;
    let mut outputs = 0u64;
    loop {
        match s.next_action() {
            Action::Pull => {
                let got = pulled < total;
                if got {
                    pulled += 1;
                }
                s.on_pulled(got);
            }
            Action::Wait => {
                s.on_completed();
                outputs += 1;
            }
            Action::Finish => break,
        }
        max_running = max_running.max(s.in_flight());
        assert!(s.in_flight() <= s.limit());
    }
    assert_eq!(outputs, total);
    assert_eq!(s.finished(), total);
    assert_eq!(s.started(), total);
    assert_eq!(max_running, 3);
}

#[test]
fn scheduler_waits_when_full() {
    let mut s = Scheduler::new(1);
    assert!(s.next_action() == Action::Pull);
    s.on_pulled(true);
    assert!(s.next_action() == Action::Wait);
    s.on_completed();
    assert!(s.next_action() == Action::Pull);
    s.on_pulled(false);
    assert!(s.next_action() == Action::Finish);
}

#[test]
fn exclusive_sink_writer() {
    let mut open = OpenPaths::new();
    let p = "out/a.txt".to_string();
    assert!(open.try_acquire(&p, 1));
    assert!(!open.try_acquire(&p, 2));
    assert!(open.is_open(&p));
    let q = "out/b.txt".to_string();
    assert!(open.try_acquire(&q, 2));
    open.release(&p, 2);
    assert!(open.is_open(&p));
    open.release(&p, 1);
    assert!(!open.is_open(&p));
    assert!(open.try_acquire(&p, 2));
}

#[test]
fn body_load_idempotence() {
    let mut b = Body::Bytes(vec![1, 2, 3]);
    assert!(b.load(&no_files).is_ok());
    assert!(b.load(&no_files).is_ok());
    assert_eq!(b.bytes(&no_files).unwrap(), vec![1, 2, 3]);
}

#[test]
fn body_stream_is_read_once() {
    let mut b = Body::Stream(vec![Ok(vec![1]), Ok(vec![2, 3])]);
    assert!(b.load(&no_files).is_ok());
    assert!(matches!(b, Body::Bytes(_)));
    assert_eq!(b.bytes(&no_files).unwrap(), vec![1, 2, 3]);
}

#[test]
fn body_stream_error_stops_load() {
    let mut b = Body::Stream(vec![Ok(vec![1]), Err(err("cut")), Ok(vec![4])]);
    let r = b.load(&no_files);
    assert_eq!(r.unwrap_err().inner(), "cut");
    match b {
        Body::Stream(rest) => assert_eq!(rest.len(), 1),
        _ => panic!("the rest stays unread"),
    }
}

#[test]
fn body_path_uses_reader() {
    let read = |p: &String| -> Result<Vec<u8>, Error> { Ok(p.as_bytes().to_vec()) };
    let mut b = Body::Path("xy".to_string());
    assert!(b.load(&read).is_ok());
    assert_eq!(b.bytes(&read).unwrap(), b"xy".to_vec());
    let failing = Body::Path("z".to_string());
    assert_eq!(failing.bytes(&no_files).unwrap_err().inner(), "no file system here");
}

#[test]
fn empty_body_has_no_bytes() {
    assert!(Body::Empty.bytes(&no_files).unwrap().is_empty());
}

#[test]
fn body_clone_loads_first() {
    let mut b = Body::Stream(vec![Ok(vec![7, 8])]);
    let c = b.clone(&no_files).unwrap();
    assert_eq!(c.bytes(&no_files).unwrap(), vec![7, 8]);
    assert_eq!(b.bytes(&no_files).unwrap(), vec![7, 8]);
}

#[test]
fn meta_insert_returns_previous() {
    let mut m = Meta::new();
    assert!(m.insert("task".to_string(), "a".to_string()).is_none());
    assert_eq!(m.insert("task".to_string(), "b".to_string()).unwrap(), "a");
    assert_eq!(m.get(&"task".to_string()).unwrap(), "b");
    assert!(m.get(&"other".to_string()).is_none());
}

#[test]
fn package_accessors() {
    let mut p = Package::new("docs/readme.txt".to_string(), "text/plain".to_string(), Body::Bytes(vec![1]));
    assert_eq!(p.path(), "docs/readme.txt");
    assert_eq!(p.name().unwrap(), "readme.txt");
    assert_eq!(p.mime(), "text/plain");
    p.set_path("b.txt".to_string());
    assert_eq!(p.path(), "b.txt");
    assert!(p.insert_meta("k".to_string(), "v".to_string()).is_none());
    assert_eq!(p.meta().get(&"k".to_string()).unwrap(), "v");
    let body = p.take_content();
    assert!(matches!(body, Body::Bytes(_)));
    assert!(matches!(p.content(), Body::Empty));
    p.set_content(Body::Bytes(vec![5]));
    let c = p.clone(&no_files).unwrap();
    assert_eq!(c.path(), "b.txt");
    assert_eq!(c.meta().get(&"k".to_string()).unwrap(), "v");
}

#[test]
fn package_async_clone_reads_stream() {
    let mut p = Package::new("a".to_string(), "text/plain".to_string(), Body::Stream(vec![Ok(vec![1, 2])]));
    let c = p.async_clone().unwrap();
    assert_eq!(c.take_content_bytes(), vec![1, 2]);
}

trait TakeBytes {
    fn take_content_bytes(self) -> Vec<u8>;
}

impl TakeBytes for Package {
    fn take_content_bytes(mut self) -> Vec<u8> {
        self.take_content().bytes(&no_files).unwrap()
    }
}

#[test]
fn glob_and_mime_matchers() {
    let p = Package::new("images/cat.png".to_string(), "image/png".to_string(), Body::Empty);
    assert!(match_glob("**/*.png".to_string()).is_match(&p));
    assert!(!match_glob("**/*.jpg".to_string()).is_match(&p));
    assert!(match_mime("image/png".to_string()).is_match(&p));
    assert!(!match_mime("text/plain".to_string()).is_match(&p));
    assert!("abc".to_string().is_match(&"abc".to_string()));
}

#[test]
fn file_resolver_patterns() {
    let all = FileResolver::new("/data".to_string());
    assert!(all.accepts(&"/data/x.bin".to_string()));
    let r = FileResolver::new("/data".to_string()).pattern("*.txt".to_string());
    assert_eq!(r.root(), "/data");
    assert!(r.accepts(&"/data/sub/notes.txt".to_string()));
    assert!(!r.accepts(&"/data/sub/notes.md".to_string()));
}

#[test]
fn fs_work_builds_file_package() {
    let w = FsWork::new("/root/dir".to_string());
    let p = w.call(&(), "img/a.png".to_string()).unwrap();
    assert_eq!(p.path(), "img/a.png");
    assert_eq!(p.mime(), "image/png");
    match p.content() {
        Body::Path(full) => assert!(full.ends_with("a.png") && full.starts_with("/root/dir")),
        _ => panic!("a file body"),
    }
    let unknown = w.call(&(), "x.unknownext".to_string()).unwrap();
    assert_eq!(unknown.mime(), "application/octet-stream");
}

#[test]
fn fs_source_package() {
    let s = FsSource::new("/srv".to_string()).pattern("*.json".to_string());
    let p = s.package("a/b.json".to_string());
    assert_eq!(p.mime(), "application/json");
    assert!(s.resolver_ref().accepts(&"/srv/a/b.json".to_string()));
}

#[test]
fn fs_dest_target() {
    let d = FsDest::new("/out".to_string());
    let p = Package::new("a/../b/c.txt".to_string(), "text/plain".to_string(), Body::Empty);
    assert_eq!(d.target(&p), "/out/b/c.txt");
    assert_eq!(d.root(), "/out");
}

#[test]
fn sink_plan_append_and_truncate() {
    let d = KravlDestination::new("/out".to_string()).append_when("application/json".to_string());
    let json = Package::new("log.json".to_string(), "application/json".to_string(), Body::Bytes(b"{}".to_vec()));
    assert!(d.append(&json));
    let plan = d.plan(json, &no_files).unwrap();
    assert!(plan.mode == WriteMode::Append);
    assert_eq!(plan.bytes, b"{}\n".to_vec());
    assert_eq!(plan.path, "/out/log.json");
    let text = Package::new("a.txt".to_string(), "text/plain".to_string(), Body::Bytes(b"hi".to_vec()));
    let plan = d.plan(text, &no_files).unwrap();
    assert!(plan.mode == WriteMode::Truncate);
    assert_eq!(plan.bytes, b"hi".to_vec());
}

#[test]
fn sink_plan_reports_read_error() {
    let d = KravlDestination::new("/out".to_string());
    let p = Package::new("a.txt".to_string(), "text/plain".to_string(), Body::Path("/nope".to_string()));
    assert_eq!(d.plan(p, &no_files).unwrap_err().inner(), "no file system here");
}

#[test]
fn source_unit_collects_errors() {
    let seen = std::cell::RefCell::new(Vec::new());
    let dest = dest_fn(|x: u64| -> Result<(), Error> {
        seen.borrow_mut().push(x);
        if x == 3 { Err(Error::new("dest".to_string())) } else { Ok(()) }
    });
    let source: Vec<Result<u64, Error>> = vec![Ok(1), Err(err("src")), Ok(3)];
    let errors = SourceUnit::new(source, dest).run(&());
    assert_eq!(*seen.borrow(), vec![1, 3]);
    let msgs: Vec<&str> = errors.iter().map(|e| e.inner().as_str()).collect();
    assert_eq!(msgs, vec!["src", "dest"]);
}

#[test]
fn and_unit_runs_both() {
    let a: Vec<Result<u64, Error>> = vec![Err(err("a"))];
    let b: Vec<Result<u64, Error>> = vec![Err(err("b"))];
    let ok = |_: u64| -> Result<(), Error> { Ok(()) };
    let u = And::new(SourceUnit::new(a, dest_fn(ok)), SourceUnit::new(b, dest_fn(ok)));
    let errors = u.run(&());
    let msgs: Vec<&str> = errors.iter().map(|e| e.inner().as_str()).collect();
    assert_eq!(msgs, vec!["a", "b"]);
}

#[test]
fn into_package_work_converts_output() {
    let w = IntoPackageWork::new(FsWork::new("/r".to_string()));
    let p = w.call(&(), "a.txt".to_string()).unwrap();
    assert_eq!(p.mime(), "text/plain");
    let q = Package::new("z".to_string(), "text/plain".to_string(), Body::Empty).into_package().unwrap();
    assert_eq!(q.path(), "z");
}

#[test]
fn fs_and_cache_paths() {
    let fs = pipes::Fs::new("/store".to_string());
    assert_eq!(fs.file_path(&"a/./b.txt".to_string()), "/store/a/b.txt");
    let cached = pipes::Cached::new("/cache".to_string(), pipes::NoopWork);
    let p = Package::new("x/y.bin".to_string(), "application/octet-stream".to_string(), Body::Empty);
    assert_eq!(cached.cache_path(&p), "/cache/x/y.bin");
}

#[test]
fn pipeline_wrap_decorates_stage() {
    let p = pipes::Pipeline::new(vec![Ok::<u64, Error>(1), Ok(2)]);
    let wrapped = p.wrap(|ctx: &(), x: u64, inner: &pipes::NoopWork| -> Result<u64, Error> {
        let v: u64 = Work::<(), u64>::call(inner, ctx, x)?;
        Ok(v + 100)
    });
    let out = pipes::Source::create_stream(wrapped, &());
    let out: Vec<u64> = out.into_iter().map(|r| r.unwrap()).collect();
    assert_eq!(out, vec![101, 102]);
}

#[test]
fn body_transfer_by_kind() {
    let mut b = Body::Bytes(vec![1, 2]);
    match b.transfer().unwrap() {
        pipes::Transfer::Write(v) => assert_eq!(v, vec![1, 2]),
        _ => panic!("bytes are written"),
    }
    let mut p = Body::Path("/in/a.txt".to_string());
    match p.transfer().unwrap() {
        pipes::Transfer::Copy(from) => assert_eq!(from, "/in/a.txt"),
        _ => panic!("a file is copied"),
    }
    let mut s = Body::Stream(vec![Ok(vec![3]), Ok(vec![4])]);
    match s.transfer().unwrap() {
        pipes::Transfer::Write(v) => assert_eq!(v, vec![3, 4]),
        _ => panic!("a stream is read and written"),
    }
    assert!(matches!(s, Body::Bytes(_)));
    assert!(matches!(Body::Empty.transfer().unwrap(), pipes::Transfer::Nothing));
    let mut bad = Body::Stream(vec![Err(err("net"))]);
    assert_eq!(bad.transfer().unwrap_err().inner(), "net");
}

#[test]
fn empty_sources_give_nothing() {
    let source: Vec<Result<u64, Error>> = Vec::new();
    let out = pipes::Source::create_stream(pipes::Pipeline::new(source), &());
    assert!(out.is_empty());
    let nested: Vec<Result<Vec<Result<u64, Error>>, Error>> = vec![Ok(Vec::new())];
    assert!(pipes::Source::create_stream(pipes::Flatten::new(nested), &()).is_empty());
    let s = Scheduler::new(2);
    assert!(s.next_action() == Action::Pull);
}

#[test]
fn error_cause_chain() {
    let root = Error::new("disk full".to_string());
    let e = Error::with_cause("write failed".to_string(), root);
    assert_eq!(e.inner(), "write failed");
    assert_eq!(e.cause().unwrap().inner(), "disk full");
    assert!(e.cause().unwrap().cause().is_none());
}
