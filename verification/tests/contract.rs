//! The contract of guarded single-object operations, against a cluster kept in memory.
//!
//! The cluster takes the sub-ops that the crate prepares, in turn and all or none, and answers
//! as an OSD does. Its clock moves only when a test says so.

use rados_primitives::election::{Acquire, Action, Event};
use rados_primitives::entries::OmapEntries;
use rados_primitives::error::{outcome, RadosError};
use rados_primitives::lock::{
    lock_exclusive_call, lock_exclusive_outcome, renew_call, renew_outcome, LockCall, Locker,
};
use rados_primitives::op::{ReadStep, WriteError, WriteOp, WriteStep};
use rados_primitives::read::{
    get_op, get_outcome, page_op, page_outcome, read_outcome, OmapFound, Page, ReadReply,
};
use rados_primitives::write::{write_once_op, write_outcome};
use rados_primitives::{
    epoch_bytes, errno, Election, Fence, Guard, Mutation, Rejected, Version, Write,
};
use std::cell::{Cell, RefCell};
use std::collections::BTreeMap;
use std::time::Duration;

const EBLOCKLISTED: i32 = 108;
const EINVAL: i32 = 22;

#[derive(Clone, Default)]
struct Object {
    data: Vec<u8>,
    omap: BTreeMap<Vec<u8>, Vec<u8>>,
    xattrs: BTreeMap<String, Vec<u8>>,
    version: u64,
}

struct Hold {
    client: String,
    cookie: String,
    addr: String,
    expires: u64,
}

#[derive(Default)]
struct Cluster {
    objects: RefCell<BTreeMap<String, Object>>,
    leases: RefCell<BTreeMap<(String, String), Hold>>,
    blocklist: RefCell<Vec<String>>,
    now: Cell<u64>,
    version: Cell<u64>,
    /// What the monitor answers to `osd blocklist add`, where it does not allow it.
    blocklist_error: Cell<Option<i32>>,
}

struct Client<'c> {
    cluster: &'c Cluster,
    id: u64,
}

/// What one sub-op does to an object, which may not exist.
fn run(object: &mut Option<Object>, step: &WriteStep) -> Result<(), RadosError> {
    match *step {
        WriteStep::AssertVersion(0) => return Err(RadosError::Rados(EINVAL)),
        WriteStep::AssertVersion(version) => {
            let at = object.as_ref().map_or(0, |o| o.version);
            if version < at {
                return Err(RadosError::Rados(errno::ERANGE));
            }
            if version > at {
                return Err(RadosError::Rados(errno::EOVERFLOW));
            }
        }
        WriteStep::AssertExists => {
            object.as_ref().ok_or(RadosError::NotFound)?;
        }
        WriteStep::OmapEquals { key, value } => {
            let object = object.as_ref().ok_or(RadosError::NotFound)?;
            if object.omap.get(key).map_or(&b""[..], |v| v) != value {
                return Err(RadosError::Rados(errno::ECANCELED));
            }
        }
        WriteStep::XattrEquals { name, value } => {
            let object = object.as_ref().ok_or(RadosError::NotFound)?;
            if object.xattrs.get(name).map_or(&b""[..], |v| v) != value {
                return Err(RadosError::Rados(errno::ECANCELED));
            }
        }
        WriteStep::Create { exclusive } => {
            if exclusive && object.is_some() {
                return Err(RadosError::AlreadyExists);
            }
            object.get_or_insert_with(Object::default);
        }
        WriteStep::WriteFull(data) => {
            object.get_or_insert_with(Object::default).data = data.to_vec();
        }
        WriteStep::Append(data) => {
            object
                .get_or_insert_with(Object::default)
                .data
                .extend_from_slice(data);
        }
        WriteStep::OmapSet(entries) => {
            let object = object.get_or_insert_with(Object::default);
            for (key, value) in entries {
                object.omap.insert(key.to_vec(), value.to_vec());
            }
        }
        WriteStep::OmapRemoveKeys(keys) => {
            let object = object.as_mut().ok_or(RadosError::NotFound)?;
            for key in keys {
                object.omap.remove(*key);
            }
        }
        WriteStep::OmapRemoveRange { begin, end } => {
            let object = object.as_mut().ok_or(RadosError::NotFound)?;
            object
                .omap
                .retain(|key, _| key.as_slice() < begin || key.as_slice() >= end);
        }
        WriteStep::SetXattr { name, value } => {
            object
                .get_or_insert_with(Object::default)
                .xattrs
                .insert(name.to_owned(), value.to_vec());
        }
        WriteStep::Remove => {
            object.take().ok_or(RadosError::NotFound)?;
        }
    }
    Ok(())
}

impl Cluster {
    fn client(&self, id: u64) -> Client<'_> {
        Client { cluster: self, id }
    }

    fn sleep(&self, seconds: u64) {
        self.now.set(self.now.get() + seconds);
    }
}

impl Client<'_> {
    fn addr(&self) -> String {
        format!("v1:10.0.0.{}:0/{}", self.id, 1000 + self.id)
    }

    fn operate(&self, oid: &str, op: &WriteOp) -> Result<(), WriteError> {
        let fail = |error| WriteError {
            error,
            failed_compare: None,
        };
        if self.cluster.blocklist.borrow().contains(&self.addr()) {
            return Err(fail(RadosError::Rados(EBLOCKLISTED)));
        }
        let mut objects = self.cluster.objects.borrow_mut();
        let mut object = objects.get(oid).cloned();
        for (place, step) in op.steps().iter().enumerate() {
            run(&mut object, step).map_err(|error| WriteError {
                error,
                failed_compare: (matches!(step, WriteStep::OmapEquals { .. })
                    && error == RadosError::Rados(errno::ECANCELED))
                .then_some(place),
            })?;
        }
        self.cluster.version.set(self.cluster.version.get() + 1);
        match object {
            Some(mut object) => {
                object.version = self.cluster.version.get();
                objects.insert(oid.to_owned(), object);
            }
            None => {
                objects.remove(oid);
            }
        }
        Ok(())
    }

    fn write(&self, oid: &str, w: Write<'_>) -> Result<(), Rejected> {
        let (op, guards) = w.prepare()?;
        write_outcome(&guards, self.operate(oid, &op))
    }

    fn write_once(&self, oid: &str, data: &[u8]) -> Result<(), Rejected> {
        outcome(
            self.operate(oid, &write_once_op(data))
                .map_err(|err| err.error),
        )
    }

    fn read(&self, oid: &str, offset: usize, len: usize) -> Result<Vec<u8>, Rejected> {
        let mut buf = vec![0u8; len];
        let objects = self.cluster.objects.borrow();
        let reply = objects.get(oid).ok_or(RadosError::NotFound).map(|object| {
            let held = &object.data[offset.min(object.data.len())..];
            let n = held.len().min(len);
            buf[..n].copy_from_slice(&held[..n]);
            n
        });
        read_outcome(buf, reply)
    }

    fn stat(&self, oid: &str) -> Result<usize, Rejected> {
        let objects = self.cluster.objects.borrow();
        outcome(
            objects
                .get(oid)
                .map(|o| o.data.len())
                .ok_or(RadosError::NotFound),
        )
    }

    fn omap_page(
        &self,
        oid: &str,
        prefix: &[u8],
        start_after: &[u8],
        limit: u32,
        at: Option<Version>,
    ) -> Result<Page, Rejected> {
        let steps = page_op(prefix, start_after, limit, at)?;
        page_outcome(self.run_page(oid, &steps), at)
    }

    fn run_page(
        &self,
        oid: &str,
        steps: &[ReadStep],
    ) -> Result<ReadReply<OmapFound>, RadosError> {
        let objects = self.cluster.objects.borrow();
        let object = objects.get(oid).ok_or(RadosError::NotFound)?;
        let mut found = OmapFound {
            entries: OmapEntries::new(),
            more: false,
        };
        for step in steps {
            match *step {
                ReadStep::AssertVersion(version) => {
                    run(&mut Some(object.clone()), &WriteStep::AssertVersion(version))?
                }
                ReadStep::OmapValues {
                    start_after,
                    prefix,
                    max,
                } => {
                    let all: Vec<_> = object
                        .omap
                        .iter()
                        .filter(|(key, _)| key.starts_with(prefix) && key.as_slice() > start_after)
                        .map(|(key, value)| (key.clone(), value.clone()))
                        .collect();
                    found.more = all.len() > max as usize;
                    // Handed over backwards: a page is in key order by itself.
                    found.entries = OmapEntries::from_pairs(
                        all.into_iter().take(max as usize).rev().collect(),
                    );
                }
                ReadStep::OmapValuesByKeys(_) => unreachable!("a page reads no named keys"),
            }
        }
        Ok(ReadReply {
            version: object.version,
            values: Ok(found),
        })
    }

    fn omap_get(&self, oid: &str, keys: &[&[u8]]) -> Result<(OmapEntries, Version), Rejected> {
        let steps = get_op(keys);
        assert_eq!(steps, vec![ReadStep::OmapValuesByKeys(keys)]);
        let objects = self.cluster.objects.borrow();
        get_outcome(
            objects
                .get(oid)
                .ok_or(RadosError::NotFound)
                .map(|object| ReadReply {
                    version: object.version,
                    values: Ok(OmapEntries::from_pairs(
                        keys.iter()
                            .filter_map(|key| {
                                object.omap.get(*key).map(|v| (key.to_vec(), v.clone()))
                            })
                            .collect(),
                    )),
                }),
        )
    }

    fn lock(&self, call: &LockCall) -> Result<(), RadosError> {
        let now = self.cluster.now.get();
        let client = format!("client.{}", self.id);
        let mut leases = self.cluster.leases.borrow_mut();
        let key = (call.oid.to_owned(), call.name.to_owned());
        let held = leases.get(&key).filter(|hold| hold.expires > now);
        let own = held.is_some_and(|hold| hold.client == client && hold.cookie == call.cookie);
        if call.must_renew && !own {
            return Err(RadosError::NotFound);
        }
        if !call.must_renew && own {
            return Err(RadosError::AlreadyExists);
        }
        if held.is_some() && !own {
            return Err(RadosError::Rados(errno::EBUSY));
        }
        self.cluster
            .objects
            .borrow_mut()
            .entry(call.oid.to_owned())
            .or_default();
        leases.insert(
            key,
            Hold {
                client,
                cookie: call.cookie.to_owned(),
                addr: self.addr(),
                expires: now + call.duration.expect("a lease ends").as_secs(),
            },
        );
        Ok(())
    }

    fn lock_exclusive(
        &self,
        oid: &str,
        name: &str,
        cookie: &str,
        desc: &str,
        ttl: Duration,
    ) -> Result<bool, Rejected> {
        let call = lock_exclusive_call(oid, name, cookie, desc, ttl);
        lock_exclusive_outcome(self.lock(&call))
    }

    fn renew(
        &self,
        oid: &str,
        name: &str,
        cookie: &str,
        desc: &str,
        ttl: Duration,
    ) -> Result<bool, Rejected> {
        renew_outcome(self.lock(&renew_call(oid, name, cookie, desc, ttl)))
    }

    fn unlock(&self, oid: &str, name: &str, cookie: &str) -> Result<(), Rejected> {
        self.break_lock(oid, name, &format!("client.{}", self.id), cookie)
    }

    fn break_lock(
        &self,
        oid: &str,
        name: &str,
        client: &str,
        cookie: &str,
    ) -> Result<(), Rejected> {
        let mut leases = self.cluster.leases.borrow_mut();
        let key = (oid.to_owned(), name.to_owned());
        let held = leases
            .get(&key)
            .is_some_and(|hold| hold.client == client && hold.cookie == cookie);
        if held {
            leases.remove(&key);
        }
        outcome(held.then_some(()).ok_or(RadosError::NotFound))
    }

    fn lockers(&self, oid: &str, name: &str) -> Vec<Locker> {
        let now = self.cluster.now.get();
        self.cluster
            .leases
            .borrow()
            .get(&(oid.to_owned(), name.to_owned()))
            .filter(|hold| hold.expires > now)
            .map(|hold| Locker {
                client: hold.client.clone(),
                cookie: hold.cookie.clone(),
                addr: hold.addr.clone(),
            })
            .into_iter()
            .collect()
    }

    fn blocklist_add(&self, addr: &str) -> Result<(), RadosError> {
        if let Some(errno) = self.cluster.blocklist_error.get() {
            return Err(RadosError::Rados(errno));
        }
        self.cluster.blocklist.borrow_mut().push(addr.to_owned());
        Ok(())
    }

    fn acquire(
        &self,
        e: &Election<'_>,
        cookie: &str,
        ttl: Duration,
    ) -> Result<Option<u64>, Rejected> {
        let mut acquire = Acquire::new(e, cookie, ttl);
        loop {
            let event = match acquire.action() {
                Action::Lock(call) => Event::Locked(lock_exclusive_outcome(self.lock(&call))),
                Action::List { oid, name } => Event::Listed(Ok(self.lockers(oid, name))),
                Action::Renew(call) => Event::Renewed(renew_outcome(self.lock(&call))),
                Action::Read { oid, keys } => Event::Read(self.omap_get(oid, &keys)),
                Action::Blocklist { addr, .. } => Event::Blocklisted(self.blocklist_add(addr)),
                Action::AwaitMap => Event::MapAwaited(Ok(())),
                Action::Write { oid, write } => Event::Written(self.write(oid, write.write())),
                Action::Unlock { oid, name, cookie } => {
                    let _ = self.unlock(oid, name, cookie);
                    Event::Unlocked
                }
                Action::Finish => break,
            };
            acquire = acquire.step(event);
        }
        acquire.into_result()
    }
}

fn set(r: &Client, oid: &str, entries: &[(&[u8], &[u8])]) {
    r.write(
        oid,
        Write {
            guards: vec![],
            mutations: vec![Mutation::OmapSet(entries)],
        },
    )
    .expect("omap_set");
}

fn value(r: &Client, oid: &str, key: &[u8]) -> Option<Vec<u8>> {
    let (mut entries, _) = r.omap_get(oid, &[key]).expect("omap_get");
    entries.remove(key)
}

fn keys(r: &Client, oid: &str) -> Vec<Vec<u8>> {
    r.omap_page(oid, b"", b"", 100, None)
        .expect("omap_page")
        .entries
        .into_iter()
        .map(|(key, _)| key)
        .collect()
}

/// The `^v1:[^/]+/[0-9]+$` shape `profile simple-rados-client-with-blocklist` requires of an
/// address (`MonCap.cc:312-321`).
fn is_entity_addr(addr: &str) -> bool {
    let Some(rest) = addr.strip_prefix("v1:") else {
        return false;
    };
    let Some((host, nonce)) = rest.rsplit_once('/') else {
        return false;
    };
    !host.is_empty()
        && !host.contains('/')
        && !nonce.is_empty()
        && nonce.bytes().all(|b| b.is_ascii_digit())
}

/// Contract: a guard that does not hold applies no mutation at all.
#[test]
fn guard_mismatch_applies_no_mutation() {
    let cluster = Cluster::default();
    let r = &cluster.client(1);
    let oid = "guarded";
    set(r, oid, &[(b"epoch", b"1"), (b"rev", b"7")]);

    let err = r
        .write(
            oid,
            Write {
                guards: vec![Guard::OmapEq(b"epoch", b"9")],
                mutations: vec![
                    Mutation::OmapSet(&[(b"rev", b"8")]),
                    Mutation::OmapRemove(&[b"epoch"]),
                ],
            },
        )
        .expect_err("stale epoch");
    assert!(
        matches!(&err, Rejected::Fenced(Fence::Omap { key }) if key == b"epoch"),
        "{}",
        err.message()
    );
    assert_eq!(value(r, oid, b"rev").as_deref(), Some(&b"7"[..]));
    assert_eq!(value(r, oid, b"epoch").as_deref(), Some(&b"1"[..]));
}

/// Contract: the rejection names the guard that failed.
#[test]
fn fenced_names_the_failing_guard() {
    let cluster = Cluster::default();
    let r = &cluster.client(1);
    let oid = "named";
    let (epoch0, epoch1) = (epoch_bytes(0), epoch_bytes(1));
    set(r, oid, &[(b"epoch", &epoch1)]);
    set(r, oid, &[(b"rev", b"7")]);
    let (_, version) = r.omap_get(oid, &[b"epoch"]).expect("version");
    let stale = Version(version.0 - 1);
    assert!(stale.0 > 0, "{version:?}");

    let cases: Vec<(&str, Vec<Guard>, Fence)> = vec![
        (
            "epoch stale",
            vec![
                Guard::OmapEq(b"epoch", &epoch0),
                Guard::OmapEq(b"rev", b"7"),
            ],
            Fence::Omap {
                key: b"epoch".to_vec(),
            },
        ),
        (
            "revision moved",
            vec![
                Guard::OmapEq(b"epoch", &epoch1),
                Guard::OmapEq(b"rev", b"9"),
            ],
            Fence::Omap {
                key: b"rev".to_vec(),
            },
        ),
        (
            "version stale",
            vec![Guard::Version(stale)],
            Fence::Version { expected: stale },
        ),
    ];
    for (name, guards, expected) in cases {
        let err = r
            .write(
                oid,
                Write {
                    guards,
                    mutations: vec![Mutation::OmapSet(&[(b"rev", b"99")])],
                },
            )
            .expect_err(name);
        assert!(
            matches!(&err, Rejected::Fenced(fence) if *fence == expected),
            "{name}: {}",
            err.message()
        );
        assert_eq!(value(r, oid, b"rev").as_deref(), Some(&b"7"[..]), "{name}");
    }

    let err = r
        .write(
            oid,
            Write {
                guards: vec![Guard::Version(version), Guard::Version(stale)],
                mutations: vec![Mutation::OmapSet(&[(b"rev", b"99")])],
            },
        )
        .expect_err("two version guards");
    assert!(matches!(err, Rejected::Rados(EINVAL)), "{}", err.message());
    assert_eq!(value(r, oid, b"rev").as_deref(), Some(&b"7"[..]));

    // -ENOENT is a fence only when the write asked for the object to exist.
    let err = r
        .write(
            "absent",
            Write {
                guards: vec![Guard::Exists],
                mutations: vec![Mutation::WriteFull(b"x")],
            },
        )
        .expect_err("assert_exists on a missing object");
    assert!(
        matches!(err, Rejected::Fenced(Fence::Exists)),
        "{}",
        err.message()
    );

    let err = r
        .write(
            "absent",
            Write {
                guards: vec![],
                mutations: vec![Mutation::Remove],
            },
        )
        .expect_err("remove of a missing object");
    assert!(matches!(err, Rejected::NotFound), "{}", err.message());

    // The empty-value guard does not hold on a missing object, and the rejection names no
    // guard.
    let err = r
        .write(
            "absent",
            Write {
                guards: vec![Guard::OmapEq(b"epoch", b"")],
                mutations: vec![Mutation::OmapSet(&[(b"epoch", &epoch1)])],
            },
        )
        .expect_err("an omap guard on a missing object");
    assert!(matches!(err, Rejected::NotFound), "{}", err.message());
}

/// Contract: a page pinned to a version stops seeing the object once it moves.
#[test]
fn omap_page_pins_the_version() {
    let cluster = Cluster::default();
    let r = &cluster.client(1);
    let oid = "paged";
    set(
        r,
        oid,
        &[(b"log/1", b"a"), (b"log/2", b"b"), (b"other", b"c")],
    );

    let page = r.omap_page(oid, b"log/", b"", 10, None).expect("page");
    assert!(!page.more);
    assert_eq!(
        page.entries,
        vec![
            (b"log/1".to_vec(), b"a".to_vec()),
            (b"log/2".to_vec(), b"b".to_vec()),
        ]
    );

    let first = r
        .omap_page(oid, b"log/", b"", 1, None)
        .expect("first of two");
    assert!(first.more);
    assert_eq!(first.entries, vec![(b"log/1".to_vec(), b"a".to_vec())]);
    let rest = r
        .omap_page(oid, b"log/", b"log/1", 1, None)
        .expect("rest after log/1");
    assert!(!rest.more);
    assert_eq!(rest.entries, vec![(b"log/2".to_vec(), b"b".to_vec())]);

    let at = page.version;
    let pinned = r
        .omap_page(oid, b"log/", b"", 10, Some(at))
        .expect("pinned");
    assert_eq!(pinned.entries, page.entries);
    assert_eq!(pinned.version, at);

    let after = r
        .omap_page(oid, b"log/", b"log/1", 10, Some(at))
        .expect("pinned page after log/1");
    assert_eq!(after.entries, vec![(b"log/2".to_vec(), b"b".to_vec())]);

    set(r, oid, &[(b"log/3", b"d")]);
    let err = r
        .omap_page(oid, b"log/", b"", 10, Some(at))
        .expect_err("the object moved past the pin");
    assert!(
        matches!(err, Rejected::Fenced(Fence::Version { expected }) if expected == at),
        "{}",
        err.message()
    );
}

/// Contract: `write_once` is write-once.
#[test]
fn write_once_keeps_the_first_content() {
    let cluster = Cluster::default();
    let bulk = &cluster.client(1);
    let oid = "run";
    bulk.write_once(oid, b"first").expect("write_once");

    let err = bulk.write_once(oid, b"second").expect_err("second write");
    assert!(matches!(err, Rejected::Exists), "{}", err.message());
    assert_eq!(bulk.read(oid, 0, 64).expect("read"), b"first");
    assert_eq!(bulk.read(oid, 1, 2).expect("read at offset"), b"ir");
    assert_eq!(bulk.stat(oid).expect("stat"), 5);

    bulk.write(
        oid,
        Write {
            guards: vec![],
            mutations: vec![Mutation::Remove],
        },
    )
    .expect("remove");
    assert!(
        matches!(
            bulk.stat(oid).expect_err("stat removed"),
            Rejected::NotFound
        ),
        "stat of a removed object"
    );
}

/// Contract: contention, `MUST_RENEW`, and re-acquiring an expired lease.
#[test]
fn leases_expire_and_renew() {
    let cluster = Cluster::default();
    let r = &cluster.client(1);
    let (oid, lease) = ("leased", "writer");
    let long = Duration::from_secs(30);

    assert!(r
        .lock_exclusive(oid, lease, "a", "holder A", long)
        .expect("acquire"));
    assert!(!r
        .lock_exclusive(oid, lease, "b", "", long)
        .expect("another cookie contends"));
    assert!(
        matches!(
            r.lock_exclusive(oid, lease, "a", "", long)
                .expect_err("the same cookie is not a renewal"),
            Rejected::Exists
        ),
        "taking a held lease again"
    );

    let lockers = r.lockers(oid, lease);
    assert_eq!(lockers.len(), 1);
    assert_eq!(lockers[0].cookie, "a");
    assert!(lockers[0].client.starts_with("client."), "{:?}", lockers[0]);
    assert!(is_entity_addr(&lockers[0].addr), "{}", lockers[0].addr);

    assert!(!r
        .renew(oid, "no such lease", "a", "", long)
        .expect("renewing an unheld lease"));
    assert!(r
        .renew(oid, lease, "a", "", Duration::from_secs(1))
        .expect("renew"));
    cluster.sleep(2);
    assert!(r
        .lock_exclusive(oid, lease, "b", "", long)
        .expect("acquire after the lease expired"));

    let client = r.lockers(oid, lease)[0].client.clone();
    r.break_lock(oid, lease, &client, "b").expect("break_lock");
    assert!(r.lockers(oid, lease).is_empty());

    assert!(r
        .lock_exclusive(oid, lease, "c", "", long)
        .expect("re-acquire"));
    r.unlock(oid, lease, "c").expect("unlock");
    assert!(r.lockers(oid, lease).is_empty());

    assert!(r
        .lock_exclusive(oid, lease, "shared", "", Duration::from_secs(1))
        .expect("acquire shared cookie"));
    cluster.sleep(2);
    let other = &cluster.client(2);
    assert!(other
        .lock_exclusive(oid, lease, "shared", "", long)
        .expect("re-acquire shared cookie"));
    assert!(!r
        .renew(oid, lease, "shared", "", long)
        .expect("old client cannot renew new client's cookie"));
}

/// Contract: `OmapRemoveRange` removes exactly `[begin, end)`.
#[test]
fn omap_remove_range_is_half_open() {
    let cluster = Cluster::default();
    let r = &cluster.client(1);
    let oid = "trim";
    set(
        r,
        oid,
        &[
            (b"a", b"1"),
            (b"b", b"2"),
            (b"c", b"3"),
            (b"d", b"4"),
            (b"e", b"5"),
        ],
    );

    r.write(
        oid,
        Write {
            guards: vec![],
            mutations: vec![Mutation::OmapRemoveRange {
                begin: b"b",
                end: b"d",
            }],
        },
    )
    .expect("omap_rm_range");
    assert_eq!(
        keys(r, oid),
        vec![b"a".to_vec(), b"d".to_vec(), b"e".to_vec()]
    );

    r.write(
        oid,
        Write {
            guards: vec![],
            mutations: vec![Mutation::OmapRemove(&[b"d"])],
        },
    )
    .expect("omap_rm_keys");
    assert_eq!(keys(r, oid), vec![b"a".to_vec(), b"e".to_vec()]);
}

/// Contract: byte mutations and the xattr guard.
#[test]
fn xattr_guard_and_byte_mutations() {
    let cluster = Cluster::default();
    let r = &cluster.client(1);
    let oid = "blob";

    r.write(
        oid,
        Write {
            guards: vec![],
            mutations: vec![
                Mutation::CreateExclusive,
                Mutation::WriteFull(b"head"),
                Mutation::Append(b"-tail"),
                Mutation::SetXattr("epoch", b"1"),
            ],
        },
    )
    .expect("create");
    assert_eq!(r.read(oid, 0, 64).expect("read"), b"head-tail");

    let err = r
        .write(
            oid,
            Write {
                guards: vec![],
                mutations: vec![Mutation::CreateExclusive, Mutation::WriteFull(b"x")],
            },
        )
        .expect_err("second exclusive create");
    assert!(matches!(err, Rejected::Exists), "{}", err.message());

    r.write(
        oid,
        Write {
            guards: vec![Guard::XattrEq("epoch", b"1")],
            mutations: vec![Mutation::Append(b"!")],
        },
    )
    .expect("the xattr guard holds");

    let err = r
        .write(
            oid,
            Write {
                guards: vec![Guard::XattrEq("epoch", b"2")],
                mutations: vec![Mutation::Append(b"?")],
            },
        )
        .expect_err("the xattr guard fails");
    assert!(
        matches!(&err, Rejected::Fenced(Fence::Xattr { name }) if name == "epoch"),
        "{}",
        err.message()
    );

    // Two xattr guards cannot be told apart in a -ECANCELED, so the write is refused before it
    // is sent.
    let err = r
        .write(
            oid,
            Write {
                guards: vec![Guard::XattrEq("epoch", b"1"), Guard::XattrEq("other", b"1")],
                mutations: vec![Mutation::Append(b"?")],
            },
        )
        .expect_err("two xattr guards");
    assert!(matches!(err, Rejected::Rados(EINVAL)), "{}", err.message());
    assert_eq!(r.read(oid, 0, 64).expect("read"), b"head-tail!");

    r.write(
        oid,
        Write {
            guards: vec![Guard::Exists],
            mutations: vec![Mutation::Remove],
        },
    )
    .expect("remove");
    assert!(
        matches!(r.stat(oid).expect_err("stat removed"), Rejected::NotFound),
        "stat of a removed object"
    );
}

/// Contract: the epoch `acquire` returns is the guard the new writer writes with.
#[test]
fn acquire_hands_out_a_guarding_epoch() {
    let cluster = Cluster::default();
    let r = &cluster.client(1);
    let e = Election {
        oid: "role",
        name: "writer",
        epoch_key: b"meta/writer-epoch",
        holder_key: b"meta/writer-addr",
    };
    let ttl = Duration::from_secs(30);

    assert_eq!(r.acquire(&e, "a", ttl).expect("acquire"), Some(1));
    assert_eq!(
        value(r, e.oid, e.epoch_key).as_deref(),
        Some(&epoch_bytes(1)[..])
    );
    let holder =
        String::from_utf8(value(r, e.oid, e.holder_key).expect("holder")).expect("utf-8 addr");
    assert!(is_entity_addr(&holder), "{holder}");
    assert_eq!(holder, r.addr());

    let epoch = epoch_bytes(1);
    r.write(
        e.oid,
        Write {
            guards: vec![Guard::OmapEq(e.epoch_key, &epoch)],
            mutations: vec![Mutation::OmapSet(&[(b"rev", b"1")])],
        },
    )
    .expect("write as the writer of epoch 1");

    // The object had no epoch key before the acquire, so what a writer from before it would
    // guard with is the empty value.
    let err = r
        .write(
            e.oid,
            Write {
                guards: vec![Guard::OmapEq(e.epoch_key, b"")],
                mutations: vec![Mutation::OmapSet(&[(b"rev", b"2")])],
            },
        )
        .expect_err("write from before the acquire");
    assert!(
        matches!(&err, Rejected::Fenced(Fence::Omap { key }) if key == e.epoch_key),
        "{}",
        err.message()
    );
    assert_eq!(value(r, e.oid, b"rev").as_deref(), Some(&b"1"[..]));

    // A second client cannot take the role while the lease is held.
    let other = &cluster.client(2);
    assert_eq!(
        other.acquire(&e, "b", ttl).expect("contended acquire"),
        None
    );
    assert_eq!(
        value(r, e.oid, e.epoch_key).as_deref(),
        Some(&epoch_bytes(1)[..])
    );
}

/// Contract: the holder `acquire` replaces is blocklisted, and its writes stop.
#[test]
fn acquire_blocklists_the_previous_holder() {
    let cluster = Cluster::default();
    let (a, b) = (&cluster.client(1), &cluster.client(2));
    let e = Election {
        oid: "role",
        name: "writer",
        epoch_key: b"epoch",
        holder_key: b"holder",
    };

    assert_eq!(
        a.acquire(&e, "a", Duration::from_secs(1))
            .expect("A acquires"),
        Some(1)
    );
    let a_addr = String::from_utf8(value(a, e.oid, e.holder_key).expect("holder")).expect("utf-8");
    assert!(is_entity_addr(&a_addr), "{a_addr}");
    assert_eq!(a_addr, a.addr());

    // A's lease expires on the OSD's clock.
    cluster.sleep(2);

    assert_eq!(
        b.acquire(&e, "b", Duration::from_secs(60))
            .expect("B acquires"),
        Some(2)
    );
    assert_eq!(
        value(b, e.oid, e.holder_key).expect("holder after B"),
        b.lockers(e.oid, e.name)[0].addr.as_bytes()
    );

    let err = a
        .write(
            e.oid,
            Write {
                guards: vec![],
                mutations: vec![Mutation::OmapSet(&[(b"rev", b"x")])],
            },
        )
        .expect_err("A is fenced");
    assert!(
        matches!(err, Rejected::Rados(EBLOCKLISTED)),
        "{}",
        err.message()
    );
}

/// Without the cap to blocklist, the epoch alone fences the previous writer.
#[test]
fn epoch_fences_where_blocklisting_is_not_allowed() {
    let cluster = Cluster::default();
    cluster.blocklist_error.set(Some(errno::EACCES));
    let (a, b) = (&cluster.client(1), &cluster.client(2));
    let e = Election {
        oid: "role",
        name: "writer",
        epoch_key: b"epoch",
        holder_key: b"holder",
    };
    let short = Duration::from_secs(1);
    assert_eq!(a.acquire(&e, "a", short).expect("A acquires"), Some(1));
    cluster.sleep(2);
    assert_eq!(b.acquire(&e, "b", short).expect("B acquires"), Some(2));

    let err = a
        .write(
            e.oid,
            Write {
                guards: vec![Guard::OmapEq(e.epoch_key, &epoch_bytes(1))],
                mutations: vec![Mutation::OmapSet(&[(b"rev", b"x")])],
            },
        )
        .expect_err("A is fenced");
    assert!(matches!(&err, Rejected::Fenced(Fence::Omap { key }) if key == b"epoch"));
}

/// A failed blocklisting fails the acquisition and releases the lease.
#[test]
fn failed_acquire_releases_the_lease() {
    let cluster = Cluster::default();
    let (a, b) = (&cluster.client(1), &cluster.client(2));
    let e = Election {
        oid: "role",
        name: "writer",
        epoch_key: b"epoch",
        holder_key: b"holder",
    };
    let long = Duration::from_secs(30);
    set(a, e.oid, &[(b"holder", b"v1:10.9.9.9:0/1")]);
    cluster.blocklist_error.set(Some(EINVAL));
    let err = b.acquire(&e, "b", long).expect_err("blocklisting fails");
    assert!(matches!(err, Rejected::Rados(EINVAL)));
    assert!(b.lockers(e.oid, e.name).is_empty());
    assert_eq!(value(b, e.oid, b"epoch"), None);

    // An epoch that does not decode fails it too.
    cluster.blocklist_error.set(None);
    set(a, e.oid, &[(b"epoch", b"7")]);
    let err = b.acquire(&e, "b", long).expect_err("no epoch");
    assert!(matches!(err, Rejected::Rados(EINVAL)));
    assert!(b.lockers(e.oid, e.name).is_empty());

    // The last epoch has none after it.
    set(a, e.oid, &[(b"epoch", &epoch_bytes(u64::MAX))]);
    let err = b.acquire(&e, "b", long).expect_err("no next epoch");
    assert!(matches!(err, Rejected::Rados(errno::EOVERFLOW)));
    assert!(b.lockers(e.oid, e.name).is_empty());
}

/// A client that holds the lease already renews it and takes the next epoch, without fencing
/// itself.
#[test]
fn acquiring_again_takes_the_next_epoch() {
    let cluster = Cluster::default();
    let a = &cluster.client(1);
    let e = Election {
        oid: "role",
        name: "writer",
        epoch_key: b"epoch",
        holder_key: b"holder",
    };
    let long = Duration::from_secs(30);
    assert_eq!(a.acquire(&e, "a", long).expect("first"), Some(1));
    assert_eq!(a.acquire(&e, "a", long).expect("second"), Some(2));
    assert!(cluster.blocklist.borrow().is_empty());
}

/// Whoever acquires, and however the one before stopped, the epochs that are handed out go up by
/// one.
#[test]
fn successive_acquisitions_count_the_epoch_up() {
    let cluster = Cluster::default();
    let e = Election {
        oid: "role",
        name: "writer",
        epoch_key: b"epoch",
        holder_key: b"holder",
    };
    for id in 1..=4u64 {
        let client = &cluster.client(id);
        let cookie = format!("client-{id}");
        assert_eq!(
            client
                .acquire(&e, &cookie, Duration::from_secs(5))
                .expect("acquire"),
            Some(id)
        );
        assert_eq!(
            value(client, e.oid, e.epoch_key).as_deref(),
            Some(&epoch_bytes(id)[..])
        );
        cluster.sleep(6);
    }
}

/// Where the guards hold, a write succeeds where its mutations do, and fails as they do.
#[test]
fn held_guards_leave_the_mutations_their_own_outcome() {
    let cluster = Cluster::default();
    let r = &cluster.client(1);
    set(r, "object", &[(b"rev", b"1")]);
    let err = r
        .write(
            "object",
            Write {
                guards: vec![Guard::Exists, Guard::OmapEq(b"rev", b"1")],
                mutations: vec![
                    Mutation::OmapSet(&[(b"rev", b"2")]),
                    Mutation::CreateExclusive,
                ],
            },
        )
        .expect_err("exclusive create of an object that exists");
    assert!(matches!(err, Rejected::Exists), "{}", err.message());
    assert_eq!(value(r, "object", b"rev").as_deref(), Some(&b"1"[..]));
    r.write(
        "object",
        Write {
            guards: vec![Guard::Exists, Guard::OmapEq(b"rev", b"1")],
            mutations: vec![Mutation::OmapSet(&[(b"rev", b"2")])],
        },
    )
    .expect("guards that hold");
    assert_eq!(value(r, "object", b"rev").as_deref(), Some(&b"2"[..]));
}

/// Pages read on from the last key, behind the pin of the first, show the whole object once.
#[test]
fn pages_read_on_show_the_whole_object() {
    let cluster = Cluster::default();
    let r = &cluster.client(1);
    let all: Vec<(Vec<u8>, Vec<u8>)> = [&b"log/"[..], b"log/0", b"log/1", b"log/10", b"log/\xff"]
        .iter()
        .enumerate()
        .map(|(i, key)| (key.to_vec(), vec![i as u8]))
        .collect();
    set(r, "paged", &[(b"head", b"h"), (b"log", b"no"), (b"tail", b"t")]);
    for (key, value) in all.iter().rev() {
        set(r, "paged", &[(key, value)]);
    }
    for limit in 1..=6u32 {
        let mut page = r
            .omap_page("paged", b"log/", b"", limit, None)
            .expect("head");
        let at = page.version;
        let mut read = Vec::new();
        loop {
            assert_eq!(page.version, at);
            read.extend(page.entries);
            assert_eq!(read, all[..read.len()]);
            assert_eq!(page.more, read.len() < all.len());
            if !page.more {
                break;
            }
            let last = &read.last().expect("a page with more behind it").0;
            page = r
                .omap_page("paged", b"log/", last, limit, Some(at))
                .expect("page behind the pin");
        }
        assert_eq!(read, all);
    }
}

/// Of two writers that guard on the same value at most one succeeds.
#[test]
fn of_two_writers_guarding_on_one_value_one_succeeds() {
    let cluster = Cluster::default();
    let (a, b) = (&cluster.client(1), &cluster.client(2));
    set(a, "object", &[(b"revision", b"1"), (b"other", b"x")]);
    let write = || Write {
        guards: vec![Guard::OmapEq(b"revision", b"1")],
        mutations: vec![Mutation::OmapSet(&[(b"revision", b"2")])],
    };
    a.write("object", write()).expect("the first writer");
    set(a, "object", &[(b"other", b"y")]);
    let err = b.write("object", write()).expect_err("the second writer");
    assert!(
        matches!(&err, Rejected::Fenced(Fence::Omap { key }) if key == b"revision"),
        "{}",
        err.message()
    );
    assert_eq!(value(b, "object", b"revision").as_deref(), Some(&b"2"[..]));
    assert_eq!(value(b, "object", b"other").as_deref(), Some(&b"y"[..]));
}
