//! The decisions one by one.

use rados_primitives::bytes::{bytes_equal, is_nul_free, key_order, strings_equal, KeyOrder};
use rados_primitives::election::{Acquire, Action, Event};
use rados_primitives::entries::OmapEntries;
use rados_primitives::error::{outcome, RadosError};
use rados_primitives::guard::push as push_guards;
use rados_primitives::lock::{
    lock_exclusive_call, lock_exclusive_outcome, renew_call, renew_outcome, LockCall, Locker,
};
use rados_primitives::op::{ReadStep, WriteError, WriteOp, WriteStep};
use rados_primitives::read::{
    fenced, get_outcome, page_op, page_outcome, read_outcome, OmapFound, ReadReply,
};
use rados_primitives::watch::{notify_outcome, notify_seconds, NotifyAck};
use rados_primitives::write::{push as push_mutation, write_once_op, write_outcome};
use rados_primitives::{
    epoch_bytes, errno, Election, Fence, Guard, Mutation, Rejected, Version, Write,
};
use std::time::Duration;

const TTL: Duration = Duration::from_secs(30);

fn failed(error: RadosError, failed_compare: Option<usize>) -> WriteError {
    WriteError {
        error,
        failed_compare,
    }
}

#[test]
fn keys_are_ordered_byte_by_byte() {
    assert_eq!(key_order(b"", b""), KeyOrder::Same);
    assert_eq!(key_order(b"", b"a"), KeyOrder::Before);
    assert_eq!(key_order(b"ab", b"a"), KeyOrder::After);
    assert_eq!(key_order(b"a\xff", b"b"), KeyOrder::Before);
    assert_eq!(key_order(b"log/2", b"log/10"), KeyOrder::After);
    assert!(bytes_equal(b"epoch", b"epoch"));
    assert!(!bytes_equal(b"epoch", b"epochs"));
    assert!(strings_equal("caf\u{e9}", "caf\u{e9}"));
    assert!(!strings_equal("a", "b"));
    assert!(is_nul_free(b"log/"));
    assert!(!is_nul_free(b"log\0"));
}

#[test]
fn entries_are_kept_in_key_order() {
    let pair = |k: &[u8], v: &[u8]| (k.to_vec(), v.to_vec());
    let mut entries = OmapEntries::from_pairs(vec![
        pair(b"c", b"3"),
        pair(b"a", b"1"),
        pair(b"b", b"2"),
        pair(b"a", b"9"),
    ]);
    entries.insert(b"bb".to_vec(), b"4".to_vec());
    assert_eq!(entries.remove(b"c").as_deref(), Some(&b"3"[..]));
    assert_eq!(entries.remove(b"c"), None);
    assert_eq!(
        entries.into_pairs(),
        vec![pair(b"a", b"9"), pair(b"b", b"2"), pair(b"bb", b"4")]
    );
    assert!(OmapEntries::new().into_pairs().is_empty());
}

#[test]
fn guards_go_ahead_of_the_mutations() {
    let write = Write {
        guards: vec![
            Guard::Exists,
            Guard::OmapEq(b"epoch", b"1"),
            Guard::Version(Version(7)),
            Guard::XattrEq("x", b"y"),
        ],
        mutations: vec![
            Mutation::CreateExclusive,
            Mutation::WriteFull(b"f"),
            Mutation::Append(b"a"),
            Mutation::OmapSet(&[(b"k", b"v")]),
            Mutation::OmapRemove(&[b"r"]),
            Mutation::OmapRemoveRange {
                begin: b"b",
                end: b"d",
            },
            Mutation::SetXattr("n", b"v"),
            Mutation::Remove,
        ],
    };
    let (op, _) = write.prepare().expect("prepare");
    assert_eq!(
        op.steps(),
        &[
            WriteStep::AssertExists,
            WriteStep::OmapEquals {
                key: b"epoch",
                value: b"1"
            },
            WriteStep::AssertVersion(7),
            WriteStep::XattrEquals {
                name: "x",
                value: b"y"
            },
            WriteStep::Create { exclusive: true },
            WriteStep::WriteFull(b"f"),
            WriteStep::Append(b"a"),
            WriteStep::OmapSet(&[(b"k", b"v")]),
            WriteStep::OmapRemoveKeys(&[b"r"]),
            WriteStep::OmapRemoveRange {
                begin: b"b",
                end: b"d"
            },
            WriteStep::SetXattr {
                name: "n",
                value: b"v"
            },
            WriteStep::Remove,
        ]
    );
}

#[test]
fn write_that_cannot_be_sent_is_invalid() {
    let refused: Vec<Write> = vec![
        Write {
            guards: vec![Guard::XattrEq("a", b""), Guard::XattrEq("a", b"")],
            mutations: vec![],
        },
        Write {
            guards: vec![
                Guard::Version(Version(1)),
                Guard::Exists,
                Guard::Version(Version(2)),
            ],
            mutations: vec![],
        },
        Write {
            guards: vec![Guard::XattrEq("a\0b", b"")],
            mutations: vec![],
        },
        Write {
            guards: vec![],
            mutations: vec![Mutation::Append(b"x"), Mutation::SetXattr("\0", b"")],
        },
    ];
    for write in refused {
        assert!(matches!(
            write.prepare().expect_err("refused"),
            Rejected::Rados(errno::EINVAL)
        ));
    }
    // NUL bytes in keys and values are no obstacle.
    let write = Write {
        guards: vec![Guard::OmapEq(b"k\0", b"\0"), Guard::XattrEq("x", b"\0")],
        mutations: vec![Mutation::OmapSet(&[(b"\0", b"\0")])],
    };
    assert!(write.prepare().is_ok());
}

#[test]
fn refused_pushes_keep_what_came_before() {
    let mut op = WriteOp::new();
    assert_eq!(op.add_step(WriteStep::Remove), 0);
    let guards = [
        Guard::Exists,
        Guard::Version(Version(1)),
        Guard::Version(Version(1)),
        Guard::Exists,
    ];
    assert!(push_guards(&mut op, &guards).is_err());
    assert_eq!(
        op.steps(),
        &[
            WriteStep::Remove,
            WriteStep::AssertExists,
            WriteStep::AssertVersion(1)
        ]
    );
    assert!(push_mutation(&mut op, &Mutation::SetXattr("\0", b"")).is_err());
    assert_eq!(op.steps().len(), 3);
    assert!(push_mutation(&mut op, &Mutation::Remove).is_ok());
    assert_eq!(op.steps().len(), 4);
}

#[test]
fn failure_is_mapped_onto_its_guard() {
    // The guards stand behind another sub-op, so the places start at 1.
    let mut op = WriteOp::new();
    op.add_step(WriteStep::Create { exclusive: false });
    let guards = [
        Guard::OmapEq(b"a", b""),
        Guard::Version(Version(5)),
        Guard::XattrEq("x", b""),
        Guard::OmapEq(b"b", b""),
        Guard::Exists,
    ];
    let seen = push_guards(&mut op, &guards).expect("push");
    let canceled = RadosError::Rados(errno::ECANCELED);
    let fence = |err| match seen.reject(err) {
        Rejected::Fenced(fence) => fence,
        other => panic!("not fenced: {other:?}"),
    };
    assert_eq!(
        fence(failed(canceled, Some(1))),
        Fence::Omap { key: b"a".to_vec() }
    );
    assert_eq!(
        fence(failed(canceled, Some(4))),
        Fence::Omap { key: b"b".to_vec() }
    );
    assert_eq!(
        fence(failed(canceled, None)),
        Fence::Xattr { name: "x".into() }
    );
    assert_eq!(
        fence(failed(canceled, Some(2))),
        Fence::Xattr { name: "x".into() }
    );
    for errno in [errno::ERANGE, errno::EOVERFLOW] {
        assert_eq!(
            fence(failed(RadosError::Rados(errno), None)),
            Fence::Version {
                expected: Version(5)
            }
        );
    }
    assert_eq!(fence(failed(RadosError::NotFound, None)), Fence::Exists);
    assert!(matches!(
        seen.reject(failed(RadosError::AlreadyExists, None)),
        Rejected::Exists
    ));
    assert!(matches!(
        seen.reject(failed(RadosError::Nul, None)),
        Rejected::Rados(errno::EINVAL)
    ));
    assert!(matches!(
        seen.reject(failed(RadosError::Rados(108), None)),
        Rejected::Rados(108)
    ));
}

#[test]
fn failure_without_its_guard_keeps_its_errno() {
    let (_, seen) = Write {
        guards: vec![Guard::OmapEq(b"a", b"")],
        mutations: vec![],
    }
    .prepare()
    .expect("prepare");
    for errno in [errno::ECANCELED, errno::ERANGE, errno::EOVERFLOW] {
        assert!(matches!(
            seen.reject(failed(RadosError::Rados(errno), None)),
            Rejected::Rados(e) if e == errno
        ));
    }
    assert!(matches!(
        write_outcome(&seen, Err(failed(RadosError::NotFound, None))),
        Err(Rejected::NotFound)
    ));
    assert!(write_outcome(&seen, Ok(())).is_ok());
}

#[test]
fn librados_errors_become_rejections() {
    assert!(matches!(outcome(Ok::<u8, RadosError>(7)), Ok(7)));
    let rejected = |err| outcome(Err::<(), RadosError>(err)).expect_err("failed");
    assert!(matches!(rejected(RadosError::NotFound), Rejected::NotFound));
    assert!(matches!(
        rejected(RadosError::AlreadyExists),
        Rejected::Exists
    ));
    assert!(matches!(
        rejected(RadosError::Rados(108)),
        Rejected::Rados(108)
    ));
    assert!(matches!(
        rejected(RadosError::Nul),
        Rejected::Rados(errno::EINVAL)
    ));
    assert!(matches!(
        Rejected::from(RadosError::Nul),
        Rejected::Rados(errno::EINVAL)
    ));
}

#[test]
fn messages_name_the_guard() {
    let message = |fence: Fence| Rejected::Fenced(fence).message();
    assert_eq!(
        message(Fence::Version {
            expected: Version(u64::MAX)
        }),
        "fenced: object is not at version 18446744073709551615"
    );
    assert_eq!(
        message(Fence::Version {
            expected: Version(0)
        }),
        "fenced: object is not at version 0"
    );
    assert_eq!(message(Fence::Exists), "fenced: object does not exist");
    assert_eq!(
        message(Fence::Omap {
            key: b"epoch".to_vec()
        }),
        "fenced: omap key epoch does not hold the expected value"
    );
    assert_eq!(
        message(Fence::Omap {
            key: "clé/1".as_bytes().to_vec()
        }),
        "fenced: omap key clé/1 does not hold the expected value"
    );
    assert_eq!(
        message(Fence::Omap {
            key: b"\xffk".to_vec()
        }),
        "fenced: omap key \u{fffd}k does not hold the expected value"
    );
    assert_eq!(
        message(Fence::Xattr {
            name: "owner".into()
        }),
        "fenced: xattr owner does not hold the expected value"
    );
    assert_eq!(Rejected::Exists.message(), "object already exists");
    assert_eq!(Rejected::NotFound.message(), "object not found");
    assert_eq!(
        Rejected::Rados(errno::EINVAL).message(),
        format!("librados: {}", std::io::Error::from_raw_os_error(22))
    );
    assert_eq!(
        Rejected::Rados(5).message(),
        format!("librados: {}", std::io::Error::from_raw_os_error(5))
    );
    assert_ne!(Rejected::Rados(5).message(), Rejected::Rados(22).message());
    assert_ne!(Rejected::Rados(5).message(), "librados: ");
    assert_eq!(
        Rejected::Rados(5).message_with("no luck"),
        "librados: no luck"
    );
}

#[test]
fn page_op_carries_its_pin() {
    let values = ReadStep::OmapValues {
        start_after: b"log/1",
        prefix: b"log/",
        max: 10,
    };
    assert_eq!(
        page_op(b"log/", b"log/1", 10, None).expect("page"),
        vec![values]
    );
    assert_eq!(
        page_op(b"log/", b"log/1", 10, Some(Version(3))).expect("page"),
        vec![ReadStep::AssertVersion(3), values]
    );
    for (prefix, start_after) in [(&b"a\0"[..], &b""[..]), (&b""[..], &b"\0"[..])] {
        assert!(matches!(
            page_op(prefix, start_after, 10, None),
            Err(Rejected::Rados(errno::EINVAL))
        ));
    }
}

#[test]
fn stale_pin_is_fenced() {
    let at = Some(Version(3));
    for errno in [errno::ERANGE, errno::EOVERFLOW] {
        let err = RadosError::Rados(errno);
        assert!(matches!(
            fenced(err, at),
            Rejected::Fenced(Fence::Version {
                expected: Version(3)
            })
        ));
        assert!(matches!(fenced(err, None), Rejected::Rados(e) if e == errno));
        assert!(matches!(
            page_outcome(Err(err), at),
            Err(Rejected::Fenced(Fence::Version {
                expected: Version(3)
            }))
        ));
        // Fetching the values of an op that ran is not what the pin speaks of.
        let ran = ReadReply {
            version: 3,
            values: Err(err),
        };
        assert!(matches!(page_outcome(Ok(ran), at), Err(Rejected::Rados(e)) if e == errno));
    }
    assert!(matches!(
        fenced(RadosError::NotFound, at),
        Rejected::NotFound
    ));
}

#[test]
fn page_comes_with_its_version() {
    let found = OmapFound {
        entries: OmapEntries::from_pairs(vec![
            (b"b".to_vec(), b"2".to_vec()),
            (b"a".to_vec(), b"1".to_vec()),
        ]),
        more: true,
    };
    let page = page_outcome(
        Ok(ReadReply {
            version: 9,
            values: Ok(found),
        }),
        None,
    )
    .expect("page");
    assert!(page.more);
    assert_eq!(page.version, Version(9));
    assert_eq!(
        page.entries,
        vec![
            (b"a".to_vec(), b"1".to_vec()),
            (b"b".to_vec(), b"2".to_vec())
        ]
    );
}

#[test]
fn named_keys_come_with_their_version() {
    let ran = ReadReply {
        version: 4,
        values: Ok(OmapEntries::from_pairs(vec![(
            b"k".to_vec(),
            b"v".to_vec(),
        )])),
    };
    let (mut entries, version) = get_outcome(Ok(ran)).expect("get");
    assert_eq!(version, Version(4));
    assert_eq!(entries.remove(b"k").as_deref(), Some(&b"v"[..]));
    assert!(matches!(
        get_outcome(Err(RadosError::NotFound)),
        Err(Rejected::NotFound)
    ));
    let ran = ReadReply {
        version: 4,
        values: Err(RadosError::Rados(5)),
    };
    assert!(matches!(get_outcome(Ok(ran)), Err(Rejected::Rados(5))));
}

#[test]
fn read_is_truncated_to_what_was_read() {
    assert_eq!(
        read_outcome(b"abcde".to_vec(), Ok(3)).expect("read"),
        b"abc"
    );
    assert_eq!(read_outcome(b"abc".to_vec(), Ok(0)).expect("read"), b"");
    assert_eq!(read_outcome(b"abc".to_vec(), Ok(9)).expect("read"), b"abc");
    assert!(matches!(
        read_outcome(b"abc".to_vec(), Err(RadosError::NotFound)),
        Err(Rejected::NotFound)
    ));
}

#[test]
fn lease_calls_and_their_answers() {
    let call = LockCall {
        oid: "o",
        name: "n",
        cookie: "c",
        desc: "d",
        duration: Some(TTL),
        must_renew: false,
    };
    assert_eq!(lock_exclusive_call("o", "n", "c", "d", TTL), call);
    assert_eq!(
        renew_call("o", "n", "c", "d", TTL),
        LockCall {
            must_renew: true,
            ..call
        }
    );

    let busy = Err(RadosError::Rados(errno::EBUSY));
    assert!(matches!(lock_exclusive_outcome(Ok(())), Ok(true)));
    assert!(matches!(lock_exclusive_outcome(busy), Ok(false)));
    assert!(matches!(
        lock_exclusive_outcome(Err(RadosError::AlreadyExists)),
        Err(Rejected::Exists)
    ));
    assert!(matches!(
        lock_exclusive_outcome(Err(RadosError::NotFound)),
        Err(Rejected::NotFound)
    ));

    assert!(matches!(renew_outcome(Ok(())), Ok(true)));
    assert!(matches!(
        renew_outcome(Err(RadosError::NotFound)),
        Ok(false)
    ));
    assert!(matches!(
        renew_outcome(busy),
        Err(Rejected::Rados(errno::EBUSY))
    ));
}

#[test]
fn notify_timeout_is_rounded_up() {
    assert_eq!(notify_seconds(0, 0), 0);
    assert_eq!(notify_seconds(0, 1), 1);
    assert_eq!(notify_seconds(1, 0), 1);
    assert_eq!(notify_seconds(1, 999_999_999), 2);
    assert_eq!(notify_seconds(u64::MAX, 1), u64::MAX);
}

#[test]
fn acks_are_paired_with_their_watchers() {
    let ack = |notifier_id, payload: &[u8]| NotifyAck {
        notifier_id,
        payload: payload.to_vec(),
    };
    assert_eq!(
        notify_outcome(Ok(vec![ack(8, b"ack-2"), ack(5, b"ack-1")])).expect("notify"),
        vec![(8, b"ack-2".to_vec()), (5, b"ack-1".to_vec())]
    );
    assert!(notify_outcome(Ok(vec![])).expect("notify").is_empty());
    assert!(matches!(
        notify_outcome(Err(RadosError::NotFound)),
        Err(Rejected::NotFound)
    ));
}

#[test]
fn write_once_creates_and_fills() {
    assert_eq!(
        write_once_op(b"data").steps(),
        &[
            WriteStep::Create { exclusive: true },
            WriteStep::WriteFull(b"data")
        ]
    );
}

const ELECTION: Election<'static> = Election {
    oid: "role",
    name: "writer",
    epoch_key: b"epoch",
    holder_key: b"holder",
};

fn own_locker() -> Event {
    let locker = |cookie: &str, addr: &str| Locker {
        client: "client.1".into(),
        cookie: cookie.into(),
        addr: addr.into(),
    };
    Event::Listed(Ok(vec![
        locker("other", "v1:1/1"),
        locker("me", "v1:2/2"),
        locker("me", "v1:3/3"),
    ]))
}

fn state(pairs: &[(&[u8], &[u8])]) -> Event {
    Event::Read(Ok((
        OmapEntries::from_pairs(
            pairs
                .iter()
                .map(|(k, v)| (k.to_vec(), v.to_vec()))
                .collect(),
        ),
        Version(1),
    )))
}

/// An acquisition that has read `pairs`.
fn after_reading(pairs: &[(&[u8], &[u8])]) -> Acquire<'static> {
    Acquire::new(&ELECTION, "me", TTL)
        .step(Event::Locked(Ok(true)))
        .step(own_locker())
        .step(Event::Renewed(Ok(true)))
        .step(state(pairs))
}

#[test]
fn acquire_asks_for_its_calls_in_turn() {
    let call = |must_renew| LockCall {
        oid: "role",
        name: "writer",
        cookie: "me",
        desc: "",
        duration: Some(TTL),
        must_renew,
    };
    let acquire = Acquire::new(&ELECTION, "me", TTL);
    assert!(matches!(acquire.action(), Action::Lock(c) if c == call(false)));
    let acquire = acquire.step(Event::Locked(Err(Rejected::Exists)));
    assert!(matches!(
        acquire.action(),
        Action::List {
            oid: "role",
            name: "writer"
        }
    ));
    let acquire = acquire.step(own_locker());
    assert!(matches!(acquire.action(), Action::Renew(c) if c == call(true)));
    let acquire = acquire.step(Event::Renewed(Ok(true)));
    assert!(
        matches!(acquire.action(), Action::Read { oid: "role", keys } if keys == [&b"epoch"[..], &b"holder"[..]])
    );
    let acquire = acquire.step(state(&[
        (b"epoch", &epoch_bytes(6)),
        (b"holder", b"v1:9/9"),
    ]));
    assert!(
        matches!(acquire.action(), Action::Blocklist { addr: "v1:9/9", ttl } if ttl == TTL)
    );
    let acquire = acquire.step(Event::Blocklisted(Ok(())));
    assert!(matches!(acquire.action(), Action::AwaitMap));
    let acquire = acquire.step(Event::MapAwaited(Ok(())));
    assert!(matches!(acquire.action(), Action::Renew(c) if c == call(true)));
    let acquire = acquire.step(Event::Renewed(Ok(true)));
    match acquire.action() {
        Action::Write { oid, write } => {
            assert_eq!(oid, "role");
            let write = write.write();
            let (op, _) = write.prepare().expect("prepare");
            assert_eq!(
                op.steps(),
                &[
                    WriteStep::OmapEquals {
                        key: b"epoch",
                        value: &epoch_bytes(6)
                    },
                    WriteStep::OmapSet(&[
                        (b"epoch", &epoch_bytes(7)),
                        // The first locker entry with the cookie.
                        (b"holder", b"v1:2/2"),
                    ]),
                ]
            );
        }
        other => panic!("no write: {other:?}"),
    }
    let acquire = acquire.step(Event::Written(Ok(())));
    assert!(matches!(acquire.action(), Action::Finish));
    assert!(matches!(acquire.into_result(), Ok(Some(7))));
}

#[test]
fn acquire_ends_without_an_epoch_where_the_lease_is_lost() {
    let start = || Acquire::new(&ELECTION, "me", TTL);
    let taken = || start().step(Event::Locked(Ok(true)));
    let lost = vec![
        start().step(Event::Locked(Ok(false))),
        taken().step(Event::Listed(Ok(vec![]))),
        taken().step(own_locker()).step(Event::Renewed(Ok(false))),
        after_reading(&[]).step(Event::Renewed(Ok(false))),
    ];
    for acquire in lost {
        assert!(matches!(acquire.action(), Action::Finish));
        assert!(matches!(acquire.into_result(), Ok(None)));
    }
}

#[test]
fn acquire_releases_the_lease_on_failure() {
    let rejected = || Rejected::Rados(5);
    let taken = || Acquire::new(&ELECTION, "me", TTL).step(Event::Locked(Ok(true)));
    let other: &[(&[u8], &[u8])] = &[(b"holder", b"v1:9/9")];
    let failures = vec![
        taken().step(Event::Listed(Err(rejected()))),
        taken()
            .step(own_locker())
            .step(Event::Renewed(Err(rejected()))),
        taken()
            .step(own_locker())
            .step(Event::Renewed(Ok(true)))
            .step(Event::Read(Err(rejected()))),
        after_reading(other).step(Event::Blocklisted(Err(RadosError::Rados(5)))),
        after_reading(other)
            .step(Event::Blocklisted(Ok(())))
            .step(Event::MapAwaited(Err(RadosError::Rados(5)))),
        after_reading(&[]).step(Event::Renewed(Err(rejected()))),
        after_reading(&[])
            .step(Event::Renewed(Ok(true)))
            .step(Event::Written(Err(rejected()))),
    ];
    for acquire in failures {
        assert!(matches!(
            acquire.action(),
            Action::Unlock {
                oid: "role",
                name: "writer",
                cookie: "me"
            }
        ));
        let acquire = acquire.step(Event::Unlocked);
        assert!(matches!(acquire.action(), Action::Finish));
        assert!(matches!(acquire.into_result(), Err(Rejected::Rados(5))));
    }

    // A lease that was not taken is not released.
    let refused = Acquire::new(&ELECTION, "me", TTL).step(Event::Locked(Err(rejected())));
    assert!(matches!(refused.action(), Action::Finish));
    assert!(matches!(refused.into_result(), Err(Rejected::Rados(5))));
}

#[test]
fn acquire_fences_only_another_holder() {
    for pairs in [
        &[][..],
        &[(&b"holder"[..], &b""[..])][..],
        &[(&b"holder"[..], &b"v1:2/2"[..])][..],
    ] {
        assert!(matches!(after_reading(pairs).action(), Action::Renew(_)));
    }
    // Where the monitor does not allow it, the epoch alone fences.
    let refused = after_reading(&[(b"holder", b"v1:9/9")])
        .step(Event::Blocklisted(Err(RadosError::Rados(errno::EACCES))));
    assert!(matches!(refused.action(), Action::Renew(_)));
    // An address is text.
    let acquire = after_reading(&[(b"holder", b"\xff")]).step(Event::Unlocked);
    assert!(matches!(
        acquire.into_result(),
        Err(Rejected::Rados(errno::EINVAL))
    ));
}

#[test]
fn acquire_needs_an_epoch_and_a_next_one() {
    let acquire = after_reading(&[(b"epoch", b"12")]).step(Event::Unlocked);
    assert!(matches!(
        acquire.into_result(),
        Err(Rejected::Rados(errno::EINVAL))
    ));
    let acquire = after_reading(&[(b"epoch", &epoch_bytes(u64::MAX))])
        .step(Event::Renewed(Ok(true)))
        .step(Event::Unlocked);
    assert!(matches!(
        acquire.into_result(),
        Err(Rejected::Rados(errno::EOVERFLOW))
    ));
}

#[test]
fn one_key_for_both_holds_no_holder() {
    let election = Election {
        holder_key: b"epoch",
        ..ELECTION
    };
    let acquire = Acquire::new(&election, "me", TTL)
        .step(Event::Locked(Ok(true)))
        .step(own_locker())
        .step(Event::Renewed(Ok(true)))
        .step(state(&[(b"epoch", &epoch_bytes(3))]));
    assert!(matches!(acquire.action(), Action::Renew(_)));
}

#[test]
fn unknown_outcome_keeps_its_errno() {
    let write = Write {
        guards: vec![
            Guard::Version(Version(3)),
            Guard::Exists,
            Guard::OmapEq(b"k", b"v"),
        ],
        mutations: vec![Mutation::Remove],
    };
    let (_, guards) = write.prepare().expect("prepare");
    let reply = Err(failed(RadosError::Rados(110), None));
    assert!(matches!(
        write_outcome(&guards, reply),
        Err(Rejected::Rados(110))
    ));
}
