# rados-primitives

Guarded single-object operations, leases, watch/notify, and writer election on Ceph RADOS,
verified with Verus.

## Overview

- **Guarded compound writes**: atomic compare-and-write operations on a single RADOS object
  (`omap_cmp`, `cmpxattr`, `assert_version`, `assert_exists`). If any guard fails, no mutations
  are applied, and the rejection names the guard.
- **Leases**: timed exclusive leases via `cls_lock`.
- **Version-pinned reads**: consistent pagination over omap keys pinned to an explicit object
  `Version`.
- **Watch & notify**: the watchers' acks, paired with the watchers.
- **Writer election**: lease-backed epoch progression and fencing, with optional client
  blocklisting.

## Layout

`src/` is the library. It decides what is sent and what an answer comes to, and does no I/O:

| module | what it decides |
| --- | --- |
| `guard`, `write`, `op` | the one operation that a `Write` is sent as, and the guard that a failure names |
| `read`, `entries`, `bytes` | the operations that read, and pages in key order |
| `paging` | what holds of pages that are read one after the other |
| `lock`, `watch` | lease calls and notifications, and their answers |
| `epoch` | the encoding of epochs |
| `election` | the calls that becoming the writer takes, one after the other |
| `acquisition` | what holds of every run of an election |
| `error`, `errno`, `text` | rejections and their messages |

Properties of the library as a whole are the public proof functions whose names start with
`law_`.

`app/` holds the pool handles, `Replicated` and `Bulk`, and makes the librados calls.

## Example: a guarded write

```rust
use rados_primitives::op::{WriteError, WriteOp};
use rados_primitives::write::write_outcome;
use rados_primitives::{Guard, Mutation, Rejected, Write};

fn increment_revision(
    send: impl Fn(&WriteOp) -> Result<(), WriteError>,
    expected_rev: &[u8],
    new_rev: &[u8],
) -> Result<(), Rejected> {
    let entries = [(&b"revision"[..], new_rev)];
    let write = Write {
        guards: vec![Guard::OmapEq(b"revision", expected_rev)],
        mutations: vec![Mutation::OmapSet(&entries)],
    };
    let (op, guards) = write.prepare()?;
    write_outcome(&guards, send(&op))
}
```
