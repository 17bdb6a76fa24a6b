# Weave

A real-time collaboration layer above Git, verified with Verus: several people,
each with a local copy of one repository, edit at the same time while one host
keeps a single shared live state and turns it into ordinary Git commits.

## What is proved

The public functions of `src/` have contracts. The two engines are state machines:
each of their steps is stated as a rule on plain values, and the code is proved
to follow it. On top of the rules stand the laws, as public proof functions:

- `client_laws.rs`: captured work is kept, bytes that were never captured are
  never overwritten, a barrier is answered only when nothing is outstanding.
- `writes.rs`: a working file is only ever written right after a look at it that
  found nothing new.
- `host_laws.rs`: an operation has one answer, makes one revision at most, and
  history only grows; a publication is bound to one revision.
- `host_step.rs`: a barrier waits for connected participants only, and no longer
  than its time.
- `commit.rs`: a publication is on record before the branch moves, and a commit
  only goes forward.
- `convergence.rs`, `steady.rs`: whoever applies what the host announces ends up with the
  host's state; a conflict keeps every candidate; tasks are advice.
- `link.rs`: nothing is heard before a handshake or outside the encrypted
  channel.
- `live.rs`, `blobs.rs`, `blobwire.rs`: content somebody can name is never
  swept, and nothing is installed that does not hash to its name.

Time, fresh identifiers, the disk, Git and the network are inputs. What is
called in other crates stands behind small functions whose contracts are
believed: hashing (`sha2`), normalization (`unicode-normalization`), string
literals (`serde_json`) and identifiers (`uuid`).

## Layout

- `src/`: the library. `client*.rs` is the replica, `host*.rs` and `publish*.rs`
  the coordinator, `store_*.rs` what each of them remembers.
- `app/`: the program: arguments, SQLite, the working tree, Git processes, the
  local control channel. It serves sessions on one machine (`weave host
  --local`); the encrypted transport between machines is not part of it.
- `tests/`: tests of the library, among them whole sessions with a host and
  several replicas.
