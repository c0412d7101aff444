# arbor-git

The Git backend of Arbor: a daemon that serves repositories over gRPC, with an
HTTP side for health checks, written in Verus. What it decides is proved; what it
touches, it asks for.

## How it is built

No operation of the library reads or writes anything itself. Each is a function of
its arguments and of the replies that the machine has given so far (`src/host.rs`).
It either concludes or says which calls it wants made next. The daemon makes those
calls, records the replies and runs the operation again. The contract of every
operation says, for every list of replies, exactly which calls it asks for, what it
answers and how it fails.

| Path | What it holds |
| --- | --- |
| `src/host.rs` | calls to the machine, replies, and the steps of an operation |
| `src/text.rs` | the string operations that the rest is built from |
| `src/git/` | repositories, references, commits, trees, differences, merges |
| `src/git/scope_match.rs`, `src/git/hook.rs` | the bounds of a push and the hook that enforces them |
| `src/grpc/` | the calls of the service, as plain values |
| `src/server/` | ports, addresses and what the HTTP side answers |
| `src/laws/` | what holds of the operations together |
| `app/` | the daemon: environment, file system, gitoxide, git, gRPC and HTTP |

## Configuration

| Variable | Default | Description |
| --- | --- | --- |
| `GRPC_PORT` | `50051` | port of the gRPC service |
| `HTTP_PORT` | `8080` | port of the HTTP server |
| `STORAGE_PATH` | `./data/repositories` | root of all repositories |
| `DEFAULT_BRANCH` | `main` | default branch of new repositories |
| `GIT_DEFAULT_BRANCH` | unset | default branch where `DEFAULT_BRANCH` is not set |
| `GIT_MAX_REPO_SIZE` | 1 GiB | largest size of a repository, in bytes |
| `RUST_LOG` | `arbor_git=info` | what is logged |

A push is bounded by `ARBOR_REF_PATTERNS`, `ARBOR_PATH_PATTERNS` and
`ARBOR_PROTECTED_REF_PATTERNS`, lists of patterns in JSON, which the daemon hands
to the hook that git runs before any reference moves.
