//! What the daemon listens on, and what its HTTP side answers.

use vstd::prelude::*;

use crate::git::{self, GitError, GitErrorView, StorageConfig, StorageConfigView};
use crate::host::{self, HostCall, HostCallView, Replies, ReplyView, Step, StepView};
use crate::text;

verus! {

/// An address to listen on.
#[derive(Debug, Clone, Copy, PartialEq, Eq, Structural)]
pub struct Addr {
    pub a: u8,
    pub b: u8,
    pub c: u8,
    pub d: u8,
    pub port: u16,
}

/// All addresses of the machine, at one port.
pub open spec fn everywhere(port: u16) -> Addr {
    Addr { a: 0, b: 0, c: 0, d: 0, port }
}

/// What the daemon listens on, and where repositories are kept.
#[derive(Debug, Clone)]
pub struct ServerConfig {
    pub grpc_addr: Addr,
    pub http_addr: Addr,
    pub storage: StorageConfig,
}

/// The value of a [`ServerConfig`].
pub struct ServerConfigView {
    pub grpc_addr: Addr,
    pub http_addr: Addr,
    pub storage: StorageConfigView,
}

impl DeepView for ServerConfig {
    type V = ServerConfigView;

    open spec fn deep_view(&self) -> ServerConfigView {
        ServerConfigView {
            grpc_addr: self.grpc_addr,
            http_addr: self.http_addr,
            storage: self.storage.deep_view(),
        }
    }
}

/// The port of the remote procedure calls unless another is set.
pub const GRPC_PORT: u16 = 50051;

/// The port of the HTTP side unless another is set.
pub const HTTP_PORT: u16 = 8080;

/// The port that a variable sets; where it is not set, or holds no port, the
/// default stays.
pub open spec fn port_of(raw: Option<Seq<char>>, default: u16) -> u16 {
    match raw {
        None => default,
        Some(s) => match text::number(s, 65535) {
            Some(n) => n as u16,
            None => default,
        },
    }
}

/// The port that a variable sets, [`port_of`].
fn read_port(raw: Option<&str>, default: u16) -> (r: u16)
    ensures
        r == port_of(raw.deep_view(), default),
{
    match raw {
        None => default,
        Some(s) => match text::parse_number(s, 65535) {
            Some(n) => n as u16,
            None => default,
        },
    }
}

impl ServerConfig {
    /// The default ports, for a storage.
    pub fn new(storage: StorageConfig) -> (r: Self)
        ensures
            r.deep_view() == (ServerConfigView {
                grpc_addr: everywhere(GRPC_PORT),
                http_addr: everywhere(HTTP_PORT),
                storage: storage.deep_view(),
            }),
    {
        ServerConfig::from_env(None, None, storage)
    }

    /// The ports that the environment sets, given what it holds for `GRPC_PORT`
    /// and `HTTP_PORT`, for a storage.
    pub fn from_env(grpc_port: Option<&str>, http_port: Option<&str>, storage: StorageConfig) -> (r:
        Self)
        ensures
            r.deep_view() == (ServerConfigView {
                grpc_addr: everywhere(port_of(grpc_port.deep_view(), GRPC_PORT)),
                http_addr: everywhere(port_of(http_port.deep_view(), HTTP_PORT)),
                storage: storage.deep_view(),
            }),
    {
        ServerConfig {
            grpc_addr: Addr { a: 0, b: 0, c: 0, d: 0, port: read_port(grpc_port, GRPC_PORT) },
            http_addr: Addr { a: 0, b: 0, c: 0, d: 0, port: read_port(http_port, HTTP_PORT) },
            storage,
        }
    }
}

/// An answer over HTTP: its status and its words.
#[derive(Debug, Clone)]
pub struct HttpAnswer {
    pub status: u16,
    pub body: String,
}

/// The value of an [`HttpAnswer`].
pub struct HttpAnswerView {
    pub status: u16,
    pub body: Seq<char>,
}

impl DeepView for HttpAnswer {
    type V = HttpAnswerView;

    open spec fn deep_view(&self) -> HttpAnswerView {
        HttpAnswerView { status: self.status, body: self.body@ }
    }
}

/// An answer.
pub open spec fn answer(status: u16, body: Seq<char>) -> HttpAnswerView {
    HttpAnswerView { status, body }
}

/// An answer, [`answer`].
fn make_answer(status: u16, body: &str) -> (r: HttpAnswer)
    ensures
        r.deep_view() == answer(status, body@),
{
    HttpAnswer { status, body: body.to_owned() }
}

/// Whether the daemon runs: it does.
pub fn health_check() -> (r: HttpAnswer)
    ensures
        r.deep_view() == answer(200, "OK"@),
{
    make_answer(200, "OK")
}

/// Whether the daemon can do its work: there must be a storage, and it must be
/// writable.
pub open spec fn readiness(k: Seq<(HostCallView, ReplyView)>, storage: StorageConfigView) -> StepView<
    HttpAnswerView,
    GitErrorView,
> {
    let exists = HostCallView::PathExists { path: storage.base_path };
    let writable = HostCallView::PathWritable { path: storage.base_path };
    host::await_reply(
        host::flag(k, exists),
        exists,
        |there: bool|
            if there {
                host::await_reply(
                    host::flag(k, writable),
                    writable,
                    |usable: bool|
                        if usable {
                            StepView::Done(answer(200, "Ready"@))
                        } else {
                            StepView::Done(answer(503, "Storage not available"@))
                        },
                )
            } else {
                StepView::Done(answer(503, "Storage not available"@))
            },
    )
}

/// Whether the daemon can do its work, [`readiness`].
pub fn readiness_check(storage: &StorageConfig, replies: &Replies) -> (r: Step<HttpAnswer, GitError>)
    ensures
        r.deep_view() == readiness(replies.deep_view(), storage.deep_view()),
{
    let exists = HostCall::PathExists { path: storage.base_path.clone() };
    match replies.flag(&exists) {
        None => return host::ask(exists),
        Some(false) => return Step::Done(make_answer(503, "Storage not available")),
        Some(true) => {},
    }
    let writable = HostCall::PathWritable { path: storage.base_path.clone() };
    match replies.flag(&writable) {
        None => host::ask(writable),
        Some(true) => Step::Done(make_answer(200, "Ready")),
        Some(false) => Step::Done(make_answer(503, "Storage not available")),
    }
}

/// What a client is told that asks for references over HTTP: git's own services
/// are known but not served there, and others are not known.
pub open spec fn info_refs(service: Option<Seq<char>>) -> HttpAnswerView {
    if service == Some("git-upload-pack"@) || service == Some("git-receive-pack"@) {
        answer(501, "Git Smart HTTP not yet implemented"@)
    } else {
        answer(400, "Invalid service parameter"@)
    }
}

/// What a client is told that asks for references over HTTP, [`info_refs`].
pub fn git_info_refs(service: Option<&str>) -> (r: HttpAnswer)
    ensures
        r.deep_view() == info_refs(service.deep_view()),
{
    let known = match service {
        None => false,
        Some(name) => text::same(name, "git-upload-pack") || text::same(name, "git-receive-pack"),
    };
    if known {
        make_answer(501, "Git Smart HTTP not yet implemented")
    } else {
        make_answer(400, "Invalid service parameter")
    }
}

/// What a client is told that fetches over HTTP.
pub fn git_upload_pack() -> (r: HttpAnswer)
    ensures
        r.deep_view() == answer(501, "git-upload-pack not yet implemented"@),
{
    make_answer(501, "git-upload-pack not yet implemented")
}

/// What a client is told that pushes over HTTP.
pub fn git_receive_pack() -> (r: HttpAnswer)
    ensures
        r.deep_view() == answer(501, "git-receive-pack not yet implemented"@),
{
    make_answer(501, "git-receive-pack not yet implemented")
}

} // verus!
