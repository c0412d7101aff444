//! Serving git's own protocol: which git to run for a fetch or a push.

use vstd::prelude::*;

use super::convert::{self, make_status};
use super::messages::{Code, RepositoryPath, RepositoryPathView, Status, StatusView};
use crate::git::hook;
use crate::git::{self, StorageConfig, StorageConfigView};
use crate::host::{self, HostCall, HostCallView, Replies, ReplyView, Step, StepView};
use crate::text;

verus! {

/// What the first message of a fetch or a push says: the repository, and for a
/// push what it is confined to and which branches are protected.
#[derive(Debug, Clone)]
pub struct PackInit {
    pub repository: Option<RepositoryPath>,
    pub ref_patterns: Option<Vec<String>>,
    pub path_patterns: Option<Vec<String>>,
    pub protected_patterns: Option<Vec<String>>,
}

/// A message of a fetch or a push.
#[derive(Debug, Clone)]
pub enum PackRequest {
    Init(PackInit),
    Data(Vec<u8>),
}

/// How to run git: its arguments, and what its environment holds besides.
#[derive(Debug, Clone)]
pub struct PackCommand {
    pub args: Vec<String>,
    pub env: Vec<(String, String)>,
}

/// The value of a [`PackInit`].
pub struct PackInitView {
    pub repository: Option<RepositoryPathView>,
    pub ref_patterns: Option<Seq<Seq<char>>>,
    pub path_patterns: Option<Seq<Seq<char>>>,
    pub protected_patterns: Option<Seq<Seq<char>>>,
}

/// The value of a [`PackRequest`].
pub enum PackRequestView {
    Init(PackInitView),
    Data(Seq<u8>),
}

/// The value of a [`PackCommand`].
pub struct PackCommandView {
    pub args: Seq<Seq<char>>,
    pub env: Seq<(Seq<char>, Seq<char>)>,
}

impl DeepView for PackInit {
    type V = PackInitView;

    open spec fn deep_view(&self) -> PackInitView {
        PackInitView {
            repository: self.repository.deep_view(),
            ref_patterns: self.ref_patterns.deep_view(),
            path_patterns: self.path_patterns.deep_view(),
            protected_patterns: self.protected_patterns.deep_view(),
        }
    }
}

impl DeepView for PackRequest {
    type V = PackRequestView;

    open spec fn deep_view(&self) -> PackRequestView {
        match self {
            PackRequest::Init(init) => PackRequestView::Init(init.deep_view()),
            PackRequest::Data(data) => PackRequestView::Data(data@),
        }
    }
}

impl DeepView for PackCommand {
    type V = PackCommandView;

    open spec fn deep_view(&self) -> PackCommandView {
        PackCommandView { args: self.args.deep_view(), env: self.env.deep_view() }
    }
}

/// A list of strings written in JSON.
pub uninterp spec fn json_of_list(list: Seq<Seq<char>>) -> Seq<char>;

/// `serde_json::Value` made of a list of strings and displayed: the same list is
/// read back from it.
#[verifier::external_body]
fn write_json_list(list: &Vec<String>) -> (r: String)
    ensures
        r@ == json_of_list(list.deep_view()),
        hook::json_string_list(r@) == Some(list.deep_view()),
{
    serde_json::Value::from(list.clone()).to_string()
}

/// The first message, if it is one: it names a repository.
pub open spec fn first_message(first: Option<PackRequestView>) -> StepView<
    (RepositoryPathView, PackInitView),
    StatusView,
> {
    match first {
        None => StepView::Failed(
            convert::status(Code::InvalidArgument, "missing init message"@),
        ),
        Some(PackRequestView::Data(data)) => StepView::Failed(
            convert::status(Code::InvalidArgument, "first message must be init"@),
        ),
        Some(PackRequestView::Init(init)) => match init.repository {
            None => StepView::Failed(
                convert::status(Code::InvalidArgument, "missing repository"@),
            ),
            Some(repository) => StepView::Done((repository, init)),
        },
    }
}

/// The path of a repository, if there is anything.
pub open spec fn located(
    k: Seq<(HostCallView, ReplyView)>,
    config: StorageConfigView,
    repository: RepositoryPathView,
) -> StepView<Seq<char>, StatusView> {
    let path = git::repo_path(config, repository.owner, repository.name);
    let call = HostCallView::PathExists { path };
    host::await_reply(
        host::flag(k, call),
        call,
        |there: bool|
            if there {
                StepView::Done(path)
            } else {
                StepView::Failed(convert::status(Code::NotFound, "repository not found"@))
            },
    )
}

/// Git serving one exchange of a service on a repository.
pub open spec fn serving(service: Seq<char>, path: Seq<char>) -> Seq<Seq<char>> {
    seq![service, "--stateless-rpc"@, path]
}

/// The variable that hands patterns to the hook, if there are any.
pub open spec fn pattern_variable(name: Seq<char>, patterns: Option<Seq<Seq<char>>>) -> Seq<
    (Seq<char>, Seq<char>),
> {
    match patterns {
        None => Seq::empty(),
        Some(list) => seq![(name, json_of_list(list))],
    }
}

/// Whether a push is confined or meets protected branches.
pub open spec fn bounded(init: PackInitView) -> bool {
    init.ref_patterns is Some || init.path_patterns is Some || init.protected_patterns is Some
}

/// How to run git for a push: one that is bounded runs the hook, with the bounds
/// in its environment.
pub open spec fn push_command(
    config: StorageConfigView,
    binary: Seq<char>,
    path: Seq<char>,
    init: PackInitView,
) -> PackCommandView {
    if bounded(init) {
        PackCommandView {
            args: seq!["-c"@, "core.hooksPath="@ + git::hooks_dir(config)] + serving(
                "receive-pack"@,
                path,
            ),
            env: seq![("ARBOR_GIT_BIN"@, binary)] + pattern_variable(
                "ARBOR_REF_PATTERNS"@,
                init.ref_patterns,
            ) + pattern_variable("ARBOR_PATH_PATTERNS"@, init.path_patterns) + pattern_variable(
                "ARBOR_PROTECTED_REF_PATTERNS"@,
                init.protected_patterns,
            ),
        }
    } else {
        PackCommandView { args: serving("receive-pack"@, path), env: Seq::empty() }
    }
}

/// How to run git for a fetch.
pub open spec fn upload_pack(
    k: Seq<(HostCallView, ReplyView)>,
    config: StorageConfigView,
    first: Option<PackRequestView>,
) -> StepView<PackCommandView, StatusView> {
    host::chain(
        first_message(first),
        |message: (RepositoryPathView, PackInitView)|
            host::chain(
                located(k, config, message.0),
                |path: Seq<char>|
                    StepView::Done(
                        PackCommandView {
                            args: serving("upload-pack"@, path),
                            env: Seq::empty(),
                        },
                    ),
            ),
    )
}

/// How to run git for a push.
pub open spec fn receive_pack(
    k: Seq<(HostCallView, ReplyView)>,
    config: StorageConfigView,
    binary: Seq<char>,
    first: Option<PackRequestView>,
) -> StepView<PackCommandView, StatusView> {
    host::chain(
        first_message(first),
        |message: (RepositoryPathView, PackInitView)|
            host::chain(
                located(k, config, message.0),
                |path: Seq<char>|
                    StepView::Done(push_command(config, binary, path, message.1)),
            ),
    )
}

/// The bytes that a message after the first hands on to git; what is no data is
/// passed over.
pub open spec fn forwarded(message: Option<PackRequestView>) -> Option<Seq<u8>> {
    match message {
        Some(PackRequestView::Data(data)) => Some(data),
        _ => None,
    }
}

/// The bytes that a message after the first hands on to git, [`forwarded`].
pub fn forward(message: Option<PackRequest>) -> (r: Option<Vec<u8>>)
    ensures
        match r {
            Some(data) => forwarded(message.deep_view()) == Some(data@),
            None => forwarded(message.deep_view()) is None,
        },
{
    match message {
        Some(PackRequest::Data(data)) => Some(data),
        _ => None,
    }
}

/// The failure to start git.
pub fn spawn_failure(service: &str, error: &str) -> (r: Status)
    ensures
        r.deep_view() == convert::status(
            Code::Internal,
            "failed to spawn git "@ + service@ + ": "@ + error@,
        ),
{
    let start = text::concat3("failed to spawn git ", service, ": ");
    Status { code: Code::Internal, message: text::concat(&start, error) }
}

/// The failure of git itself, given how it ended and what it wrote of it; none
/// where it succeeded.
pub fn exit_failure(service: &str, success: bool, status: &str, stderr: &str) -> (r: Option<Status>)
    ensures
        r.deep_view() == if success {
            None
        } else {
            Some(
                convert::status(
                    Code::Internal,
                    "git "@ + service@ + " exited with "@ + status@ + ": "@ + stderr@,
                ),
            )
        },
{
    if success {
        None
    } else {
        let start = text::concat3("git ", service, " exited with ");
        let middle = text::concat3(&start, status, ": ");
        Some(Status { code: Code::Internal, message: text::concat(&middle, stderr) })
    }
}

/// The repository and the rest of the first message, [`first_message`].
fn read_first(first: Option<PackRequest>) -> (r: Step<(RepositoryPath, PackInit), Status>)
    ensures
        r.deep_view() == first_message(first.deep_view()),
{
    match first {
        None => Step::Failed(make_status(Code::InvalidArgument, "missing init message")),
        Some(PackRequest::Data(_)) => Step::Failed(
            make_status(Code::InvalidArgument, "first message must be init"),
        ),
        Some(PackRequest::Init(init)) => match &init.repository {
            None => Step::Failed(make_status(Code::InvalidArgument, "missing repository")),
            Some(repository) => {
                let path = RepositoryPath {
                    owner: repository.owner.clone(),
                    name: repository.name.clone(),
                };
                Step::Done((path, init))
            },
        },
    }
}

/// The path of a repository, [`located`].
fn locate(config: &StorageConfig, repository: &RepositoryPath, replies: &Replies) -> (r: Step<
    String,
    Status,
>)
    ensures
        r.deep_view() == located(
            replies.deep_view(),
            config.deep_view(),
            repository.deep_view(),
        ),
{
    let path = config.repo_path(&repository.owner, &repository.name);
    let call = HostCall::PathExists { path: path.clone() };
    match replies.flag(&call) {
        None => host::ask(call),
        Some(true) => Step::Done(path),
        Some(false) => Step::Failed(make_status(Code::NotFound, "repository not found")),
    }
}

/// Adds the arguments with which git serves a service, [`serving`].
fn push_serving(args: &mut Vec<String>, service: &str, path: String)
    ensures
        final(args).deep_view() == old(args).deep_view() + serving(service@, path@),
{
    let ghost before = args.deep_view();
    args.push(service.to_owned());
    args.push("--stateless-rpc".to_owned());
    args.push(path);
    assert(args.deep_view() =~= before + serving(service@, path@));
}

/// Adds the variable that hands patterns to the hook, [`pattern_variable`].
fn push_patterns(env: &mut Vec<(String, String)>, name: &str, patterns: &Option<Vec<String>>)
    ensures
        final(env).deep_view() == old(env).deep_view() + pattern_variable(
            name@,
            patterns.deep_view(),
        ),
        patterns is Some ==> hook::json_string_list(json_of_list(patterns.deep_view()->0))
            == patterns.deep_view(),
{
    let ghost before = env.deep_view();
    match patterns {
        None => {
            assert(before + Seq::<(Seq<char>, Seq<char>)>::empty() =~= before);
        },
        Some(list) => {
            let value = write_json_list(list);
            env.push((name.to_owned(), value));
            assert(env.deep_view() =~= before + seq![(name@, value@)]);
        },
    }
}

/// How to run git for a fetch, [`upload_pack`].
pub fn prepare_upload(config: &StorageConfig, first: Option<PackRequest>, replies: &Replies) -> (r:
    Step<PackCommand, Status>)
    ensures
        r.deep_view() == upload_pack(
            replies.deep_view(),
            config.deep_view(),
            first.deep_view(),
        ),
{
    let (repository, _) = match read_first(first) {
        Step::Ask(calls) => return Step::Ask(calls),
        Step::Failed(status) => return Step::Failed(status),
        Step::Done(found) => found,
    };
    match locate(config, &repository, replies) {
        Step::Ask(calls) => Step::Ask(calls),
        Step::Failed(status) => Step::Failed(status),
        Step::Done(path) => {
            let mut args: Vec<String> = Vec::new();
            let env: Vec<(String, String)> = Vec::new();
            let ghost to = path@;
            push_serving(&mut args, "upload-pack", path);
            assert(args.deep_view() =~= serving("upload-pack"@, to));
            assert(env.deep_view() =~= Seq::<(Seq<char>, Seq<char>)>::empty());
            Step::Done(PackCommand { args, env })
        },
    }
}

/// How to run git for a push, [`receive_pack`]. The hook reads the very bounds
/// that the push was given.
pub fn prepare_receive(
    config: &StorageConfig,
    binary: &str,
    first: Option<PackRequest>,
    replies: &Replies,
) -> (r: Step<PackCommand, Status>)
    ensures
        r.deep_view() == receive_pack(
            replies.deep_view(),
            config.deep_view(),
            binary@,
            first.deep_view(),
        ),
        r is Done ==> ({
            let init = first.deep_view()->0->Init_0;
            &&& init.ref_patterns is Some ==> hook::patterns_of(
                Some(json_of_list(init.ref_patterns->0)),
            ) == init.ref_patterns
            &&& init.path_patterns is Some ==> hook::patterns_of(
                Some(json_of_list(init.path_patterns->0)),
            ) == init.path_patterns
            &&& init.protected_patterns is Some ==> hook::protected_of(
                Some(json_of_list(init.protected_patterns->0)),
            ) == init.protected_patterns
        }),
{
    let (repository, init) = match read_first(first) {
        Step::Ask(calls) => return Step::Ask(calls),
        Step::Failed(status) => return Step::Failed(status),
        Step::Done(found) => found,
    };
    let path = match locate(config, &repository, replies) {
        Step::Ask(calls) => return Step::Ask(calls),
        Step::Failed(status) => return Step::Failed(status),
        Step::Done(path) => path,
    };
    let ghost to = path@;
    let mut args: Vec<String> = Vec::new();
    let mut env: Vec<(String, String)> = Vec::new();
    assert(env.deep_view() =~= Seq::<(Seq<char>, Seq<char>)>::empty());
    if init.ref_patterns.is_some() || init.path_patterns.is_some()
        || init.protected_patterns.is_some() {
        let dir = config.hooks_dir();
        args.push("-c".to_owned());
        args.push(text::concat("core.hooksPath=", &dir));
        assert(args.deep_view() =~= seq!["-c"@, "core.hooksPath="@ + dir@]);
        push_serving(&mut args, "receive-pack", path);
        env.push(("ARBOR_GIT_BIN".to_owned(), binary.to_owned()));
        assert(env.deep_view() =~= seq![("ARBOR_GIT_BIN"@, binary@)]);
        push_patterns(&mut env, "ARBOR_REF_PATTERNS", &init.ref_patterns);
        push_patterns(&mut env, "ARBOR_PATH_PATTERNS", &init.path_patterns);
        push_patterns(&mut env, "ARBOR_PROTECTED_REF_PATTERNS", &init.protected_patterns);
    } else {
        push_serving(&mut args, "receive-pack", path);
        assert(args.deep_view() =~= serving("receive-pack"@, to));
    }
    Step::Done(PackCommand { args, env })
}

} // verus!
