//! What holds of the hook that is put on a disk.

use vstd::prelude::*;

use super::disk::lemma_known;
use crate::git::{self, GitErrorView, StorageConfigView};
use crate::host::{self, HostCallView, ReplyView, StepView};

verus! {

/// A disk by its directories, what its files hold, and which of them everyone may
/// execute.
pub struct FilesView {
    pub directories: Set<Seq<char>>,
    pub contents: Map<Seq<char>, Seq<char>>,
    pub executable: Set<Seq<char>>,
}

/// What a call that succeeds does to a disk: a directory that is there already is
/// left as it is, a file holds what was written to it last, and an existing one
/// keeps its mode when it is written. Nothing is claimed of a failure or of any
/// other call.
pub open spec fn leaves(
    before: FilesView,
    call: HostCallView,
    reply: ReplyView,
    after: FilesView,
) -> bool {
    reply == ReplyView::Effect(None) ==> match call {
        HostCallView::CreateDirectory { path } => {
            &&& before.directories.subset_of(after.directories)
            &&& after.directories.contains(path)
            &&& before.directories.contains(path) ==> after.directories == before.directories
            &&& after.contents == before.contents
            &&& after.executable == before.executable
        },
        HostCallView::WriteFile { path, contents } => {
            &&& after.directories == before.directories
            &&& after.contents == before.contents.insert(path, contents)
            &&& before.contents.dom().contains(path) ==> after.executable == before.executable
        },
        HostCallView::MakeExecutable { path } => {
            &&& after.directories == before.directories
            &&& after.contents == before.contents
            &&& after.executable == before.executable.insert(path)
        },
        _ => true,
    }
}

/// Whether the hook is put on a disk: each call is the one that
/// [`git::ensure_hook`] asks for, gets a reply of its kind and leaves what it is for.
pub open spec fn installs(
    config: StorageConfigView,
    disks: Seq<FilesView>,
    k: Seq<(HostCallView, ReplyView)>,
) -> bool {
    &&& disks.len() == k.len() + 1
    &&& forall|i: int|
        0 <= i < k.len() ==> git::ensure_hook(#[trigger] k.take(i), config) == StepView::<
            Seq<char>,
            GitErrorView,
        >::Ask(seq![k[i].0]) && host::fits(k[i].0, k[i].1) && leaves(
            disks[i],
            k[i].0,
            k[i].1,
            disks[i + 1],
        )
}

/// Where the hook stands below a storage.
pub open spec fn hook_path(config: StorageConfigView) -> Seq<char> {
    git::join(git::hooks_dir(config), "pre-receive"@)
}

/// The call that comes next where one is asked for.
proof fn lemma_next(
    config: StorageConfigView,
    disks: Seq<FilesView>,
    k: Seq<(HostCallView, ReplyView)>,
    i: int,
    call: HostCallView,
)
    requires
        installs(config, disks, k),
        git::ensure_hook(k, config) is Done,
        0 <= i <= k.len(),
        git::ensure_hook(k.take(i), config) == StepView::<Seq<char>, GitErrorView>::Ask(
            seq![call],
        ),
    ensures
        i < k.len(),
        k[i].0 == call,
        host::fits(call, k[i].1),
        leaves(disks[i], call, k[i].1, disks[i + 1]),
{
    assert(k.take(k.len() as int) == k);
    assert(seq![k[i].0][0] == seq![call][0]);
}

/// A step that asks for nothing is the last one.
proof fn lemma_done(
    config: StorageConfigView,
    disks: Seq<FilesView>,
    k: Seq<(HostCallView, ReplyView)>,
    i: int,
)
    requires
        installs(config, disks, k),
        git::ensure_hook(k, config) is Done,
        0 <= i <= k.len(),
        !(git::ensure_hook(k.take(i), config) is Ask),
    ensures
        k.len() == i,
        git::ensure_hook(k.take(i), config) == git::ensure_hook(k, config),
{
    assert(k.take(k.len() as int) == k);
}

/// Putting the hook on a disk takes three calls, all of which succeed.
proof fn lemma_three_calls(
    config: StorageConfigView,
    disks: Seq<FilesView>,
    k: Seq<(HostCallView, ReplyView)>,
)
    requires
        installs(config, disks, k),
        git::ensure_hook(k, config) is Done,
    ensures
        k.len() == 3,
        git::ensure_hook(k, config) == StepView::<Seq<char>, GitErrorView>::Done(
            git::hooks_dir(config),
        ),
        ({
            let done = ReplyView::Effect(None);
            let dir = HostCallView::CreateDirectory { path: git::hooks_dir(config) };
            let write = HostCallView::WriteFile {
                path: hook_path(config),
                contents: git::hook_script(),
            };
            let mode = HostCallView::MakeExecutable { path: hook_path(config) };
            &&& leaves(disks[0], dir, done, disks[1])
            &&& leaves(disks[1], write, done, disks[2])
            &&& leaves(disks[2], mode, done, disks[3])
        }),
{
    let path = hook_path(config);
    assert(k.take(0).len() == 0);
    lemma_next(
        config,
        disks,
        k,
        0,
        HostCallView::CreateDirectory { path: git::hooks_dir(config) },
    );
    lemma_known(k, 0);
    if k[0].1 != ReplyView::Effect(None) {
        lemma_done(config, disks, k, 1);
    }
    lemma_next(
        config,
        disks,
        k,
        1,
        HostCallView::WriteFile { path, contents: git::hook_script() },
    );
    lemma_known(k, 1);
    if k[1].1 != ReplyView::Effect(None) {
        lemma_done(config, disks, k, 2);
    }
    lemma_next(config, disks, k, 2, HostCallView::MakeExecutable { path });
    lemma_known(k, 2);
    lemma_done(config, disks, k, 3);
}

/// Whatever was there before, once the hook has been put on a disk its directory is
/// there, and in it the script that runs the hook, which everyone may execute. The
/// directory is what is told.
pub proof fn law_hook_is_there(
    config: StorageConfigView,
    disks: Seq<FilesView>,
    k: Seq<(HostCallView, ReplyView)>,
)
    requires
        installs(config, disks, k),
        git::ensure_hook(k, config) is Done,
    ensures
        git::ensure_hook(k, config) == StepView::<Seq<char>, GitErrorView>::Done(
            git::hooks_dir(config),
        ),
        disks.last().directories.contains(git::hooks_dir(config)),
        disks.last().contents.dom().contains(hook_path(config)),
        disks.last().contents[hook_path(config)] == git::hook_script(),
        disks.last().executable.contains(hook_path(config)),
{
    lemma_three_calls(config, disks, k);
}

/// To put the hook on a disk once more tells the same directory and leaves the disk
/// as it was.
pub proof fn law_hook_once_more_changes_nothing(
    config: StorageConfigView,
    disks: Seq<FilesView>,
    k: Seq<(HostCallView, ReplyView)>,
    later_disks: Seq<FilesView>,
    later: Seq<(HostCallView, ReplyView)>,
)
    requires
        installs(config, disks, k),
        git::ensure_hook(k, config) is Done,
        installs(config, later_disks, later),
        git::ensure_hook(later, config) is Done,
        later_disks[0] == disks.last(),
    ensures
        git::ensure_hook(later, config) == git::ensure_hook(k, config),
        later_disks.last() == disks.last(),
{
    lemma_three_calls(config, disks, k);
    law_hook_is_there(config, disks, k);
    lemma_three_calls(config, later_disks, later);
    let was = disks.last();
    let is = later_disks.last();
    assert(is.contents =~= was.contents);
    assert(is.executable =~= was.executable);
}

} // verus!
