//! Laws of the calls that copy a directory and its entries: what each asks for, by what was
//! answered before.

use crate::error::FailureKind;
use crate::file_id::FileId;
use crate::platform::Platform;
use crate::portable::dir;
use crate::portable::entry;
use crate::portable::laws::{
    dir_copied, possible_dir, run_dir, run_entry, DirRun,
};
use crate::schedule::SourceKind;
use crate::tree::Work;
use vstd::prelude::*;

verus! {

/// A directory to copy: where it is, where its copy goes, and the directory at the top of the
/// copy, if that came with it.
pub struct Task {
    pub platform: Platform,
    pub from: Seq<u8>,
    pub to: Seq<u8>,
    pub root_to_inode: Option<FileId>,
}

/// The copy of this directory at its beginning.
pub open spec fn begun_dir(task: Task) -> dir::DirCopy<Seq<u8>> {
    dir::DirCopy::<Seq<u8>>::begin(task.platform, task.from, task.to, task.root_to_inode)
}

/// The call that is made for a directory after these answers, if one is.
pub open spec fn dir_call<E>(task: Task, replies: Seq<dir::Reply<E>>) -> Option<
    dir::Request<Seq<u8>>,
> {
    match run_dir(begun_dir(task), replies) {
        Ok(copy) => copy.wants(),
        Err(_) => None,
    }
}

/// The top of the copy, as far as it is known: the one that came with the directory, or else
/// the one that was answered when an identity was asked for.
pub open spec fn dir_top<E>(task: Task, replies: Seq<dir::Reply<E>>) -> Option<FileId>
    decreases replies.len(),
{
    if task.root_to_inode is Some {
        task.root_to_inode
    } else if replies.len() == 0 {
        None
    } else {
        match replies.last() {
            dir::Reply::Id(Ok(id)) => Some(id),
            _ => dir_top(task, replies.drop_last()),
        }
    }
}

/// The directories that were listed, in their order.
pub open spec fn listings<E>(task: Task, replies: Seq<dir::Reply<E>>) -> Seq<Seq<u8>>
    decreases replies.len(),
{
    if replies.len() == 0 {
        seq![]
    } else {
        let before = replies.drop_last();
        match (dir_call(task, before), replies.last()) {
            (Some(dir::Request::ReadDir { path }), dir::Reply::Unit(Ok(_))) => listings(
                task,
                before,
            ).push(path),
            _ => listings(task, before),
        }
    }
}

/// What holds wherever a run on a directory stands.
spec fn dir_fits<E>(task: Task, replies: Seq<dir::Reply<E>>) -> bool {
    let seen = if task.platform == Platform::Other {
        None
    } else {
        dir_top(task, replies)
    };
    match run_dir(begun_dir(task), replies) {
        Ok(copy) => {
            &&& copy == (dir::DirCopy { phase: copy.phase, ..begun_dir(task) })
            &&& match copy.phase {
                dir::Phase::Making => listings(task, replies).len() == 0,
                dir::Phase::Statting => task.root_to_inode is None && listings(task, replies).len()
                    == 0,
                dir::Phase::Listing { root } => root == seen && listings(task, replies).len() == 0,
                dir::Phase::Listed { root } => root == seen && listings(task, replies) == seq![
                    task.from,
                ],
            }
        },
        Err(_) => true,
    }
}

proof fn lemma_dir_fits<E>(task: Task, replies: Seq<dir::Reply<E>>)
    requires
        possible_dir(begun_dir(task), replies),
    ensures
        dir_fits(task, replies),
    decreases replies.len(),
{
    if replies.len() > 0 {
        let before = replies.drop_last();
        lemma_dir_fits(task, before);
        let copy = run_dir(begun_dir(task), before)->Ok_0;
        if copy.phase is Listing && copy.after(replies.last()) is Ok {
            assert(listings(task, replies) =~= seq![task.from]);
        }
    }
}

/// The copy of a directory is made where it goes, and then the directory is listed where it
/// is, on every platform. In between it is asked which directory the copy is, where links are
/// and the top of the copy did not come with the directory. That the copy is there already is
/// no matter. Once the directory is listed, its entries are compared with the top of the copy,
/// where links are.
pub proof fn law_a_directory_is_made_and_listed<E>(
    task: Task,
    replies: Seq<dir::Reply<E>>,
    reply: dir::Reply<E>,
)
    requires
        possible_dir(begun_dir(task), replies.push(reply)),
    ensures
        dir_call(task, Seq::<dir::Reply<E>>::empty()) == Some(
            dir::Request::CreateDir { path: task.to },
        ),
        ({
            let next = dir_call(task, replies.push(reply));
            let list = Some(dir::Request::ReadDir { path: task.from });
            let identify = Some(dir::Request::Stat { path: task.to });
            match (dir_call(task, replies), reply) {
                (Some(dir::Request::CreateDir { .. }), dir::Reply::Unit(result)) => (result is Ok
                    || result->Err_0.kind == FailureKind::AlreadyExists) ==> next == if
                    task.platform != Platform::Other && task.root_to_inode is None {
                    identify
                } else {
                    list
                },
                (Some(dir::Request::Stat { .. }), dir::Reply::Id(Ok(_))) => next == list,
                (Some(dir::Request::ReadDir { .. }), dir::Reply::Unit(Ok(_))) => {
                    let done = run_dir(begun_dir(task), replies.push(reply));
                    &&& next is None && done is Ok
                    &&& done->Ok_0.phase == (dir::Phase::Listed {
                        root: if task.platform == Platform::Other {
                            None
                        } else {
                            dir_top(task, replies)
                        },
                    })
                },
                _ => true,
            }
        }),
{
    assert(replies.push(reply).drop_last() =~= replies);
    lemma_dir_fits(task, replies);
    lemma_dir_fits(task, replies.push(reply));
}

/// The directory to copy is the one that is listed. Whenever a directory is to be listed, it
/// is the one to copy, and when its entries are to be copied, it was listed once and no other
/// was. Whenever a directory is to be made or identified, it is the copy.
pub proof fn law_the_source_is_listed_once<E>(task: Task, replies: Seq<dir::Reply<E>>)
    requires
        possible_dir(begun_dir(task), replies),
    ensures
        match dir_call(task, replies) {
            Some(dir::Request::CreateDir { path }) => path == task.to,
            Some(dir::Request::Stat { path }) => path == task.to,
            Some(dir::Request::ReadDir { path }) => path == task.from,
            None => run_dir(begun_dir(task), replies) is Ok ==> listings(task, replies) == seq![
                task.from,
            ],
        },
{
    lemma_dir_fits(task, replies);
}

/// The entries that are copied with a directory are those that were listed for it.
pub proof fn law_entries_are_those_of_the_directory<E>(
    platform: Platform,
    work: Work,
    root_to_inode: Option<FileId>,
    run: DirRun<E>,
)
    requires
        dir_copied(platform, work, root_to_inode, run),
    ensures
        listings(
            Task { platform, from: work.from, to: work.to, root_to_inode },
            run.replies,
        ) == seq![work.from],
{
    let task = Task { platform, from: work.from, to: work.to, root_to_inode };
    lemma_dir_fits(task, run.replies);
}

/// Each call for a directory takes the answers that it can give, and no others.
pub proof fn law_each_call_for_a_directory_takes_its_answers<E>(
    copy: dir::DirCopy<Seq<u8>>,
    reply: dir::Reply<E>,
)
    ensures
        copy.takes(reply) <==> match copy.wants() {
            None => false,
            Some(dir::Request::CreateDir { .. }) => reply is Unit,
            Some(dir::Request::Stat { .. }) => reply is Id,
            Some(dir::Request::ReadDir { .. }) => reply is Unit,
        },
{
}

/// An entry to copy, which is listed under this inode number.
pub struct EntryTask {
    pub platform: Platform,
    pub root: Option<FileId>,
    pub from: Seq<u8>,
    pub to: Seq<u8>,
    pub ino: u64,
}

/// The copy of this entry at its beginning.
pub open spec fn begun_entry(task: EntryTask) -> entry::EntryCopy<Seq<u8>> {
    entry::EntryCopy::<Seq<u8>>::begin(task.platform, task.root, task.from, task.to, task.ino)
}

/// Whether each answer is one that its call can give.
pub open spec fn possible_entry<E>(
    task: EntryTask,
    replies: Seq<entry::Reply<Seq<u8>, E>>,
) -> bool
    decreases replies.len(),
{
    replies.len() == 0 || {
        let before = replies.drop_last();
        &&& possible_entry(task, before)
        &&& run_entry(begun_entry(task), before) matches Ok(copy) && copy.takes(replies.last())
    }
}

/// The call that is made for an entry after these answers, if one is.
pub open spec fn entry_call<E>(
    task: EntryTask,
    replies: Seq<entry::Reply<Seq<u8>, E>>,
) -> Option<entry::Request<Seq<u8>>> {
    match run_entry(begun_entry(task), replies) {
        Ok(copy) => copy.wants(),
        Err(_) => None,
    }
}

/// Whether the copy of an entry has come to its end after these answers, without an error.
pub open spec fn entry_is_done<E>(
    task: EntryTask,
    replies: Seq<entry::Reply<Seq<u8>, E>>,
) -> bool {
    run_entry(begun_entry(task), replies) is Ok && entry_call(task, replies) is None
}

proof fn lemma_entry_keeps<E>(task: EntryTask, replies: Seq<entry::Reply<Seq<u8>, E>>)
    requires
        possible_entry(task, replies),
    ensures
        run_entry(begun_entry(task), replies) matches Ok(copy) ==> {
            &&& copy.from == task.from
            &&& copy.to == task.to
            &&& copy.platform == task.platform
            &&& copy.root == task.root
        },
    decreases replies.len(),
{
    if replies.len() > 0 {
        lemma_entry_keeps(task, replies.drop_last());
    }
}

/// An entry is copied by what it is, from where it is to where its copy goes. Where links are,
/// and it is listed under the inode number of the top of the copy, it is asked first which
/// file it is, and the top is left out. A directory is copied with the top of the copy, a link
/// is made with the target that was read, byte for byte, where links are, and any other entry
/// is copied as a file.
pub proof fn law_an_entry_is_copied_by_what_it_is<E>(
    task: EntryTask,
    replies: Seq<entry::Reply<Seq<u8>, E>>,
    reply: entry::Reply<Seq<u8>, E>,
)
    requires
        possible_entry(task, replies.push(reply)),
    ensures
        entry_call(task, Seq::<entry::Reply<Seq<u8>, E>>::empty()) == if task.platform
            != Platform::Other && (task.root matches Some(root) && root.ino == task.ino) {
            Some(entry::Request::<Seq<u8>>::Identify)
        } else {
            Some(entry::Request::<Seq<u8>>::FileType)
        },
        ({
            let next = entry_call(task, replies.push(reply));
            match (entry_call(task, replies), reply) {
                (Some(entry::Request::Identify), entry::Reply::Id(result)) => if result is Ok
                    && task.root != Some(result->Ok_0) {
                    next == Some(entry::Request::<Seq<u8>>::FileType)
                } else {
                    entry_is_done(task, replies.push(reply))
                },
                (Some(entry::Request::FileType), entry::Reply::Kind(Ok(kind))) => next == if kind
                    == SourceKind::Directory {
                    Some(
                        entry::Request::CopyDir {
                            from: task.from,
                            to: task.to,
                            root_to_inode: task.root,
                        },
                    )
                } else if kind == SourceKind::Symlink && task.platform != Platform::Other {
                    Some(entry::Request::ReadLink { path: task.from })
                } else {
                    Some(entry::Request::CopyFile { from: task.from, to: task.to })
                },
                (Some(entry::Request::ReadLink { .. }), entry::Reply::Link(Ok(target))) => next
                    == Some(entry::Request::MakeLink { target, path: task.to }),
                (Some(_), entry::Reply::Unit(Ok(_))) => entry_is_done(task, replies.push(reply)),
                _ => true,
            }
        }),
{
    assert(replies.push(reply).drop_last() =~= replies);
    lemma_entry_keeps(task, replies);
    lemma_entry_keeps(task, replies.push(reply));
}

/// Each call for an entry takes the answers that it can give, and no others.
pub proof fn law_each_call_for_an_entry_takes_its_answers<E>(
    copy: entry::EntryCopy<Seq<u8>>,
    reply: entry::Reply<Seq<u8>, E>,
)
    ensures
        copy.takes(reply) <==> match copy.wants() {
            None => false,
            Some(entry::Request::Identify) => reply is Id,
            Some(entry::Request::FileType) => reply is Kind,
            Some(entry::Request::CopyDir { .. }) => reply is Unit,
            Some(entry::Request::ReadLink { .. }) => reply is Link,
            Some(entry::Request::MakeLink { .. }) => reply is Unit,
            Some(entry::Request::CopyFile { .. }) => reply is Unit,
        },
{
}

} // verus!
