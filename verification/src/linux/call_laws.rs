//! Laws of the calls that copy one directory: what each asks for, byte by byte and flag by
//! flag, by what was answered before.

use crate::error::{Attempt, Error, ErrorView, FailureKind, Subject};
use crate::file_id::FileId;
use crate::file_type::FileType;
use crate::linux::dir::{DirCopy, Phase};
use crate::linux::file::Step;
use crate::linux::laws::run;
use crate::linux::node::{Entry, OpenFlags, Reply, Request, TreeNode};
use crate::platform::Platform;
use crate::tree::{left_out, SourceEntry};
use crate::value_laws::{
    law_a_path_in_a_directory, law_dot_names, law_modes_are_twelve_bits, law_types_are_four_bits,
};
use vstd::prelude::*;

verus! {

/// Whether each answer is one that its call can give.
pub open spec fn possible<E>(node: TreeNode<Seq<u8>>, replies: Seq<Reply<Seq<u8>, E>>) -> bool
    decreases replies.len(),
{
    replies.len() == 0 || {
        let before = replies.drop_last();
        &&& possible(node, before)
        &&& run(DirCopy::begin(node), before) matches Ok(copy) && copy.takes(replies.last())
    }
}

/// The call that is made after these answers, if one is.
pub open spec fn call<E>(node: TreeNode<Seq<u8>>, replies: Seq<Reply<Seq<u8>, E>>) -> Option<
    Request<Seq<u8>>,
> {
    match run(DirCopy::begin(node), replies) {
        Ok(copy) => copy.wants(),
        Err(_) => None,
    }
}

/// Whether the copy has come to its end after these answers, without an error.
pub open spec fn is_copied<E>(node: TreeNode<Seq<u8>>, replies: Seq<Reply<Seq<u8>, E>>) -> bool {
    run(DirCopy::begin(node), replies) is Ok && call(node, replies) is None
}

/// The top of the copy, as far as it is known: the one that came with the directory, or else
/// the one that was answered when the target directory was asked for its identity.
pub open spec fn top<E>(node: TreeNode<Seq<u8>>, replies: Seq<Reply<Seq<u8>, E>>) -> Option<FileId>
    decreases replies.len(),
{
    if node.root_to_inode is Some {
        node.root_to_inode
    } else if replies.len() == 0 {
        None
    } else {
        let before = replies.drop_last();
        match (call(node, before), replies.last()) {
            (Some(Request::StatTargetDir), Reply::Id(Ok(id))) => Some(id),
            _ => top(node, before),
        }
    }
}

/// The entry that was read last, if one was.
pub open spec fn listed<E>(node: TreeNode<Seq<u8>>, replies: Seq<Reply<Seq<u8>, E>>) -> Option<
    Entry<Seq<u8>>,
>
    decreases replies.len(),
{
    if replies.len() == 0 {
        None
    } else {
        let before = replies.drop_last();
        match (call(node, before), replies.last()) {
            (Some(Request::ReadEntry), Reply::Entry(Some(Ok(entry)))) => Some(entry),
            _ => listed(node, before),
        }
    }
}

/// The file type that the high four bits of a raw mode stand for.
pub open spec fn type_of(raw: u16) -> FileType {
    let kind: int = raw as int / 4096;
    if kind == 8 {
        FileType::RegularFile
    } else if kind == 4 {
        FileType::Directory
    } else if kind == 10 {
        FileType::Symlink
    } else if kind == 1 {
        FileType::Fifo
    } else if kind == 12 {
        FileType::Socket
    } else if kind == 2 {
        FileType::CharacterDevice
    } else if kind == 6 {
        FileType::BlockDevice
    } else {
        FileType::Unknown
    }
}

/// What the entry that was read last is, as far as it is known: as the directory listed it, or
/// as it was answered when it was asked for.
pub open spec fn found_type<E>(
    node: TreeNode<Seq<u8>>,
    replies: Seq<Reply<Seq<u8>, E>>,
) -> FileType
    decreases replies.len(),
{
    if replies.len() == 0 {
        FileType::Unknown
    } else {
        let before = replies.drop_last();
        match (call(node, before), replies.last()) {
            (Some(Request::ReadEntry), Reply::Entry(Some(Ok(entry)))) => entry.file_type,
            (Some(Request::StatEntry { follow: false, .. }), Reply::Mode(Ok(raw))) => type_of(raw),
            _ => found_type(node, before),
        }
    }
}

/// Whether these are the bytes of `.` or of `..`.
pub open spec fn is_dot_or_dots(name: Seq<u8>) -> bool {
    ||| name.len() == 1 && name[0] == 46
    ||| name.len() == 2 && name[0] == 46 && name[1] == 46
}

/// Flags of which only these are set.
pub open spec fn only(
    write_anew: bool,
    directory: bool,
    no_follow: bool,
    path: bool,
    flags: OpenFlags,
) -> bool {
    &&& flags.write == write_anew
    &&& flags.create == write_anew
    &&& flags.truncate == write_anew
    &&& flags.directory == directory
    &&& flags.no_follow == no_follow
    &&& flags.path == path
}

/// The path of something in a directory, by the bytes.
pub open spec fn path_in(dir: Seq<u8>, name: Seq<u8>) -> Seq<u8> {
    dir + seq![47u8] + name
}

/// Whether a call is the one that the copy of an entry of this type begins with: a directory
/// is queued, a link is read, and any other file is opened to be read, and nothing else.
pub open spec fn begins_copy(
    request: Option<Request<Seq<u8>>>,
    node: TreeNode<Seq<u8>>,
    root: FileId,
    name: Seq<u8>,
    file_type: FileType,
) -> bool {
    match file_type {
        FileType::Directory => request == Some(
            Request::Send {
                node: TreeNode {
                    from: path_in(node.from, name),
                    to: path_in(node.to, name),
                    root_to_inode: Some(root),
                },
            },
        ),
        FileType::Symlink => request == Some(Request::ReadLink { name }),
        _ => request matches Some(Request::OpenSourceFile { name: opened, flags }) && opened == name
            && only(false, false, false, false, flags),
    }
}

/// Whether a call is the one that follows when an entry is to be copied: its type is asked
/// for, of the entry itself and not of what it points to, where the directory left it open.
pub open spec fn goes_on_with(
    request: Option<Request<Seq<u8>>>,
    node: TreeNode<Seq<u8>>,
    root: FileId,
    name: Seq<u8>,
    file_type: FileType,
) -> bool {
    if file_type == FileType::Unknown {
        request == Some(Request::StatEntry { name, follow: false })
    } else {
        begins_copy(request, node, root, name, file_type)
    }
}

/// What holds wherever a run stands, of what was answered before.
spec fn fits<E>(node: TreeNode<Seq<u8>>, replies: Seq<Reply<Seq<u8>, E>>) -> bool {
    let file_type = found_type(node, replies);
    let plain = file_type != FileType::Directory && file_type != FileType::Symlink;
    match run(DirCopy::begin(node), replies) {
        Ok(copy) => copy.node == node && match copy.phase {
            Phase::StattingTarget => node.root_to_inode is None,
            Phase::Reading { root } => top(node, replies) == Some(root),
            Phase::Identifying { root, name, file_type: listed_type } => {
                &&& top(node, replies) == Some(root)
                &&& listed(node, replies) matches Some(entry) && entry.name == name && entry.ino
                    == root.ino
                &&& !is_dot_or_dots(name)
                &&& file_type == listed_type
            },
            Phase::Copying { root, name, step } => {
                &&& top(node, replies) == Some(root)
                &&& listed(node, replies) matches Some(entry) && entry.name == name
                &&& !is_dot_or_dots(name)
                &&& match step {
                    Step::Typing => file_type == FileType::Unknown,
                    Step::Sending => file_type == FileType::Directory,
                    Step::ReadingLink => file_type == FileType::Symlink,
                    Step::Linking { .. } => file_type == FileType::Symlink,
                    Step::OpeningFrom { regular } => plain && regular == (file_type
                        == FileType::RegularFile),
                    Step::StattingFrom { regular } => plain && regular == (file_type
                        == FileType::RegularFile),
                    Step::OpeningTo { regular, .. } => plain && regular == (file_type
                        == FileType::RegularFile),
                    Step::Ranging { .. } => file_type == FileType::RegularFile,
                    Step::Streaming => plain,
                }
            },
            Phase::Finished { root } => top(node, replies) == Some(root),
            _ => true,
        },
        Err(_) => true,
    }
}

proof fn lemma_fits<E>(node: TreeNode<Seq<u8>>, replies: Seq<Reply<Seq<u8>, E>>)
    requires
        possible(node, replies),
    ensures
        fits(node, replies),
    decreases replies.len(),
{
    if replies.len() > 0 {
        let before = replies.drop_last();
        lemma_fits(node, before);
        let copy = run(DirCopy::begin(node), before)->Ok_0;
        match replies.last() {
            Reply::Entry(Some(Ok(entry))) => {
                law_dot_names(entry.name);
            },
            Reply::Mode(Ok(raw)) => {
                law_types_are_four_bits(raw);
            },
            _ => {},
        }
    }
}

/// One more answer.
proof fn lemma_step<E>(
    node: TreeNode<Seq<u8>>,
    replies: Seq<Reply<Seq<u8>, E>>,
    reply: Reply<Seq<u8>, E>,
)
    requires
        possible(node, replies.push(reply)),
    ensures
        possible(node, replies),
        fits(node, replies),
        fits(node, replies.push(reply)),
        run(DirCopy::begin(node), replies) matches Ok(copy) && copy.takes(reply) && run(
            DirCopy::begin(node),
            replies.push(reply),
        ) == copy.after(reply),
{
    assert(replies.push(reply).drop_last() =~= replies);
    lemma_fits(node, replies);
    lemma_fits(node, replies.push(reply));
}

/// A directory is opened where it is, its copy is made where it goes, with the permissions of
/// the directory, and its entries are read. The source is opened as a directory and no link is
/// followed; the target is opened only to stand for itself. The directory that entries are
/// compared with is asked for unless it came with the node.
pub proof fn law_a_directory_is_opened_and_made<E>(
    node: TreeNode<Seq<u8>>,
    replies: Seq<Reply<Seq<u8>, E>>,
    reply: Reply<Seq<u8>, E>,
)
    requires
        possible(node, replies.push(reply)),
    ensures
        call(node, Seq::<Reply<Seq<u8>, E>>::empty()) matches Some(
            Request::OpenSourceDir { path, flags },
        ) && path == node.from && only(false, true, true, false, flags),
        ({
            let next = call(node, replies.push(reply));
            match (call(node, replies), reply) {
                (Some(Request::OpenSourceDir { .. }), Reply::Unit(Ok(_))) => next == Some(
                    Request::<Seq<u8>>::StatSourceDir,
                ),
                (Some(Request::StatSourceDir), Reply::Mode(Ok(raw))) => next
                    matches Some(Request::MakeDir { path, mode }) && path == node.to && mode
                    == raw as int % 4096,
                (Some(Request::MakeDir { .. }), Reply::Unit(result)) => (result is Ok
                    || result->Err_0.kind == FailureKind::AlreadyExists) ==> (next matches Some(
                    Request::OpenTargetDir { path, flags },
                ) && path == node.to && only(false, true, false, true, flags)),
                (Some(Request::OpenTargetDir { .. }), Reply::Unit(Ok(_))) => next == if
                    node.root_to_inode is Some {
                    Some(Request::<Seq<u8>>::ReadEntry)
                } else {
                    Some(Request::<Seq<u8>>::StatTargetDir)
                },
                (Some(Request::StatTargetDir), Reply::Id(Ok(id))) => next == Some(
                    Request::<Seq<u8>>::ReadEntry,
                ) && top(node, replies.push(reply)) == Some(id),
                _ => true,
            }
        }),
{
    lemma_step(node, replies, reply);
    match reply {
        Reply::Mode(Ok(raw)) => {
            law_modes_are_twelve_bits(raw);
        },
        _ => {},
    }
    assert(replies.push(reply).drop_last() =~= replies);
}

/// Every entry is copied but `.`, `..` and the top of the copy. Once an entry was read, the
/// next entry is read if its name is one of the two, and it is asked which file it is if it
/// has the inode number of the top. Any other entry is copied under its own name, by its
/// type. When there are no more entries, the directory is copied.
pub proof fn law_every_entry_is_copied_but_dot_and_dots<E>(
    node: TreeNode<Seq<u8>>,
    replies: Seq<Reply<Seq<u8>, E>>,
    reply: Reply<Seq<u8>, E>,
)
    requires
        possible(node, replies.push(reply)),
        call(node, replies) == Some(Request::<Seq<u8>>::ReadEntry),
    ensures
        top(node, replies) is Some,
        ({
            let root = top(node, replies)->0;
            let next = call(node, replies.push(reply));
            match reply {
                Reply::Entry(Some(Ok(entry))) => if is_dot_or_dots(entry.name) {
                    next == Some(Request::<Seq<u8>>::ReadEntry)
                } else if entry.ino == root.ino {
                    next == Some(Request::IdentifyEntry { name: entry.name })
                } else {
                    goes_on_with(next, node, root, entry.name, entry.file_type)
                },
                Reply::Entry(None) => is_copied(node, replies.push(reply)),
                _ => true,
            }
        }),
{
    lemma_step(node, replies, reply);
    match reply {
        Reply::Entry(Some(Ok(entry))) => {
            law_dot_names(entry.name);
            law_a_path_in_a_directory(node.from, entry.name);
            law_a_path_in_a_directory(node.to, entry.name);
        },
        _ => {},
    }
}

/// An entry that has the inode number of the top of the copy is looked up under its own name,
/// and is copied by its type if it is another file.
pub proof fn law_an_entry_that_is_not_the_top_is_copied<E>(
    node: TreeNode<Seq<u8>>,
    replies: Seq<Reply<Seq<u8>, E>>,
    reply: Reply<Seq<u8>, E>,
)
    requires
        possible(node, replies.push(reply)),
        call(node, replies) matches Some(Request::IdentifyEntry { .. }),
    ensures
        top(node, replies) is Some,
        listed(node, replies) is Some,
        ({
            let root = top(node, replies)->0;
            let entry = listed(node, replies)->0;
            let next = call(node, replies.push(reply));
            &&& call(node, replies) == Some(Request::IdentifyEntry { name: entry.name })
            &&& entry.ino == root.ino && !is_dot_or_dots(entry.name)
            &&& match reply {
                Reply::Id(Ok(id)) => if id.dev == root.dev && id.ino == root.ino {
                    next == Some(Request::<Seq<u8>>::ReadEntry)
                } else {
                    goes_on_with(next, node, root, entry.name, found_type(node, replies))
                },
                _ => next == Some(Request::<Seq<u8>>::ReadEntry),
            }
        }),
{
    lemma_step(node, replies, reply);
    let name = listed(node, replies)->0.name;
    law_a_path_in_a_directory(node.from, name);
    law_a_path_in_a_directory(node.to, name);
}

/// An entry whose type was asked for is copied by the type that its mode holds.
pub proof fn law_an_entry_is_copied_by_its_mode<E>(
    node: TreeNode<Seq<u8>>,
    replies: Seq<Reply<Seq<u8>, E>>,
    raw: u16,
)
    requires
        possible(node, replies.push(Reply::Mode(Ok(raw)))),
        call(node, replies) matches Some(Request::StatEntry { follow: false, .. }),
    ensures
        top(node, replies) is Some,
        listed(node, replies) is Some,
        call(node, replies) == Some(
            Request::StatEntry { name: listed(node, replies)->0.name, follow: false },
        ),
        begins_copy(
            call(node, replies.push(Reply::Mode(Ok(raw)))),
            node,
            top(node, replies)->0,
            listed(node, replies)->0.name,
            type_of(raw),
        ),
{
    let reply = Reply::<Seq<u8>, E>::Mode(Ok(raw));
    lemma_step(node, replies, reply);
    law_types_are_four_bits(raw);
    let name = listed(node, replies)->0.name;
    law_a_path_in_a_directory(node.from, name);
    law_a_path_in_a_directory(node.to, name);
}

/// A link is made with the target that was read. Once a link was read, a link is made under
/// the same name, and its target is, byte for byte, what was answered. No link is made
/// otherwise. Then the next entry is read.
pub proof fn law_a_link_is_made_with_the_target_that_was_read<E>(
    node: TreeNode<Seq<u8>>,
    replies: Seq<Reply<Seq<u8>, E>>,
    reply: Reply<Seq<u8>, E>,
)
    requires
        possible(node, replies.push(reply)),
    ensures
        ({
            let next = call(node, replies.push(reply));
            &&& match (call(node, replies), reply) {
                (Some(Request::ReadLink { name }), Reply::Link(Ok(target))) => next == Some(
                    Request::MakeLink { target, name },
                ),
                (Some(Request::MakeLink { .. }), Reply::Unit(Ok(_))) => next == Some(
                    Request::<Seq<u8>>::ReadEntry,
                ),
                _ => true,
            }
            &&& next matches Some(Request::MakeLink { target, name }) ==> call(node, replies)
                == Some(Request::ReadLink { name }) && reply == Reply::<Seq<u8>, E>::Link(
                Ok(target),
            ) && (listed(node, replies) matches Some(entry) && entry.name == name)
        }),
{
    lemma_step(node, replies, reply);
}

/// A file is made with the permissions of its source. Once a file was opened to be read, its
/// own mode is asked for, that of what a link leads to; then a file is opened under the same
/// name, to be written anew, with the low twelve bits of the mode that was answered. No file
/// is opened to be written otherwise.
pub proof fn law_a_file_is_made_with_the_mode_of_its_source<E>(
    node: TreeNode<Seq<u8>>,
    replies: Seq<Reply<Seq<u8>, E>>,
    reply: Reply<Seq<u8>, E>,
)
    requires
        possible(node, replies.push(reply)),
    ensures
        ({
            let next = call(node, replies.push(reply));
            &&& match (call(node, replies), reply) {
                (Some(Request::OpenSourceFile { name, .. }), Reply::Unit(Ok(_))) => next == Some(
                    Request::StatEntry { name, follow: true },
                ),
                (Some(Request::StatEntry { name, follow: true }), Reply::Mode(Ok(raw))) => next
                    matches Some(Request::OpenTargetFile { name: opened, flags, mode }) && opened
                    == name && mode == raw as int % 4096 && only(true, false, false, false, flags),
                _ => true,
            }
            &&& next matches Some(Request::OpenTargetFile { name, flags, mode }) ==> {
                &&& flags.write && flags.create && flags.truncate
                &&& !flags.directory && !flags.no_follow && !flags.path
                &&& call(node, replies) == Some(Request::StatEntry { name, follow: true })
                &&& reply matches Reply::Mode(Ok(raw)) && mode == raw as int % 4096
                &&& listed(node, replies) matches Some(entry) && entry.name == name
            }
            &&& next matches Some(Request::OpenSourceFile { name, flags }) ==> {
                &&& only(false, false, false, false, flags)
                &&& listed(node, replies.push(reply)) matches Some(entry) && entry.name == name
            }
            &&& next matches Some(Request::OpenSourceDir { .. }) ==> false
        }),
{
    lemma_step(node, replies, reply);
    match reply {
        Reply::Mode(Ok(raw)) => {
            law_modes_are_twelve_bits(raw);
        },
        _ => {},
    }
}

/// All bytes of a file are copied. Once both files are open, the kernel is asked to copy a
/// regular file, as far as it goes, and any other file is copied through a buffer. The kernel
/// is asked again, for as many bytes less as it copied, until it copies none. Where it cannot
/// copy between the two file systems, and has not copied a byte yet, the file is copied
/// through a buffer. Then the next entry is read, and not before.
pub proof fn law_all_bytes_of_a_file_are_copied<E>(
    node: TreeNode<Seq<u8>>,
    replies: Seq<Reply<Seq<u8>, E>>,
    reply: Reply<Seq<u8>, E>,
)
    requires
        possible(node, replies.push(reply)),
    ensures
        ({
            let next = call(node, replies.push(reply));
            match (call(node, replies), reply) {
                (Some(Request::OpenTargetFile { .. }), Reply::Unit(Ok(_))) => next == if found_type(
                    node,
                    replies,
                ) == FileType::RegularFile {
                    Some(Request::<Seq<u8>>::CopyRange { len: usize::MAX })
                } else {
                    Some(Request::<Seq<u8>>::CopyRest)
                },
                (Some(Request::CopyRange { len }), Reply::Copied(Ok(n))) => n <= len && next == if n
                    == 0 {
                    Some(Request::<Seq<u8>>::ReadEntry)
                } else {
                    Some(Request::<Seq<u8>>::CopyRange { len: (len - n) as usize })
                },
                (Some(Request::CopyRange { len }), Reply::Copied(Err(failure))) => next == if len
                    == usize::MAX && failure.kind == FailureKind::CrossDevice {
                    Some(Request::<Seq<u8>>::CopyRest)
                } else {
                    None
                },
                (Some(Request::CopyRest), Reply::Unit(Ok(_))) => next == Some(
                    Request::<Seq<u8>>::ReadEntry,
                ),
                _ => true,
            }
        }),
{
    lemma_step(node, replies, reply);
}

/// A directory in the directory is queued, and not copied on the spot: under its own name, from
/// where it is to where its copy goes, with the top of the copy. Once it is queued, the next
/// entry is read.
pub proof fn law_a_directory_is_queued_with_the_top<E>(
    node: TreeNode<Seq<u8>>,
    replies: Seq<Reply<Seq<u8>, E>>,
    reply: Reply<Seq<u8>, E>,
)
    requires
        possible(node, replies.push(reply)),
    ensures
        ({
            let next = call(node, replies.push(reply));
            &&& call(node, replies) is Some && call(node, replies)->0 is Send && reply
                == Reply::<Seq<u8>, E>::Sent(true) ==> next == Some(Request::<Seq<u8>>::ReadEntry)
            &&& next matches Some(Request::Send { node: below }) ==> {
                &&& listed(node, replies.push(reply)) matches Some(entry) && below.from == path_in(
                    node.from,
                    entry.name,
                ) && below.to == path_in(node.to, entry.name)
                &&& below.root_to_inode is Some
                &&& below.root_to_inode == top(node, replies.push(reply))
                &&& found_type(node, replies.push(reply)) == FileType::Directory
            }
        }),
{
    lemma_step(node, replies, reply);
    match listed(node, replies.push(reply)) {
        Some(entry) => {
            law_a_path_in_a_directory(node.from, entry.name);
            law_a_path_in_a_directory(node.to, entry.name);
        },
        None => {},
    }
}

/// What is asked of an entry is asked of the one that was read last, which is not `.` or `..`.
pub proof fn law_calls_name_the_entry_at_hand<E>(
    node: TreeNode<Seq<u8>>,
    replies: Seq<Reply<Seq<u8>, E>>,
)
    requires
        possible(node, replies),
    ensures
        ({
            let name = match call(node, replies) {
                Some(Request::StatEntry { name, .. }) => Some(name),
                Some(Request::IdentifyEntry { name }) => Some(name),
                Some(Request::ReadLink { name }) => Some(name),
                Some(Request::MakeLink { name, .. }) => Some(name),
                Some(Request::OpenSourceFile { name, .. }) => Some(name),
                Some(Request::OpenTargetFile { name, .. }) => Some(name),
                _ => None,
            };
            name matches Some(name) ==> !is_dot_or_dots(name) && (listed(
                node,
                replies,
            ) matches Some(entry) && entry.name == name)
        }),
{
    lemma_fits(node, replies);
}

/// On Linux nothing but `.`, `..` and the top of the copy is left out of a copy, by the bytes
/// of the name.
pub proof fn law_nothing_else_is_left_out(root: Option<FileId>, entry: SourceEntry)
    ensures
        left_out(Platform::Linux, root, entry) <==> is_dot_or_dots(entry.name) || (
        root matches Some(root) && root.dev == entry.id.dev && root.ino == entry.id.ino && entry.ino
            == root.ino),
{
    law_dot_names(entry.name);
}

/// Each call takes the answers that it can give, and no others. The kernel never copies more
/// than it was asked for.
pub proof fn law_each_call_takes_its_answers<E>(
    copy: DirCopy<Seq<u8>>,
    reply: Reply<Seq<u8>, E>,
)
    ensures
        copy.takes(reply) <==> match copy.wants() {
            None => false,
            Some(Request::OpenSourceDir { .. }) => reply is Unit,
            Some(Request::StatSourceDir) => reply is Mode,
            Some(Request::MakeDir { .. }) => reply is Unit,
            Some(Request::OpenTargetDir { .. }) => reply is Unit,
            Some(Request::StatTargetDir) => reply is Id,
            Some(Request::ReadEntry) => reply is Entry,
            Some(Request::StatEntry { .. }) => reply is Mode,
            Some(Request::IdentifyEntry { .. }) => reply is Id,
            Some(Request::Send { .. }) => reply is Sent,
            Some(Request::ReadLink { .. }) => reply is Link,
            Some(Request::MakeLink { .. }) => reply is Unit,
            Some(Request::OpenSourceFile { .. }) => reply is Unit,
            Some(Request::OpenTargetFile { .. }) => reply is Unit,
            Some(Request::CopyRange { len }) => match reply {
                Reply::Copied(Ok(n)) => n <= len,
                Reply::Copied(Err(_)) => true,
                _ => false,
            },
            Some(Request::CopyRest) => reply is Unit,
        },
{
}

/// The error that names this attempt on this subject.
pub open spec fn tells_of<E>(
    error: ErrorView<E>,
    attempt: Attempt,
    subject: Subject<Seq<u8>, Seq<u8>>,
) -> bool {
    error matches Error::Io { context, .. } && context.attempt == attempt && context.subject
        == subject
}

/// An error tells what was attempted, and on what: the directory or its copy, or the entry at
/// hand or its copy.
pub proof fn law_an_error_tells_what_was_attempted<E>(
    node: TreeNode<Seq<u8>>,
    replies: Seq<Reply<Seq<u8>, E>>,
    reply: Reply<Seq<u8>, E>,
)
    requires
        possible(node, replies.push(reply)),
        run(DirCopy::begin(node), replies.push(reply)) is Err,
    ensures
        ({
            let error = run(DirCopy::begin(node), replies.push(reply))->Err_0;
            let from = Subject::<Seq<u8>, Seq<u8>>::Directory(node.from);
            let to = Subject::<Seq<u8>, Seq<u8>>::Directory(node.to);
            let name = listed(node, replies)->0.name;
            let source = Subject::<Seq<u8>, Seq<u8>>::Entry { dir: node.from, name };
            let target = Subject::<Seq<u8>, Seq<u8>>::Entry { dir: node.to, name };
            match call(node, replies) {
                None => false,
                Some(Request::OpenSourceDir { .. }) => tells_of(
                    error,
                    Attempt::OpenDirectory,
                    from,
                ),
                Some(Request::StatSourceDir) => tells_of(error, Attempt::StatDirectory, from),
                Some(Request::MakeDir { .. }) => tells_of(error, Attempt::CreateDirectory, to),
                Some(Request::OpenTargetDir { .. }) => tells_of(error, Attempt::OpenDirectory, to),
                Some(Request::StatTargetDir) => tells_of(error, Attempt::StatDirectory, to),
                Some(Request::ReadEntry) => tells_of(error, Attempt::ReadDirectory, from),
                Some(Request::IdentifyEntry { .. }) => false,
                Some(Request::StatEntry { .. }) => tells_of(error, Attempt::StatFile, source),
                Some(Request::Send { .. }) => error is Internal,
                Some(Request::ReadLink { .. }) => tells_of(error, Attempt::ReadSymlink, source),
                Some(Request::MakeLink { .. }) => tells_of(error, Attempt::CreateSymlink, target),
                Some(Request::OpenSourceFile { .. }) => tells_of(error, Attempt::OpenFile, source),
                Some(Request::OpenTargetFile { .. }) => tells_of(error, Attempt::OpenFile, target),
                Some(Request::CopyRange { .. }) => tells_of(error, Attempt::CopyFile, source),
                Some(Request::CopyRest) => tells_of(error, Attempt::CopyFile, source),
            }
        }),
{
    lemma_step(node, replies, reply);
}

} // verus!
