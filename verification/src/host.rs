//! What passes between the machines and the host that runs them.
//!
//! The types are generic in the text and list types, so that one definition serves the running
//! program, with `String` and `Vec`, and its contracts, with `Seq`.

use vstd::prelude::*;

use crate::error;
use crate::error::MountError;
use crate::paths;
use crate::text;

verus! {

/// What an operation has left mounted.
#[derive(Debug, PartialEq, Eq)]
pub enum MountEffect<T = String> {
    /// An overlay or a bind mount at a target path.
    Target(T),
    /// An intermediate overlay at a staging directory.
    Staging(T),
}

/// Where something is to be mounted.
#[derive(Debug, PartialEq, Eq)]
pub enum Place<T = String> {
    /// The path that the operation is about.
    Target(T),
    /// The staging directory that was created last.
    Staging(T),
}

impl<T> Place<T> {
    /// The path of the place, as it is displayed.
    pub open spec fn path(self) -> T {
        match self {
            Place::Target(t) => t,
            Place::Staging(t) => t,
        }
    }
}

/// The flags of a `mount(2)` call.
#[derive(Debug, Clone, Copy, PartialEq, Eq)]
pub struct MountFlags {
    pub bind: bool,
    pub recursive: bool,
}

/// The flags of an `open_tree(2)` call.
#[derive(Debug, Clone, Copy, PartialEq, Eq)]
pub struct TreeFlags {
    pub cloexec: bool,
    pub clone: bool,
    pub recursive: bool,
}

/// What a machine asks of the host.
#[derive(Debug, PartialEq, Eq)]
#[allow(inconsistent_fields)]
pub enum Request<T = String> {
    /// Read the current directory, to go back to it when the operation ends.
    ReadCurrentDir,
    /// Make the path the current directory.
    ChangeDir(T),
    /// Go back to the current directory that was read.
    RestoreDir,
    /// Read all mount points.
    ReadMounts,
    /// Create a new directory below the staging root.
    CreateStagingDir { root: T },
    /// Tell whether the upper directory exists.
    UpperExists(T),
    /// Tell whether the work directory exists.
    WorkExists(T),
    /// Tell whether the path exists.
    Exists(T),
    /// Tell whether the path is a directory.
    IsDir(T),
    /// Mount an overlay through `fsopen("overlay")`.
    Fsopen { upper: Option<T>, work: Option<T>, lowerdir: T, source: T, dest: Place<T> },
    /// Call `mount(2)`.
    Mount { source: T, target: Place<T>, fstype: T, flags: MountFlags, data: Option<T> },
    /// Call `open_tree(2)` on the path and keep what it opens.
    OpenTree { path: T, flags: TreeFlags },
    /// Call `move_mount(2)` on what was opened last; `empty_path` says that it has no path of its
    /// own.
    MoveMount { to: T, empty_path: bool },
    /// Register the path as one that may be unmounted.
    SendUnmountable(T),
    /// Tell the caller what has been mounted.
    Report(MountEffect<T>),
    /// Tell whether something is mounted at the path.
    IsMounted(T),
    /// Unmount the path; `detach` asks for a lazy unmount.
    Unmount { path: T, detach: bool },
    /// Tell whether the removal of a staging directory is to fail.
    RemoveFault,
    /// Remove the directory and all that is in it.
    RemoveDirAll(T),
}

/// What the host answers.
#[derive(Debug, PartialEq, Eq)]
pub enum Reply<T = String, B = Vec<Vec<u8>>> {
    /// The request was carried out, with nothing to tell.
    Done,
    /// The answer to a question.
    Flag(bool),
    /// The answer to a question that can fail, or the displayed error.
    Checked(Result<bool, T>),
    /// Whether a call succeeded, or its displayed error.
    Outcome(Result<(), T>),
    /// Whether an unmount succeeded, or its error number and its displayed error.
    Unmounted(Result<(), (i32, T)>),
    /// Whether a removal succeeded, or whether nothing was there and the displayed error.
    Removed(Result<(), (bool, T)>),
    /// The displayed path of a new directory, or the displayed error.
    Directory(Result<T, T>),
    /// The bytes of all mount points, or the displayed error.
    Mounts(Result<B, T>),
}

/// A reply as the contracts see it.
pub type ReplyView = Reply<Seq<char>, Seq<Seq<u8>>>;

/// What a machine does next.
#[derive(Debug, PartialEq, Eq)]
pub enum Next<T = String> {
    /// It waits for the answer to a request.
    Ask(Request<T>),
    /// It is done.
    Finished(Result<(), MountError<T>>),
}

impl View for MountEffect {
    type V = MountEffect<Seq<char>>;

    open spec fn view(&self) -> MountEffect<Seq<char>> {
        match *self {
            MountEffect::Target(t) => MountEffect::Target(t@),
            MountEffect::Staging(t) => MountEffect::Staging(t@),
        }
    }
}

impl View for Place {
    type V = Place<Seq<char>>;

    open spec fn view(&self) -> Place<Seq<char>> {
        match *self {
            Place::Target(t) => Place::Target(t@),
            Place::Staging(t) => Place::Staging(t@),
        }
    }
}

impl View for Request {
    type V = Request<Seq<char>>;

    open spec fn view(&self) -> Request<Seq<char>> {
        match *self {
            Request::ReadCurrentDir => Request::ReadCurrentDir,
            Request::ChangeDir(t) => Request::ChangeDir(t@),
            Request::RestoreDir => Request::RestoreDir,
            Request::ReadMounts => Request::ReadMounts,
            Request::CreateStagingDir { root } => Request::CreateStagingDir { root: root@ },
            Request::UpperExists(t) => Request::UpperExists(t@),
            Request::WorkExists(t) => Request::WorkExists(t@),
            Request::Exists(t) => Request::Exists(t@),
            Request::IsDir(t) => Request::IsDir(t@),
            Request::Fsopen { upper, work, lowerdir, source, dest } => Request::Fsopen {
                upper: text::opt_text(upper),
                work: text::opt_text(work),
                lowerdir: lowerdir@,
                source: source@,
                dest: dest@,
            },
            Request::Mount { source, target, fstype, flags, data } => Request::Mount {
                source: source@,
                target: target@,
                fstype: fstype@,
                flags,
                data: text::opt_text(data),
            },
            Request::OpenTree { path, flags } => Request::OpenTree { path: path@, flags },
            Request::MoveMount { to, empty_path } => Request::MoveMount { to: to@, empty_path },
            Request::SendUnmountable(t) => Request::SendUnmountable(t@),
            Request::Report(e) => Request::Report(e@),
            Request::IsMounted(t) => Request::IsMounted(t@),
            Request::Unmount { path, detach } => Request::Unmount { path: path@, detach },
            Request::RemoveFault => Request::RemoveFault,
            Request::RemoveDirAll(t) => Request::RemoveDirAll(t@),
        }
    }
}

impl View for Reply {
    type V = ReplyView;

    open spec fn view(&self) -> ReplyView {
        match *self {
            Reply::Done => Reply::Done,
            Reply::Flag(b) => Reply::Flag(b),
            Reply::Checked(Ok(b)) => Reply::Checked(Ok(b)),
            Reply::Checked(Err(t)) => Reply::Checked(Err(t@)),
            Reply::Outcome(Ok(u)) => Reply::Outcome(Ok(u)),
            Reply::Outcome(Err(t)) => Reply::Outcome(Err(t@)),
            Reply::Unmounted(Ok(u)) => Reply::Unmounted(Ok(u)),
            Reply::Unmounted(Err((n, t))) => Reply::Unmounted(Err((n, t@))),
            Reply::Removed(Ok(u)) => Reply::Removed(Ok(u)),
            Reply::Removed(Err((b, t))) => Reply::Removed(Err((b, t@))),
            Reply::Directory(Ok(t)) => Reply::Directory(Ok(t@)),
            Reply::Directory(Err(t)) => Reply::Directory(Err(t@)),
            Reply::Mounts(Ok(list)) => Reply::Mounts(Ok(paths::byte_lists(list@))),
            Reply::Mounts(Err(t)) => Reply::Mounts(Err(t@)),
        }
    }
}

impl View for Next {
    type V = Next<Seq<char>>;

    open spec fn view(&self) -> Next<Seq<char>> {
        match *self {
            Next::Ask(r) => Next::Ask(r@),
            Next::Finished(r) => Next::Finished(error::result_view(r)),
        }
    }
}

impl Place {
    /// Copies the place.
    pub(crate) fn copy(&self) -> (place: Place)
        ensures
            place@ == self@,
    {
        match self {
            Place::Target(t) => Place::Target(text::copy_text(t.as_str())),
            Place::Staging(t) => Place::Staging(text::copy_text(t.as_str())),
        }
    }

    /// The path of the place, as it is displayed.
    pub(crate) fn display(&self) -> (path: String)
        ensures
            path@ == self@.path(),
    {
        match self {
            Place::Target(t) => text::copy_text(t.as_str()),
            Place::Staging(t) => text::copy_text(t.as_str()),
        }
    }
}

/// What the contracts see of an effect or a place is its kind and the text of its path.
pub proof fn places_are_seen_by_their_paths(path: String)
    ensures
        MountEffect::Target(path)@ == MountEffect::Target(path@),
        MountEffect::Staging(path)@ == MountEffect::Staging(path@),
        Place::Target(path)@ == Place::Target(path@),
        Place::Staging(path)@ == Place::Staging(path@),
        Place::Target(path@).path() == path@,
        Place::Staging(path@).path() == path@,
{
}

/// What the contracts see of a request is its kind and each of its parts.
pub proof fn requests_are_seen_part_by_part(
    path: String,
    upper: Option<String>,
    work: Option<String>,
    lowerdir: String,
    source: String,
    place: Place,
    fstype: String,
    flags: MountFlags,
    tree: TreeFlags,
    data: Option<String>,
    effect: MountEffect,
    flag: bool,
)
    ensures
        Request::<String>::ReadCurrentDir@ == Request::<Seq<char>>::ReadCurrentDir,
        Request::ChangeDir(path)@ == Request::ChangeDir(path@),
        Request::<String>::RestoreDir@ == Request::<Seq<char>>::RestoreDir,
        Request::<String>::ReadMounts@ == Request::<Seq<char>>::ReadMounts,
        (Request::CreateStagingDir { root: path })@ == (Request::CreateStagingDir { root: path@ }),
        Request::UpperExists(path)@ == Request::UpperExists(path@),
        Request::WorkExists(path)@ == Request::WorkExists(path@),
        Request::Exists(path)@ == Request::Exists(path@),
        Request::IsDir(path)@ == Request::IsDir(path@),
        (Request::Fsopen { upper, work, lowerdir, source, dest: place })@ == (Request::Fsopen {
            upper: text::opt_text(upper),
            work: text::opt_text(work),
            lowerdir: lowerdir@,
            source: source@,
            dest: place@,
        }),
        (Request::Mount { source, target: place, fstype, flags, data })@ == (Request::Mount {
            source: source@,
            target: place@,
            fstype: fstype@,
            flags,
            data: text::opt_text(data),
        }),
        (Request::OpenTree { path, flags: tree })@ == (Request::OpenTree {
            path: path@,
            flags: tree,
        }),
        (Request::MoveMount { to: path, empty_path: flag })@ == (Request::MoveMount {
            to: path@,
            empty_path: flag,
        }),
        Request::SendUnmountable(path)@ == Request::SendUnmountable(path@),
        Request::Report(effect)@ == Request::Report(effect@),
        Request::IsMounted(path)@ == Request::IsMounted(path@),
        (Request::Unmount { path, detach: flag })@ == (Request::Unmount {
            path: path@,
            detach: flag,
        }),
        Request::<String>::RemoveFault@ == Request::<Seq<char>>::RemoveFault,
        Request::RemoveDirAll(path)@ == Request::RemoveDirAll(path@),
{
}

/// What the contracts see of a reply is its kind and each of its parts.
pub proof fn replies_are_seen_part_by_part(
    text: String,
    flag: bool,
    errno: i32,
    mounts: Vec<Vec<u8>>,
)
    ensures
        Reply::<String, Vec<Vec<u8>>>::Done@ == ReplyView::Done,
        Reply::<String, Vec<Vec<u8>>>::Flag(flag)@ == ReplyView::Flag(flag),
        Reply::<String, Vec<Vec<u8>>>::Checked(Ok(flag))@ == ReplyView::Checked(Ok(flag)),
        Reply::<String, Vec<Vec<u8>>>::Checked(Err(text))@ == ReplyView::Checked(Err(text@)),
        Reply::<String, Vec<Vec<u8>>>::Outcome(Ok(()))@ == ReplyView::Outcome(Ok(())),
        Reply::<String, Vec<Vec<u8>>>::Outcome(Err(text))@ == ReplyView::Outcome(Err(text@)),
        Reply::<String, Vec<Vec<u8>>>::Unmounted(Ok(()))@ == ReplyView::Unmounted(Ok(())),
        Reply::<String, Vec<Vec<u8>>>::Unmounted(Err((errno, text)))@ == ReplyView::Unmounted(
            Err((errno, text@)),
        ),
        Reply::<String, Vec<Vec<u8>>>::Removed(Ok(()))@ == ReplyView::Removed(Ok(())),
        Reply::<String, Vec<Vec<u8>>>::Removed(Err((flag, text)))@ == ReplyView::Removed(
            Err((flag, text@)),
        ),
        Reply::<String, Vec<Vec<u8>>>::Directory(Ok(text))@ == ReplyView::Directory(Ok(text@)),
        Reply::<String, Vec<Vec<u8>>>::Directory(Err(text))@ == ReplyView::Directory(Err(text@)),
        Reply::<String, Vec<Vec<u8>>>::Mounts(Ok(mounts))@ == ReplyView::Mounts(
            Ok(paths::byte_lists(mounts@)),
        ),
        Reply::<String, Vec<Vec<u8>>>::Mounts(Err(text))@ == ReplyView::Mounts(Err(text@)),
{
}

/// What the contracts see of what a machine does next is the request, or the result.
pub proof fn next_is_seen_by_request_or_result(request: Request, r: Result<(), MountError>)
    ensures
        Next::Ask(request)@ == Next::Ask(request@),
        Next::<String>::Finished(r)@ == Next::Finished(error::result_view(r)),
{
}

/// Whether a reply is of the kind that the request asks for.
pub open spec fn answers(request: Request<Seq<char>>, reply: ReplyView) -> bool {
    match request {
        Request::ReadCurrentDir => reply is Outcome,
        Request::ChangeDir(_) => reply is Outcome,
        Request::RestoreDir => reply is Done,
        Request::ReadMounts => reply is Mounts,
        Request::CreateStagingDir { .. } => reply is Directory,
        Request::UpperExists(_) => reply is Flag,
        Request::WorkExists(_) => reply is Flag,
        Request::Exists(_) => reply is Flag,
        Request::IsDir(_) => reply is Flag,
        Request::Fsopen { .. } => reply is Outcome,
        Request::Mount { .. } => reply is Outcome,
        Request::OpenTree { .. } => reply is Outcome,
        Request::MoveMount { .. } => reply is Outcome,
        Request::SendUnmountable(_) => reply is Done,
        Request::Report(_) => reply is Done,
        Request::IsMounted(_) => reply is Checked,
        Request::Unmount { .. } => reply is Unmounted,
        Request::RemoveFault => reply is Flag,
        Request::RemoveDirAll(_) => reply is Removed,
    }
}

} // verus!
