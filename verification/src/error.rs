//! Why an operation failed, and how that is said.

use vstd::prelude::*;

use crate::text;

verus! {

/// The reason for which an operation failed. Causes are errors of the host, as it displays them.
#[derive(Debug, PartialEq, Eq)]
pub enum MountError<T = String> {
    /// A service of the host failed.
    Host(T),
    /// The current directory could not be read.
    ReadCurrentDir(T),
    /// The current directory could not be changed.
    ChangeDir { path: T, cause: T },
    /// The data of a legacy mount would contain a NUL.
    NulInData,
    /// A legacy overlay mount failed.
    LegacyMount { dest: T, cause: T },
    /// A bind mount failed.
    BindMount { from: T, to: T, cause: T },
    /// The overlay of a sub-mount failed.
    ChildOverlay { mount_point: T, cause: T },
    /// The overlay of the root failed.
    RootOverlay(T),
    /// A staging directory could not be unmounted.
    Detach { path: T, cause: T },
    /// A staging directory was still mounted after it had been unmounted.
    StillMounted(T),
    /// The removal of a staging directory was made to fail.
    InjectedRemove(T),
    /// A staging directory could not be removed.
    Remove { path: T, cause: T },
}

impl View for MountError {
    type V = MountError<Seq<char>>;

    open spec fn view(&self) -> MountError<Seq<char>> {
        match *self {
            MountError::Host(t) => MountError::Host(t@),
            MountError::ReadCurrentDir(t) => MountError::ReadCurrentDir(t@),
            MountError::ChangeDir { path, cause } => MountError::ChangeDir {
                path: path@,
                cause: cause@,
            },
            MountError::NulInData => MountError::NulInData,
            MountError::LegacyMount { dest, cause } => MountError::LegacyMount {
                dest: dest@,
                cause: cause@,
            },
            MountError::BindMount { from, to, cause } => MountError::BindMount {
                from: from@,
                to: to@,
                cause: cause@,
            },
            MountError::ChildOverlay { mount_point, cause } => MountError::ChildOverlay {
                mount_point: mount_point@,
                cause: cause@,
            },
            MountError::RootOverlay(t) => MountError::RootOverlay(t@),
            MountError::Detach { path, cause } => MountError::Detach {
                path: path@,
                cause: cause@,
            },
            MountError::StillMounted(t) => MountError::StillMounted(t@),
            MountError::InjectedRemove(t) => MountError::InjectedRemove(t@),
            MountError::Remove { path, cause } => MountError::Remove {
                path: path@,
                cause: cause@,
            },
        }
    }
}

impl MountError<Seq<char>> {
    /// The text of the error.
    pub open spec fn text(self) -> Seq<char> {
        match self {
            MountError::Host(t) => t,
            MountError::ReadCurrentDir(cause) => "read current directory: "@ + cause,
            MountError::ChangeDir { path, cause } => "chdir to "@ + path + ": "@ + cause,
            MountError::NulInData => "overlay mount data contains NUL"@,
            MountError::LegacyMount { dest, cause } => "legacy overlay mount "@ + dest + ": "@
                + cause,
            MountError::BindMount { from, to, cause } => "bind mount "@ + from + " -> "@ + to
                + ": "@ + cause,
            MountError::ChildOverlay { mount_point, cause } =>
            "child overlay failed: mount_point="@ + mount_point + ": "@ + cause,
            MountError::RootOverlay(cause) => "mount overlayfs for root failed: "@ + cause,
            MountError::Detach { path, cause } =>
            "detach intermediate overlay staging failed: path="@ + path + ", error="@ + cause,
            MountError::StillMounted(path) =>
            "intermediate overlay staging still mounted after detach: path="@ + path,
            MountError::InjectedRemove(path) =>
            "injected intermediate overlay staging remove failure: path="@ + path,
            MountError::Remove { path, cause } =>
            "remove intermediate overlay staging failed: path="@ + path + ", error="@ + cause,
        }
    }
}

/// The view of a result of an operation.
pub open spec fn result_view(r: Result<(), MountError>) -> Result<(), MountError<Seq<char>>> {
    match r {
        Ok(u) => Ok(u),
        Err(e) => Err(e@),
    }
}

/// Copies the result of an operation.
pub(crate) fn copy_result(r: &Result<(), MountError>) -> (copy: Result<(), MountError>)
    ensures
        result_view(copy) == result_view(*r),
{
    match r {
        Ok(_) => Ok(()),
        Err(e) => Err(e.copy()),
    }
}

/// Four texts, one after the other.
fn concat4(a: &str, b: &str, c: &str, d: &str) -> (all: String)
    ensures
        all@ == a@ + b@ + c@ + d@,
{
    let mut all: String = text::concat(a, b);
    all.append(c);
    all.append(d);
    all
}

impl MountError {
    /// Copies the error.
    pub(crate) fn copy(&self) -> (error: MountError)
        ensures
            error@ == self@,
    {
        match self {
            MountError::Host(t) => MountError::Host(text::copy_text(t.as_str())),
            MountError::ReadCurrentDir(t) => MountError::ReadCurrentDir(
                text::copy_text(t.as_str()),
            ),
            MountError::ChangeDir { path, cause } => MountError::ChangeDir {
                path: text::copy_text(path.as_str()),
                cause: text::copy_text(cause.as_str()),
            },
            MountError::NulInData => MountError::NulInData,
            MountError::LegacyMount { dest, cause } => MountError::LegacyMount {
                dest: text::copy_text(dest.as_str()),
                cause: text::copy_text(cause.as_str()),
            },
            MountError::BindMount { from, to, cause } => MountError::BindMount {
                from: text::copy_text(from.as_str()),
                to: text::copy_text(to.as_str()),
                cause: text::copy_text(cause.as_str()),
            },
            MountError::ChildOverlay { mount_point, cause } => MountError::ChildOverlay {
                mount_point: text::copy_text(mount_point.as_str()),
                cause: text::copy_text(cause.as_str()),
            },
            MountError::RootOverlay(t) => MountError::RootOverlay(text::copy_text(t.as_str())),
            MountError::Detach { path, cause } => MountError::Detach {
                path: text::copy_text(path.as_str()),
                cause: text::copy_text(cause.as_str()),
            },
            MountError::StillMounted(t) => MountError::StillMounted(text::copy_text(t.as_str())),
            MountError::InjectedRemove(t) => MountError::InjectedRemove(
                text::copy_text(t.as_str()),
            ),
            MountError::Remove { path, cause } => MountError::Remove {
                path: text::copy_text(path.as_str()),
                cause: text::copy_text(cause.as_str()),
            },
        }
    }

    /// Says what failed, and why.
    pub fn message(&self) -> (message: String)
        ensures
            message@ == self@.text(),
    {
        match self {
            MountError::Host(t) => text::copy_text(t.as_str()),
            MountError::ReadCurrentDir(cause) => text::concat(
                "read current directory: ",
                cause.as_str(),
            ),
            MountError::ChangeDir { path, cause } => concat4(
                "chdir to ",
                path.as_str(),
                ": ",
                cause.as_str(),
            ),
            MountError::NulInData => text::copy_text("overlay mount data contains NUL"),
            MountError::LegacyMount { dest, cause } => concat4(
                "legacy overlay mount ",
                dest.as_str(),
                ": ",
                cause.as_str(),
            ),
            MountError::BindMount { from, to, cause } => {
                let mut message: String = concat4(
                    "bind mount ",
                    from.as_str(),
                    " -> ",
                    to.as_str(),
                );
                message.append(": ");
                message.append(cause.as_str());
                message
            },
            MountError::ChildOverlay { mount_point, cause } => concat4(
                "child overlay failed: mount_point=",
                mount_point.as_str(),
                ": ",
                cause.as_str(),
            ),
            MountError::RootOverlay(cause) => text::concat(
                "mount overlayfs for root failed: ",
                cause.as_str(),
            ),
            MountError::Detach { path, cause } => concat4(
                "detach intermediate overlay staging failed: path=",
                path.as_str(),
                ", error=",
                cause.as_str(),
            ),
            MountError::StillMounted(path) => text::concat(
                "intermediate overlay staging still mounted after detach: path=",
                path.as_str(),
            ),
            MountError::InjectedRemove(path) => text::concat(
                "injected intermediate overlay staging remove failure: path=",
                path.as_str(),
            ),
            MountError::Remove { path, cause } => concat4(
                "remove intermediate overlay staging failed: path=",
                path.as_str(),
                ", error=",
                cause.as_str(),
            ),
        }
    }
}

/// Every message begins by saying what failed, names the paths that it was about, and ends with the
/// cause as the host displays it, where there is one. An error of the host itself is told as it is.
pub proof fn messages_say_what_failed_and_why(a: Seq<char>, b: Seq<char>, cause: Seq<char>)
    ensures
        MountError::Host(cause).text() == cause,
        MountError::ReadCurrentDir(cause).text() == "read current directory: "@ + cause,
        (MountError::ChangeDir { path: a, cause }).text() == "chdir to "@ + a + ": "@ + cause,
        MountError::<Seq<char>>::NulInData.text() == "overlay mount data contains NUL"@,
        (MountError::LegacyMount { dest: a, cause }).text() == "legacy overlay mount "@ + a + ": "@
            + cause,
        (MountError::BindMount { from: a, to: b, cause }).text() == "bind mount "@ + a + " -> "@ + b
            + ": "@ + cause,
        (MountError::ChildOverlay { mount_point: a, cause }).text()
            == "child overlay failed: mount_point="@ + a + ": "@ + cause,
        MountError::RootOverlay(cause).text() == "mount overlayfs for root failed: "@ + cause,
        (MountError::Detach { path: a, cause }).text()
            == "detach intermediate overlay staging failed: path="@ + a + ", error="@ + cause,
        MountError::StillMounted(a).text()
            == "intermediate overlay staging still mounted after detach: path="@ + a,
        MountError::InjectedRemove(a).text()
            == "injected intermediate overlay staging remove failure: path="@ + a,
        (MountError::Remove { path: a, cause }).text()
            == "remove intermediate overlay staging failed: path="@ + a + ", error="@ + cause,
{
}

/// What the contracts see of an error is its kind and the text of each of its parts, and of a result
/// whether it is a success, or its error.
pub proof fn errors_are_seen_part_by_part(
    a: String,
    b: String,
    cause: String,
    r: Result<(), MountError>,
)
    ensures
        MountError::Host(cause)@ == MountError::Host(cause@),
        MountError::ReadCurrentDir(cause)@ == MountError::ReadCurrentDir(cause@),
        (MountError::ChangeDir { path: a, cause })@ == (MountError::ChangeDir {
            path: a@,
            cause: cause@,
        }),
        MountError::<String>::NulInData@ == MountError::<Seq<char>>::NulInData,
        (MountError::LegacyMount { dest: a, cause })@ == (MountError::LegacyMount {
            dest: a@,
            cause: cause@,
        }),
        (MountError::BindMount { from: a, to: b, cause })@ == (MountError::BindMount {
            from: a@,
            to: b@,
            cause: cause@,
        }),
        (MountError::ChildOverlay { mount_point: a, cause })@ == (MountError::ChildOverlay {
            mount_point: a@,
            cause: cause@,
        }),
        MountError::RootOverlay(cause)@ == MountError::RootOverlay(cause@),
        (MountError::Detach { path: a, cause })@ == (MountError::Detach {
            path: a@,
            cause: cause@,
        }),
        MountError::StillMounted(a)@ == MountError::StillMounted(a@),
        MountError::InjectedRemove(a)@ == MountError::InjectedRemove(a@),
        (MountError::Remove { path: a, cause })@ == (MountError::Remove {
            path: a@,
            cause: cause@,
        }),
        r is Ok <==> result_view(r) is Ok,
        r matches Err(err) ==> result_view(r) == Err::<(), MountError<Seq<char>>>(err@),
{
}

} // verus!
