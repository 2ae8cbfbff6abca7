//! The command lines that register the tool with the Windows service
//! manager, and remove it again. Running them is the caller's business.

use vstd::prelude::*;

verus! {

/// The command line that registers `executable` as the auto-start service
/// `BackupDog`, run as the local system account.
pub open spec fn registration_text(executable: Seq<char>) -> Seq<char> {
    "sc create BackupDog binPath= \""@ + executable + "\" start= auto obj= LocalSystem"@
}

/// The command line that removes the service `BackupDog`.
pub open spec fn removal_text() -> Seq<char> {
    "sc delete BackupDog"@
}

/// Builds the command line that registers the program at `executable`.
pub fn registration_command(executable: &str) -> (out: String)
    ensures
        out@ == registration_text(executable@),
{
    let mut out = "sc create BackupDog binPath= \"".to_owned();
    out.append(executable);
    out.append("\" start= auto obj= LocalSystem");
    out
}

/// Builds the command line that removes the service.
pub fn removal_command() -> (out: String)
    ensures
        out@ == removal_text(),
{
    "sc delete BackupDog".to_owned()
}

} // verus!
