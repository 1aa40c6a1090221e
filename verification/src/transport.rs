use vstd::prelude::*;

use crate::errors::SyncError;
use crate::resolver::{remote_dir_of, resolve_remote_dir};

verus! {

/// The flag argument handed to the transfer tool: the archive/verbose flag
/// set extended by the user-supplied extra flags.
pub open spec fn flags_of(extra_flags: Seq<char>) -> Seq<char> {
    seq!['-', 'a', 'v'] + extra_flags
}

/// The local source path handed to the transfer tool.
pub open spec fn source_of(local_base: Seq<char>, relative_path: Seq<char>) -> Seq<char> {
    local_base + seq!['/'] + relative_path
}

/// One fully resolved transfer-tool invocation: the flag argument, the local
/// source path, and the remote destination directory, in the order the tool
/// takes them.
pub struct SyncCommand {
    pub flags: String,
    pub source: String,
    pub dest: String,
}

/// Builds the transfer-tool invocation for one file: archive/verbose flags
/// extended by `extra_flags`, source `local_base/relative_path`, and the
/// resolved remote destination directory. A relative path without a
/// directory separator is rejected as malformed.
pub fn build_sync_command(
    relative_path: &str,
    local_base: &str,
    user_host: &str,
    remote_base: &str,
    extra_flags: &str,
) -> (r: Result<SyncCommand, SyncError>)
    ensures
        relative_path@.contains('/') ==> (r matches Ok(c) && c.flags@ == flags_of(extra_flags@)
            && c.source@ == source_of(local_base@, relative_path@) && c.dest@ == remote_dir_of(
            relative_path@,
            user_host@,
            remote_base@,
        )),
        !relative_path@.contains('/') ==> r == Err::<SyncCommand, SyncError>(
            SyncError::MalformedPathError,
        ),
{
    let dest = match resolve_remote_dir(relative_path, user_host, remote_base) {
        Ok(d) => d,
        Err(e) => {
            return Err(e);
        },
    };
    let dash_av = "-av";
    let slash = "/";
    proof {
        reveal_strlit("-av");
        reveal_strlit("/");
        assert(dash_av@ =~= seq!['-', 'a', 'v']);
        assert(slash@ =~= seq!['/']);
    }
    let mut flags = dash_av.to_owned();
    flags.append(extra_flags);
    let mut source = local_base.to_owned();
    source.append(slash);
    source.append(relative_path);
    proof {
        assert(flags@ =~= flags_of(extra_flags@));
        assert(source@ =~= source_of(local_base@, relative_path@));
    }
    Ok(SyncCommand { flags, source, dest })
}

/// Whether a transfer invocation asks for the dry-run diagnostic: the
/// extra-flag string is exactly `n`. Any other value, even one containing
/// `n`, does not.
pub fn is_dry_run(extra_flags: &str) -> (b: bool)
    ensures
        b == (extra_flags@ == seq!['n']),
{
    let n = extra_flags.unicode_len();
    if n != 1 {
        proof {
            assert(extra_flags@ != seq!['n']) by {
                if extra_flags@ == seq!['n'] {
                    assert(extra_flags@.len() == 1);
                }
            }
        }
        false
    } else {
        let c = extra_flags.get_char(0);
        proof {
            if c == 'n' {
                assert(extra_flags@ =~= seq!['n']);
            } else {
                if extra_flags@ == seq!['n'] {
                    assert(extra_flags@[0] == 'n');
                }
            }
        }
        c == 'n'
    }
}

} // verus!
