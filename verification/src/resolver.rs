use vstd::prelude::*;
use vstd::pervasive::unreached;

use crate::errors::SyncError;
use crate::strutil::rfind_char;

verus! {

/// The containing directory of a path: everything before its last separator.
pub open spec fn dir_of(path: Seq<char>) -> Seq<char>
    recommends
        path.contains('/'),
{
    path.subrange(0, path.index_of_last('/').unwrap())
}

/// The destination directory spec the transfer tool is given:
/// `userHost:remoteBase/` followed by the containing directory of the
/// relative path.
pub open spec fn remote_dir_of(
    relative_path: Seq<char>,
    user_host: Seq<char>,
    remote_base: Seq<char>,
) -> Seq<char>
    recommends
        relative_path.contains('/'),
{
    user_host + seq![':'] + remote_base + seq!['/'] + dir_of(relative_path)
}

/// The directory part of `path`: the prefix before the last `/`.
pub fn get_dir(path: String) -> (r: String)
    requires
        path@.contains('/'),
    ensures
        r@ == dir_of(path@),
{
    match rfind_char(path.as_str(), '/') {
        Some(i) => {
            proof {
                path@.index_of_last_ensures('/');
            }
            path.as_str().substring_char(0, i).to_owned()
        },
        None => unreached(),
    }
}

/// Derives the destination directory for `relative_path` on the remote side:
/// `user_host:remote_base/` plus the directory part of the relative path.
/// A relative path without a directory separator has no parent directory to
/// resolve and is rejected as malformed.
pub fn resolve_remote_dir(relative_path: &str, user_host: &str, remote_base: &str) -> (r: Result<
    String,
    SyncError,
>)
    ensures
        relative_path@.contains('/') ==> (r matches Ok(d) && d@ == remote_dir_of(
            relative_path@,
            user_host@,
            remote_base@,
        )),
        !relative_path@.contains('/') ==> r == Err::<String, SyncError>(
            SyncError::MalformedPathError,
        ),
{
    match rfind_char(relative_path, '/') {
        None => Err(SyncError::MalformedPathError),
        Some(i) => {
            proof {
                relative_path@.index_of_last_ensures('/');
            }
            let colon = ":";
            let slash = "/";
            proof {
                reveal_strlit(":");
                reveal_strlit("/");
                assert(colon@ =~= seq![':']);
                assert(slash@ =~= seq!['/']);
            }
            let mut out = user_host.to_owned();
            out.append(colon);
            out.append(remote_base);
            out.append(slash);
            out.append(relative_path.substring_char(0, i));
            proof {
                assert(out@ =~= remote_dir_of(relative_path@, user_host@, remote_base@));
            }
            Ok(out)
        },
    }
}

} // verus!
