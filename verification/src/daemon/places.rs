//! Where the daemon keeps its socket, its lock, its log and its spool.

use vstd::prelude::*;
use crate::decimal;
use crate::decimal::push_u64;
use crate::paths;
use crate::paths::join_path;
use crate::text;
use crate::text::owned;

verus! {

pub const SOCKET_FILE: &'static str = "chevrond.sock";

pub const LOCK_FILE: &'static str = "chevrond.lock";

pub const PID_FILE: &'static str = "chevrond.pid";

pub const LOG_FILE: &'static str = "chevrond.log";

/// The directory of the daemon's files: the one that `CHEVRON_SOCKET_DIR` names,
/// else one below `XDG_RUNTIME_DIR`, else one of the user's own in `/tmp`.
pub open spec fn socket_dir_of(own: Option<Seq<char>>, runtime: Option<Seq<char>>, uid: nat) -> Seq<char> {
    match (own, runtime) {
        (Some(d), _) => d,
        (None, Some(d)) => paths::join_of_paths(d, "chevron"@),
        (None, None) => "/tmp/chevrond-"@ + decimal::dec_digits(uid),
    }
}

/// The directory of the daemon's files, from `CHEVRON_SOCKET_DIR`,
/// `XDG_RUNTIME_DIR` and the number of the user.
#[must_use]
pub fn socket_dir(own: Option<&str>, runtime: Option<&str>, uid: u32) -> (r: String)
    ensures
        r@ == socket_dir_of(text::opt_str_view(own), text::opt_str_view(runtime), uid as nat),
{
    match own {
        Some(d) => owned(d),
        None => match runtime {
            Some(d) => join_path(d, "chevron"),
            None => {
                let mut s: String = owned("/tmp/chevrond-");
                push_u64(&mut s, uid as u64);
                s
            },
        },
    }
}

/// The socket in that directory.
#[must_use]
pub fn socket_path(dir: &str) -> (r: String)
    ensures
        r@ == paths::join_of_paths(dir@, SOCKET_FILE@),
{
    join_path(dir, SOCKET_FILE)
}

/// The lock in that directory.
#[must_use]
pub fn lock_path(dir: &str) -> (r: String)
    ensures
        r@ == paths::join_of_paths(dir@, LOCK_FILE@),
{
    join_path(dir, LOCK_FILE)
}

/// The file in that directory that names the daemon's process.
#[must_use]
pub fn pid_path(dir: &str) -> (r: String)
    ensures
        r@ == paths::join_of_paths(dir@, PID_FILE@),
{
    join_path(dir, PID_FILE)
}

/// The spool in that directory.
#[must_use]
pub fn spool_dir(dir: &str) -> (r: String)
    ensures
        r@ == paths::join_of_paths(dir@, "spool"@),
{
    join_path(dir, "spool")
}

/// The directory of the log.
pub open spec fn log_dir_of(own: Option<Seq<char>>, state: Option<Seq<char>>, home: Option<Seq<char>>) -> Seq<
    char,
> {
    match (own, state, home) {
        (Some(d), _, _) => d,
        (None, Some(d), _) => paths::join_of_paths(d, "chevron"@),
        (None, None, Some(h)) => paths::join_of_paths(
            paths::join_of_paths(paths::join_of_paths(h, ".local"@), "state"@),
            "chevron"@,
        ),
        (None, None, None) => "."@,
    }
}

/// The log, from `CHEVRON_LOG_DIR`, `XDG_STATE_HOME` and `HOME`.
#[must_use]
pub fn log_path(own: Option<&str>, state: Option<&str>, home: Option<&str>) -> (r: String)
    ensures
        r@ == paths::join_of_paths(
            log_dir_of(text::opt_str_view(own), text::opt_str_view(state), text::opt_str_view(home)),
            LOG_FILE@,
        ),
{
    let dir: String = match own {
        Some(d) => owned(d),
        None => match state {
            Some(d) => join_path(d, "chevron"),
            None => match home {
                Some(h) => {
                    let local: String = join_path(h, ".local");
                    join_path(join_path(local.as_str(), "state").as_str(), "chevron")
                },
                None => owned("."),
            },
        },
    };
    join_path(dir.as_str(), LOG_FILE)
}

/// A directory that is named for the purpose is taken as it is; else one below the
/// runtime or state directory, then one that depends on the user alone.
pub proof fn law_named_directory_comes_first(
    own: Option<Seq<char>>,
    base: Option<Seq<char>>,
    home: Option<Seq<char>>,
    uid: nat,
    other: nat,
)
    ensures
        own matches Some(d) ==> socket_dir_of(own, base, uid) == d && log_dir_of(own, base, home) == d,
        own is None && base is Some ==> socket_dir_of(own, base, uid) == log_dir_of(own, base, home)
            && socket_dir_of(own, base, uid) == paths::join_of_paths(base->0, "chevron"@),
        own is None && base is None && uid != other ==> socket_dir_of(own, base, uid) != socket_dir_of(
            own,
            base,
            other,
        ),
{
    if own is None && base is None && uid != other {
        let head = "/tmp/chevrond-"@;
        let a = decimal::dec_digits(uid);
        let b = decimal::dec_digits(other);
        decimal::lemma_dec_digits(uid);
        decimal::lemma_dec_digits(other);
        if head + a == head + b {
            assert((head + a).skip(head.len() as int) =~= a);
            assert((head + b).skip(head.len() as int) =~= b);
        }
    }
}

/// Where no directory is named, the log is among the user's own state, and the daemon's
/// files are in `/tmp`.
pub proof fn law_places_of_last_resort(home: Seq<char>, uid: nat)
    requires
        home.len() > 0,
        home.last() != '/',
    ensures
        log_dir_of(None, None, Some(home)) == home + "/.local/state/chevron"@,
        log_dir_of(None, None, None) == "."@,
        text::starts_with_of(socket_dir_of(None, None, uid), "/tmp/"@),
{
    reveal_strlit("/tmp/");
    reveal_strlit("/tmp/chevrond-");
    reveal_strlit("/");
    reveal_strlit(".local");
    reveal_strlit("state");
    reveal_strlit("chevron");
    reveal_strlit("/.local/state/chevron");
    let local = paths::join_of_paths(home, ".local"@);
    let state = paths::join_of_paths(local, "state"@);
    assert(local == home + "/"@ + ".local"@);
    assert(local.last() == 'l');
    assert(state == local + "/"@ + "state"@);
    assert(state.last() == 'e');
    assert(paths::join_of_paths(state, "chevron"@) =~= home + "/.local/state/chevron"@);
    assert(socket_dir_of(None, None, uid).subrange(0, 5) =~= "/tmp/"@);
}

} // verus!
