//! Recognising the error of a stale package-database lock.
use vstd::prelude::*;
use crate::text::{chars_of, contains, contains_str};

verus! {

/// The lock file that a stale lock leaves behind.
pub const LOCK_FILE_PATH: &'static str = "/var/lib/pacman/db.lck";

/// What `str::to_lowercase` makes of a string.
pub uninterp spec fn lower_of(s: Seq<char>) -> Seq<char>;

/// Relies on `str::to_lowercase`: its result depends on the characters alone.
#[verifier::external_body]
fn lowercase(s: &str) -> (r: String)
    ensures
        r@ == lower_of(s@),
{
    s.to_lowercase()
}

/// A message names a stale lock when its lowercase form says the database
/// could not be locked, or it names the lock file.
pub open spec fn lock_error(lowered: Seq<char>, message: Seq<char>) -> bool {
    contains(lowered, "unable to lock database"@) || contains(message, "db.lck"@)
}

/// Whether `message`, whose lowercase form is `lowered`, names a stale lock.
pub fn lock_error_in(lowered: &str, message: &str) -> (r: bool)
    ensures
        r == lock_error(lowered@, message@),
{
    let l = chars_of(lowered);
    let m = chars_of(message);
    contains_str(&l, "unable to lock database") || contains_str(&m, "db.lck")
}

/// Whether an error message names a stale package-database lock.
pub fn is_lock_error(error_message: &str) -> (r: bool)
    ensures
        r == lock_error(lower_of(error_message@), error_message@),
{
    let lowered = lowercase(error_message);
    lock_error_in(lowered.as_str(), error_message)
}

/// Any message that names the lock file is a lock error, whatever its
/// lowercase form; and a message is one exactly when its lowercase form
/// holds the phrase or it names the lock file.
pub proof fn lemma_lock_error(message: Seq<char>)
    ensures
        contains(message, "db.lck"@) ==> lock_error(lower_of(message), message),
        lock_error(lower_of(message), message) <==> (contains(
            lower_of(message),
            "unable to lock database"@,
        ) || contains(message, "db.lck"@)),
{
}

} // verus!
