//! The location index: one entry per packet per location, and the rule that
//! makes re-marking a packet known idempotent.

use vstd::prelude::*;

use crate::responses::{ErrorKind, OutpackError};

verus! {

/// A ledger entry: a packet id, when it became known here (milliseconds since
/// the epoch), and the hash of its metadata document.
#[derive(Clone, Debug)]
pub struct LocationEntry {
    pub packet: String,
    pub time: u64,
    pub hash: String,
}

/// The directory of a location's ledger under `root`.
pub open spec fn spec_location_dir(root: Seq<char>, location: Seq<char>) -> Seq<char> {
    root + "/.outpack/location/"@ + location
}

/// Where the ledger entry for `id` at `location` lives under `root`.
pub open spec fn spec_location_entry_path(
    root: Seq<char>,
    location: Seq<char>,
    id: Seq<char>,
) -> Seq<char> {
    spec_location_dir(root, location) + "/"@ + id
}

/// The on-disk path of the ledger entry for `id` at `location`.
pub fn location_entry_path(root: &str, location: &str, id: &str) -> (r: String)
    ensures
        r@ == spec_location_entry_path(root@, location@, id@),
{
    let mut out = String::new();
    out.append(root);
    out.append("/.outpack/location/");
    out.append(location);
    out.append("/");
    out.append(id);
    proof {
        assert(out@ =~= spec_location_entry_path(root@, location@, id@));
    }
    out
}

/// Record that `id` is known at `location` under hash `hash`.  If an entry
/// for the same packet and hash already exists the call is a no-op, whatever
/// its timestamp; an entry with a different hash is refused.  On a fresh
/// entry, returns the path and the entry the caller must write there.
pub fn mark_packet_known(
    root: &str,
    id: &str,
    location: &str,
    hash: &str,
    time: u64,
    existing: Option<&LocationEntry>,
) -> (r: Result<Option<(String, LocationEntry)>, OutpackError>)
    ensures
        match existing {
            None => r matches Ok(w) && w matches Some((p, e)) && p@ == spec_location_entry_path(
                root@,
                location@,
                id@,
            ) && e.packet@ == id@ && e.time == time && e.hash@ == hash@,
            Some(old_entry) => {
                if old_entry.packet@ == id@ && old_entry.hash@ == hash@ {
                    r matches Ok(w) && w is None
                } else {
                    r matches Err(e) && e.kind == Some(ErrorKind::AlreadyExists)
                        && e.detail@ == crate::responses::spec_kind_tag(ErrorKind::AlreadyExists)
                }
            },
        },
{
    match existing {
        None => {
            let path = location_entry_path(root, location, id);
            let entry = LocationEntry { packet: id.to_owned(), time, hash: hash.to_owned() };
            Ok(Some((path, entry)))
        },
        Some(old_entry) => {
            let same = str_eq(old_entry.packet.as_str(), id) && str_eq(
                old_entry.hash.as_str(),
                hash,
            );
            if same {
                Ok(None)
            } else {
                Err(OutpackError::new(
                    ErrorKind::AlreadyExists,
                    crate::responses::kind_tag(ErrorKind::AlreadyExists).to_owned(),
                ))
            }
        },
    }
}

/// Whether two strings have the same characters.
pub fn str_eq(a: &str, b: &str) -> (r: bool)
    ensures
        r == (a@ == b@),
{
    let na = a.unicode_len();
    let nb = b.unicode_len();
    if na != nb {
        return false;
    }
    for i in 0..na
        invariant
            na == a@.len(),
            na == b@.len(),
            forall|j: int| 0 <= j < i ==> a@[j] == b@[j],
    {
        if a.get_char(i) != b.get_char(i) {
            return false;
        }
    }
    proof {
        assert(a@ =~= b@);
    }
    true
}

} // verus!
