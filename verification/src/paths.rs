//! Where Stash keeps its data, and small decisions of the command line:
//! how a freed size is expressed and whether an answer confirms.
use vstd::prelude::*;
use crate::text::{owned, to_chars, trim, trim_chars, string_of};

verus! {

/// Stash's data directory under the home directory `home`.
pub open spec fn stash_dir_of(home: Seq<char>) -> Seq<char> {
    home + "/Library/Application Support/Stash"@
}

/// Stash's data directory under the home directory `home`.
pub fn stash_dir(home: &str) -> (r: String)
    ensures
        r@ == stash_dir_of(home@),
{
    let mut r = owned(home);
    r.append("/Library/Application Support/Stash");
    r
}

/// The directory of Stash's core data (logs, crashes, config) inside its
/// data directory.
pub fn stash_core_dir(stash_dir: &str) -> (r: String)
    ensures
        r@ == stash_dir@ + "/Core"@,
{
    let mut r = owned(stash_dir);
    r.append("/Core");
    r
}

/// Where an installed build writes the report, under the home directory `home`.
pub fn downloads_report_path(home: &str) -> (r: String)
    ensures
        r@ == home@ + "/Downloads/vvpn_report.html"@,
{
    let mut r = owned(home);
    r.append("/Downloads/vvpn_report.html");
    r
}

/// The unit a number of bytes is shown in.
#[derive(Debug, PartialEq, Eq, Structural, Clone, Copy)]
pub enum SizeUnit {
    Bytes,
    KiloBytes,
    MegaBytes,
}

/// The unit for `bytes`: MB from 1 MiB, KB from 1 KiB, bytes below.
pub open spec fn size_unit_of(bytes: u64) -> SizeUnit {
    if bytes >= 1024 * 1024 {
        SizeUnit::MegaBytes
    } else if bytes >= 1024 {
        SizeUnit::KiloBytes
    } else {
        SizeUnit::Bytes
    }
}

/// The unit a freed size of `bytes` is shown in.
pub fn size_unit(bytes: u64) -> (r: SizeUnit)
    ensures
        r == size_unit_of(bytes),
{
    if bytes >= 1024 * 1024 {
        SizeUnit::MegaBytes
    } else if bytes >= 1024 {
        SizeUnit::KiloBytes
    } else {
        SizeUnit::Bytes
    }
}

/// The lower-case form of `s`, as `str::to_lowercase` makes it.
pub uninterp spec fn lowercased(s: Seq<char>) -> Seq<char>;

/// The lower-case form of `s` (`str::to_lowercase`).
/// Trusted: the result is whatever std computes, named `lowercased`.
#[verifier::external_body]
pub(crate) fn to_lower(s: &str) -> (r: String)
    ensures
        r@ == lowercased(s@),
{
    s.to_lowercase()
}

/// Whether an answer to "open the report?" says yes: empty, "y" or "yes",
/// ignoring surrounding whitespace and case.
pub open spec fn confirms_spec(answer: Seq<char>) -> bool {
    let a = lowercased(trim(answer));
    a.len() == 0 || a == "y"@ || a == "yes"@
}

/// Whether an answer to "open the report?" says yes.
pub fn confirms(answer: &str) -> (r: bool)
    ensures
        r == confirms_spec(answer@),
{
    let t = trim_chars(&to_chars(answer));
    let ts = string_of(&t);
    let a = to_lower(ts.as_str());
    let ac = to_chars(a.as_str());
    ac.len() == 0 || crate::text::eq_str(a.as_str(), "y") || crate::text::eq_str(a.as_str(), "yes")
}

} // verus!
