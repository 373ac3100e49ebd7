//! Trusted boundary to the regular-expression engine: attempting a match on a
//! stretch of UTF-8 bytes and listing the pattern's capture-group names.

use regex::Regex;
use vstd::prelude::*;
use vstd::utf8::{is_char_boundary, valid_utf8};

verus! {

#[verifier::external_type_specification]
#[verifier::external_body]
pub struct ExRegex(Regex);

/// The engine's answer for a pattern on a haystack: nothing when the pattern
/// does not match (or the bytes are not valid UTF-8), else the byte range of
/// every capture group, by group index, absent groups as `None`. The answer
/// depends on the pattern and the haystack alone.
pub uninterp spec fn caps_of(re: Regex, hay: Seq<u8>) -> Option<Seq<Option<(usize, usize)>>>;

/// The pattern's capture-group names, by group index, unnamed groups as
/// `None`. The answer depends on the pattern alone.
pub uninterp spec fn names_of(re: Regex) -> Seq<Option<Seq<char>>>;

/// A name list as the characters of each entry.
pub open spec fn names_as_view(names: Seq<Option<String>>) -> Seq<Option<Seq<char>>> {
    names.map_values(
        |n: Option<String>|
            match n {
                Some(s) => Some(s@),
                None => None,
            },
    )
}

/// What the engine reports for one capture group: either absent, or a byte
/// range of the haystack that is ordered, in bounds and, for a well-formed
/// haystack, aligned to character boundaries.
pub open spec fn group_ok(p: Option<(usize, usize)>, hay: Seq<u8>) -> bool {
    match p {
        Some(q) => {
            &&& q.0 <= q.1 <= hay.len()
            &&& (valid_utf8(hay) ==> is_char_boundary(hay, q.0 as int) && is_char_boundary(
                hay,
                q.1 as int,
            ))
        },
        None => true,
    }
}

/// Runs the pattern over the haystack and hands back the byte range of every
/// capture group — the answer named `caps_of` — or nothing when the pattern
/// does not match.
///
/// Relies on `regex::Regex::captures` (reached through `str::from_utf8`): the
/// outcome is a function of the pattern and the haystack alone; on a match it
/// yields one entry per capture group of the pattern, group 0 — the whole
/// match — always present, and every reported range is an ordered pair of
/// byte offsets into the haystack lying on character boundaries.
#[verifier::external_body]
pub fn captures_in(re: &Regex, hay: &Vec<u8>) -> (r: Option<Vec<Option<(usize, usize)>>>)
    ensures
        match r {
            None => caps_of(*re, hay@) is None,
            Some(g) => caps_of(*re, hay@) == Some(g@) && g@.len() >= 1 && g@[0] is Some
                && forall|i: int| 0 <= i < g@.len() ==> group_ok(#[trigger] g@[i], hay@),
        },
{
    let s = match core::str::from_utf8(hay.as_slice()) { Ok(s) => s, Err(_) => return None };
    let caps = match re.captures(s) { Some(c) => c, None => return None };
    let mut out: Vec<Option<(usize, usize)>> = Vec::new();
    for i in 0..caps.len() {
        match caps.get(i) {
            Some(m) => out.push(Some((m.start(), m.end()))),
            None => out.push(None),
        }
    }
    Some(out)
}

/// Lists the pattern's capture-group names — the answer named `names_of` —
/// one entry per group in index order, unnamed groups as `None`.
///
/// Relies on `regex::Regex::capture_names`: the list is a function of the
/// pattern alone; it always yields at least one entry, and the first — for
/// group 0, the whole match — is always unnamed.
#[verifier::external_body]
pub fn group_names(re: &Regex) -> (r: Vec<Option<String>>)
    ensures
        names_as_view(r@) == names_of(*re),
        r@.len() >= 1,
        r@[0] is None,
{
    let mut out: Vec<Option<String>> = Vec::new();
    for n in re.capture_names() {
        match n {
            Some(s) => out.push(Some(s.to_owned())),
            None => out.push(None),
        }
    }
    out
}

} // verus!
