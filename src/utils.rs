//! Small helpers for the import path.
use vstd::prelude::*;
use vstd::string::StringExecFns;
use crate::error::LedgerError;

verus! {

/// `pat` occurs in `text` at position `i`.
pub open spec fn occurs_at(text: Seq<char>, pat: Seq<char>, i: int) -> bool {
    0 <= i && i + pat.len() <= text.len() && text.subrange(i, i + pat.len()) == pat
}

pub open spec fn occurs(text: Seq<char>, pat: Seq<char>) -> bool {
    exists|i: int| #[trigger] occurs_at(text, pat, i)
}

/// The format name for a file's content: OFX for an OFX header, QIF for a
/// type line, CSV for comma-separated text, else UNKNOWN.
pub open spec fn format_of(content: Seq<char>) -> Seq<char> {
    if occurs_at(content, "OFXHEADER"@, 0) {
        "OFX"@
    } else if occurs(content, "!Type:"@) {
        "QIF"@
    } else if occurs(content, ","@) {
        "CSV"@
    } else {
        "UNKNOWN"@
    }
}

fn matches_at(text: &str, pat: &str, i: usize) -> (r: bool)
    requires
        i <= text@.len(),
    ensures
        r == occurs_at(text@, pat@, i as int),
{
    let n = text.unicode_len();
    let m = pat.unicode_len();
    if m > n - i {
        return false;
    }
    let mut k: usize = 0;
    while k < m
        invariant
            n == text@.len(),
            m == pat@.len(),
            i + m <= n,
            k <= m,
            forall|j: int| 0 <= j < k ==> text@[i + j] == pat@[j],
        decreases m - k,
    {
        if text.get_char(i + k) != pat.get_char(k) {
            assert(text@.subrange(i as int, i + m)[k as int] != pat@[k as int]);
            return false;
        }
        k = k + 1;
    }
    assert(text@.subrange(i as int, i + m) =~= pat@);
    true
}

fn contains_text(text: &str, pat: &str) -> (r: bool)
    ensures
        r == occurs(text@, pat@),
{
    let n = text.unicode_len();
    let mut i: usize = 0;
    while i <= n
        invariant
            n == text@.len(),
            forall|j: int| 0 <= j < i ==> !#[trigger] occurs_at(text@, pat@, j),
        decreases n + 1 - i,
    {
        if matches_at(text, pat, i) {
            return true;
        }
        if i == n {
            assert forall|j: int| !#[trigger] occurs_at(text@, pat@, j) by {
                if j > n {
                    assert(!occurs_at(text@, pat@, j));
                }
            }
            return false;
        }
        i = i + 1;
    }
    false
}

/// Names the format of an imported file from its content.
pub fn detect_file_format(content: &str) -> (r: String)
    ensures
        r@ == format_of(content@),
{
    if matches_at(content, "OFXHEADER", 0) {
        String::from_str("OFX")
    } else if contains_text(content, "!Type:") {
        String::from_str("QIF")
    } else if contains_text(content, ",") {
        String::from_str("CSV")
    } else {
        String::from_str("UNKNOWN")
    }
}

/// Dates arrive already in the ledger's form; they are kept as given.
pub fn parse_date(date_str: &str) -> (r: Result<String, LedgerError>)
    ensures
        r matches Ok(s) && s@ == date_str@,
{
    Ok(String::from_str(date_str))
}

} // verus!
