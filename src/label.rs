//! Snapshot labels: a calendar month written `YYYY-MM`.

use vstd::prelude::*;
use crate::error::{BackupError, ErrorView, outcome};
use crate::text::chars_of;

verus! {

/// An ASCII decimal digit.
pub open spec fn is_digit(c: char) -> bool {
    '0' <= c && c <= '9'
}

/// Four ASCII digits, a dash, two ASCII digits.
pub open spec fn valid_label(s: Seq<char>) -> bool {
    &&& s.len() == 7
    &&& s[4] == '-'
    &&& forall|i: int| 0 <= i < 7 && i != 4 ==> is_digit(#[trigger] s[i])
}

/// Whether `label` is a valid `YYYY-MM` label.
pub fn is_valid_label(label: &str) -> (r: bool)
    ensures
        r == valid_label(label@),
{
    let cs = chars_of(label);
    if cs.len() != 7 || cs[4] != '-' {
        return false;
    }
    let mut i: usize = 0;
    while i < 7
        invariant
            cs@ == label@,
            cs@.len() == 7,
            cs@[4] == '-',
            i <= 7,
            forall|j: int| 0 <= j < i && j != 4 ==> is_digit(#[trigger] cs@[j]),
        decreases 7 - i,
    {
        if i != 4 && !('0' <= cs[i] && cs[i] <= '9') {
            return false;
        }
        i += 1;
    }
    true
}

/// Rejects a label that is not `YYYY-MM`, naming it.
pub fn ensure_label(label: &str) -> (r: Result<(), BackupError>)
    ensures
        outcome(r) == (if valid_label(label@) {
            Ok(())
        } else {
            Err(ErrorView::InvalidLabel(label@))
        }),
{
    if is_valid_label(label) {
        Ok(())
    } else {
        Err(BackupError::InvalidLabel { label: label.to_owned() })
    }
}

} // verus!
