//! File operations on many images at once (copying, renaming, deleting):
//! the plan of a two-step rename and the summary the user sees.

use vstd::prelude::*;
use crate::numbers::{decimal, digits_value, format_count, lemma_decimal_digits};
use crate::perspective::{join_strings, joined_with};
use crate::sort::texts;

verus! {

/// One image to rename: from `old_name` to `new_name`.
#[derive(Debug)]
pub struct RenameMapping {
    pub old_name: String,
    pub new_name: String,
}

/// The temporary name of the `i`-th image of a rename: every image first
/// takes such a name, so that a new name may be one an image still holds.
pub open spec fn temp_name_spec(i: nat) -> Seq<char> {
    "temp_rename_"@ + decimal(i) + ".tmp"@
}

/// `temp_rename_{i}.tmp`.
pub fn temp_rename_name(i: usize) -> (r: String)
    ensures
        r@ == temp_name_spec(i as nat),
{
    let mut r = String::from_str("temp_rename_");
    let digits = format_count(i);
    r.append(digits.as_str());
    r.append(".tmp");
    r
}

/// Law: the temporary names of two different images differ, so the first
/// step of a rename never moves one image onto another.
pub proof fn law_temp_names_distinct(i: nat, j: nat)
    requires
        i != j,
    ensures
        temp_name_spec(i) != temp_name_spec(j),
{
    reveal_strlit("temp_rename_");
    reveal_strlit(".tmp");
    lemma_decimal_digits(i);
    lemma_decimal_digits(j);
    let a = temp_name_spec(i);
    let b = temp_name_spec(j);
    if a == b {
        let p = "temp_rename_"@.len();
        let q = ".tmp"@.len();
        assert(a.len() == p + decimal(i).len() + q);
        assert(b.len() == p + decimal(j).len() + q);
        assert(decimal(i).len() == decimal(j).len());
        assert(a.subrange(p as int, a.len() - q) =~= decimal(i));
        assert(b.subrange(p as int, b.len() - q) =~= decimal(j));
        assert(decimal(i) == decimal(j));
        assert(digits_value(decimal(i)) == digits_value(decimal(j)));
    }
}

/// What a batch of file operations reports.
#[derive(Debug)]
pub struct BatchOutcome {
    pub success: bool,
    /// The failure summary, when any operation failed.
    pub error: Option<String>,
    /// The success message, when none failed.
    pub message: Option<String>,
}

/// The summary of a batch in which `count` images were handled (`done`
/// is the past participle, such as `copied`; `done_capital` the same word
/// capitalised) and `errors` holds one message per failure. Without
/// failures: `Successfully {done} {count} images{suffix}`. With failures:
/// `{Done} {count} images but encountered errors: {errors, joined by ", "}`,
/// and the batch still counts as a success when `partial_counts` and at
/// least one image was handled.
pub fn batch_outcome(
    done: &str,
    done_capital: &str,
    suffix: &str,
    count: usize,
    errors: &[String],
    partial_counts: bool,
) -> (r: BatchOutcome)
    ensures
        r.success == (errors@.len() == 0 || (partial_counts && count > 0)),
        errors@.len() == 0 ==> r.error is None && (r.message matches Some(m) && m@ == "Successfully "@
            + done@ + " "@ + decimal(count as nat) + " images"@ + suffix@),
        errors@.len() > 0 ==> r.message is None && (r.error matches Some(e) && e@ == done_capital@
            + " "@ + decimal(count as nat) + " images but encountered errors: "@ + joined_with(
            texts(errors@),
            ", "@,
        )),
{
    let digits = format_count(count);
    if errors.len() == 0 {
        let mut m = String::from_str("Successfully ");
        m.append(done);
        m.append(" ");
        m.append(digits.as_str());
        m.append(" images");
        m.append(suffix);
        BatchOutcome { success: true, error: None, message: Some(m) }
    } else {
        let mut e = String::from_str(done_capital);
        e.append(" ");
        e.append(digits.as_str());
        e.append(" images but encountered errors: ");
        let joined = join_strings(errors, ", ");
        proof {
            assert(errors@.map_values(|s: String| s@) =~= texts(errors@));
        }
        e.append(joined.as_str());
        BatchOutcome { success: partial_counts && count > 0, error: Some(e), message: None }
    }
}

} // verus!
