//! Retention and placement: where an artifact lives, and which date
//! partitions expire.
//!
//! The archive is laid out `<root>/<year>/<month>/<day>/<artifact>`, with the
//! timestamp's fields used exactly as encoded, never re-padded. Pruning works
//! on parsed integers, never on the strings themselves: every first-level
//! directory whose name parses strictly below the current year goes, and,
//! where the month cutoff is non-zero, every month directory of the current
//! year parsing strictly below it. Names that do not parse are left alone.
//! The surrounding program lists the directories and removes what the plan
//! names; deletion is immediate and unrecoverable.

use vstd::prelude::*;

use crate::datetime::DateTime;
use crate::errors::TransferError;
use crate::text::{parse_u32_str, spec_parse_u32};

verus! {

/// How many months of the current year the pruning pass keeps.
pub const ROTATION_MONTHS: u32 = 2;

/// The archive root.
pub fn get_log_folder() -> (r: String)
    ensures
        r@ == "Logs/"@,
{
    "Logs/".to_owned()
}

/// The directory that holds artifacts captured at `dt`.
pub fn create_log_dir(dt: DateTime) -> (r: String)
    ensures
        r@ == "Logs/"@ + dt.year@ + "/"@ + dt.month@ + "/"@ + dt.day@,
{
    let mut r = get_log_folder();
    r.append(dt.year.as_str());
    r.append("/");
    r.append(dt.month.as_str());
    r.append("/");
    r.append(dt.day.as_str());
    r
}

/// The full path of a fresh artifact: the capture day's directory, then a
/// name that embeds the host and the time of day, so names are unique per
/// node per run.
pub fn log_file_path(dt: &DateTime, hostname: &str) -> (r: String)
    ensures
        r@ == "Logs/"@ + dt.year@ + "/"@ + dt.month@ + "/"@ + dt.day@ + "/"@ + hostname@ + "||"@
            + dt.time@ + ".log"@,
{
    let mut r = get_log_folder();
    r.append(dt.year.as_str());
    r.append("/");
    r.append(dt.month.as_str());
    r.append("/");
    r.append(dt.day.as_str());
    r.append("/");
    r.append(hostname);
    r.append("||");
    r.append(dt.time.as_str());
    r.append(".log");
    r
}

/// Whether a directory name parses as an integer strictly below the cutoff.
pub open spec fn name_expired(n: Seq<char>, cutoff: u32) -> bool {
    spec_parse_u32(n) is Some && spec_parse_u32(n)->Some_0 < cutoff
}

/// `name_expired` against a fixed cutoff, as a filter predicate.
pub open spec fn expired_pred(cutoff: u32) -> spec_fn(Seq<char>) -> bool {
    |n: Seq<char>| name_expired(n, cutoff)
}

/// The names of `names` that parse strictly below `cutoff`, in order.
/// Names that do not parse as integers are never selected.
pub fn expired_names(names: &Vec<String>, cutoff: u32) -> (r: Vec<String>)
    ensures
        r.deep_view() == names.deep_view().filter(expired_pred(cutoff)),
{
    let ghost dv = names.deep_view();
    let mut out: Vec<String> = Vec::new();
    let mut i: usize = 0;
    proof {
        assert(dv.take(0) =~= Seq::<Seq<char>>::empty());
        assert(out.deep_view() =~= dv.take(0).filter(expired_pred(cutoff)));
    }
    while i < names.len()
        invariant
            dv == names.deep_view(),
            dv.len() == names@.len(),
            i <= names@.len(),
            out.deep_view() == dv.take(i as int).filter(expired_pred(cutoff)),
        decreases names@.len() - i,
    {
        let ghost pre = dv.take(i as int);
        let ghost post = dv.take(i as int + 1);
        proof {
            broadcast use Seq::lemma_filter_push;

            assert(post =~= pre.push(dv[i as int]));
            assert(expired_pred(cutoff)(dv[i as int]) == name_expired(dv[i as int], cutoff));
        }
        let keep = match parse_u32_str(names[i].as_str()) {
            Some(v) => v < cutoff,
            None => false,
        };
        if keep {
            let ghost old_dv = out.deep_view();
            out.push(names[i].clone());
            proof {
                assert(out.deep_view() =~~= old_dv.push(dv[i as int]));
            }
        }
        proof {
            broadcast use Seq::lemma_filter_push;

            let fpost = pre.push(dv[i as int]).filter(expired_pred(cutoff));
            assert(post.filter(expired_pred(cutoff)) == fpost);
            assert(out.deep_view() =~~= fpost);
        }
        i = i + 1;
    }
    proof {
        assert(dv.take(names@.len() as int) =~= dv);
    }
    out
}

proof fn lemma_filter_names_subset(names: Seq<Seq<char>>, pred: spec_fn(Seq<char>) -> bool, n: Seq<char>)
    requires
        names.filter(pred).contains(n),
    ensures
        names.contains(n),
    decreases names.len(),
{
    reveal(Seq::filter);
    if names.len() > 0 {
        let rest = names.drop_last();
        if pred(names.last()) {
            assert(names.filter(pred) == rest.filter(pred).push(names.last()));
            if n != names.last() {
                let flt = names.filter(pred);
                let j = choose|j: int| 0 <= j < flt.len() && flt[j] == n;
                assert(rest.filter(pred)[j] == n);
                lemma_filter_names_subset(rest, pred, n);
            }
        } else {
            lemma_filter_names_subset(rest, pred, n);
        }
        if rest.contains(n) {
            let j = choose|j: int| 0 <= j < rest.len() && rest[j] == n;
            assert(names[j] == n);
        }
    }
}

/// Law: a pruning pass selects a directory name exactly where the listing
/// holds it and it parses as an integer strictly below the cutoff — so a
/// name at or above the cutoff, or one that does not parse, is never deleted.
pub proof fn lemma_expired_selection(names: Seq<Seq<char>>, cutoff: u32, n: Seq<char>)
    ensures
        names.filter(expired_pred(cutoff)).contains(n) <==> names.contains(n) && name_expired(
            n,
            cutoff,
        ),
{
    let pred = expired_pred(cutoff);
    let flt = names.filter(pred);
    names.filter_lemma(pred);
    if flt.contains(n) {
        let j = choose|j: int| 0 <= j < flt.len() && flt[j] == n;
        assert(pred(flt[j]));
        lemma_filter_names_subset(names, pred, n);
    }
    if names.contains(n) && name_expired(n, cutoff) {
        let i = choose|i: int| 0 <= i < names.len() && names[i] == n;
        assert(pred(names[i]));
        assert(flt.contains(names[i]));
    }
}

/// A pruning plan: which year directories under the root and which month
/// directories under the current year are to be removed.
#[derive(Debug)]
pub struct PrunePlan {
    /// First-level directory names to delete recursively.
    pub years: Vec<String>,
    /// Month directory names under the current year to delete recursively;
    /// empty where the cutoff is zero, that pass being skipped entirely.
    pub months: Vec<String>,
    /// `max(0, current month - threshold)`: months strictly below it expire.
    pub month_cutoff: u32,
}

/// Plans the deletion of expired partitions.
///
/// `year_names` are the entries under the root; `month_names` the entries
/// under the current year's directory. Selected are the year names parsing
/// strictly below today's year, and — only where the cutoff
/// `max(0, month - threshold)` is non-zero — the month names parsing strictly
/// below it. Fails with `InvalidInput` where today's year or month is not
/// numeric.
pub fn del_old_logs(
    today: &DateTime,
    threshold: u32,
    year_names: &Vec<String>,
    month_names: &Vec<String>,
) -> (r: Result<PrunePlan, TransferError>)
    ensures
        r is Ok <==> spec_parse_u32(today.year@) is Some && spec_parse_u32(today.month@) is Some,
        r is Err ==> r->Err_0 == TransferError::InvalidInput,
        r is Ok ==> ({
            let cy = spec_parse_u32(today.year@)->Some_0;
            let cm = spec_parse_u32(today.month@)->Some_0;
            let cutoff = if cm > threshold {
                (cm - threshold) as u32
            } else {
                0u32
            };
            &&& r->Ok_0.month_cutoff == cutoff
            &&& r->Ok_0.years.deep_view() == year_names.deep_view().filter(expired_pred(cy))
            &&& (cutoff == 0 ==> r->Ok_0.months@.len() == 0)
            &&& (cutoff != 0 ==> r->Ok_0.months.deep_view() == month_names.deep_view().filter(
                expired_pred(cutoff),
            ))
        }),
{
    let cur_year = match parse_u32_str(today.year.as_str()) {
        Some(v) => v,
        None => {
            return Err(TransferError::InvalidInput);
        },
    };
    let cur_month = match parse_u32_str(today.month.as_str()) {
        Some(v) => v,
        None => {
            return Err(TransferError::InvalidInput);
        },
    };
    let month_cutoff: u32 = if cur_month > threshold {
        cur_month - threshold
    } else {
        0
    };
    let years = expired_names(year_names, cur_year);
    let months = if month_cutoff == 0 {
        Vec::new()
    } else {
        expired_names(month_names, month_cutoff)
    };
    Ok(PrunePlan { years, months, month_cutoff })
}

/// Plans the routine rotation pass: `del_old_logs` with the fixed threshold.
pub fn rotate_logs(
    today: &DateTime,
    year_names: &Vec<String>,
    month_names: &Vec<String>,
) -> (r: Result<PrunePlan, TransferError>)
    ensures
        r is Ok <==> spec_parse_u32(today.year@) is Some && spec_parse_u32(today.month@) is Some,
        r is Err ==> r->Err_0 == TransferError::InvalidInput,
        r is Ok ==> ({
            let cy = spec_parse_u32(today.year@)->Some_0;
            let cm = spec_parse_u32(today.month@)->Some_0;
            let cutoff = if cm > ROTATION_MONTHS {
                (cm - ROTATION_MONTHS) as u32
            } else {
                0u32
            };
            &&& r->Ok_0.month_cutoff == cutoff
            &&& r->Ok_0.years.deep_view() == year_names.deep_view().filter(expired_pred(cy))
            &&& (cutoff == 0 ==> r->Ok_0.months@.len() == 0)
            &&& (cutoff != 0 ==> r->Ok_0.months.deep_view() == month_names.deep_view().filter(
                expired_pred(cutoff),
            ))
        }),
{
    del_old_logs(today, ROTATION_MONTHS, year_names, month_names)
}

} // verus!
