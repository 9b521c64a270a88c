//! Metrics of the catalog: open pull requests, their ages, the number of
//! endpoints, the rules that specs ignore and the endpoints per audience.
//! Points in time are seconds since the Unix epoch.
use vstd::prelude::*;
use vstd::string::StringExecFns;
use vstd::utf8::encode_utf8;
use chrono::TimeZone;
use crate::app::dao::catalog::spec::SpecItem;
use crate::app::dao::catalog::handlers::SpecHandler;
use crate::text::{occurs_at, decimal_text, debug_text, u64_to_decimal, debug_string, starts_with};

verus! {

/// A pull request of the catalog's repository, as far as the metrics read it.
#[derive(Debug, Clone)]
pub struct PullRequest {
    pub id: u64,
    pub title: String,
    /// When it was opened, in milliseconds since the Unix epoch.
    pub created_epoch: u64,
    /// When it was merged or declined, in milliseconds since the Unix epoch.
    pub closed_epoch: Option<i64>,
    pub author_email: String,
}

/// A page of pull requests.
#[derive(Debug, Clone)]
pub struct PullRequests {
    pub size: i32,
    pub values: Vec<PullRequest>,
}

/// All the metrics, as time series.
#[derive(Debug)]
pub struct Metrics {
    pub pr_num: Vec<(i64, i32)>,
    pub pr_ages: Vec<(i64, i64, i64, i64, i64)>,
    pub endpoints_num: Vec<(i64, i32)>,
    pub zally_violations: Vec<(i64, Vec<(i64, usize)>)>,
    pub endpoints_num_per_audience: Vec<(i64, Vec<(String, usize)>)>,
}

/// The points of a series that could be read, or none.
pub open spec fn points_or_none<T>(series: Option<Vec<T>>) -> Seq<T> {
    match series {
        Some(v) => v@,
        None => Seq::empty(),
    }
}

fn points_or_empty<T>(series: Option<Vec<T>>) -> (r: Vec<T>)
    ensures
        r@ == points_or_none(series),
{
    match series {
        Some(v) => v,
        None => Vec::new(),
    }
}

/// All the metrics from the series read from the database; a series that
/// could not be read (`None`) is reported empty.
pub fn get_all_metrics(
    pr_num: Option<Vec<(i64, i32)>>,
    pr_ages: Option<Vec<(i64, i64, i64, i64, i64)>>,
    endpoints_num: Option<Vec<(i64, i32)>>,
    zally_violations: Option<Vec<(i64, Vec<(i64, usize)>)>>,
    endpoints_num_per_audience: Option<Vec<(i64, Vec<(String, usize)>)>>,
) -> (r: Metrics)
    ensures
        r.pr_num@ == points_or_none(pr_num),
        r.pr_ages@ == points_or_none(pr_ages),
        r.endpoints_num@ == points_or_none(endpoints_num),
        r.zally_violations@ == points_or_none(zally_violations),
        r.endpoints_num_per_audience@ == points_or_none(endpoints_num_per_audience),
{
    Metrics {
        pr_num: points_or_empty(pr_num),
        pr_ages: points_or_empty(pr_ages),
        endpoints_num: points_or_empty(endpoints_num),
        zally_violations: points_or_empty(zally_violations),
        endpoints_num_per_audience: points_or_empty(endpoints_num_per_audience),
    }
}

/// The number of open pull requests, at `now`.
pub fn get_metrics_pull_requests_number(pull_requests: &PullRequests, now: i64) -> (r: (i64, i32))
    ensures
        r == (now, pull_requests.size),
{
    (now, pull_requests.size)
}

/// The number of whole days between the opening of a pull request and
/// `current_epoch` (in seconds).
pub open spec fn age_in_days(pr: PullRequest, current_epoch: u64) -> int {
    (current_epoch - pr.created_epoch / 1000) / 86400
}

/// Every pull request was opened at or before `current_epoch`.
pub open spec fn opened_before(prs: Seq<PullRequest>, current_epoch: u64) -> bool {
    forall|i: int| 0 <= i < prs.len() ==> (#[trigger] prs[i]).created_epoch / 1000 <= current_epoch
}

/// The age of each pull request in whole days, at `current_epoch` (in
/// seconds), in order: the values whose percentiles and mean the age
/// metric reports.
pub fn pull_request_ages_in_days(pull_requests: &PullRequests, current_epoch: u64) -> (r: Vec<u64>)
    requires
        opened_before(pull_requests.values@, current_epoch),
    ensures
        r@.len() == pull_requests.values@.len(),
        forall|i: int| 0 <= i < r@.len() ==> r@[i] == age_in_days(#[trigger] pull_requests.values@[i], current_epoch),
{
    let mut ages: Vec<u64> = Vec::new();
    let mut i: usize = 0;
    while i < pull_requests.values.len()
        invariant
            i <= pull_requests.values@.len(),
            opened_before(pull_requests.values@, current_epoch),
            ages@.len() == i,
            forall|j: int| 0 <= j < i ==> ages@[j] == age_in_days(#[trigger] pull_requests.values@[j], current_epoch),
        decreases pull_requests.values@.len() - i,
    {
        let created_epoch_in_sec = pull_requests.values[i].created_epoch / 1000;
        let delta: u64 = current_epoch - created_epoch_in_sec;
        ages.push(delta / 86400);
        i = i + 1;
    }
    ages
}

/// The first second (since the Unix epoch) of the dates that chrono can
/// represent: January 1 of the year -262143, UTC.
pub const FIRST_UTC_SECOND: i64 = -8334601228800;

/// The last second of the dates that chrono can represent: December 31 of
/// the year 262142, 23:59:59 UTC.
pub const LAST_UTC_SECOND: i64 = 8210266876799;

/// chrono can make a UTC date of the second `secs`.
pub open spec fn utc_representable(secs: i64) -> bool {
    FIRST_UTC_SECOND <= secs <= LAST_UTC_SECOND
}

/// What chrono writes with `%Y-%m-%d` for the UTC day of the second `secs`.
pub uninterp spec fn utc_day(secs: i64) -> Seq<char>;

/// chrono's `Utc.timestamp(secs, 0)`, formatted with `%Y-%m-%d`: the UTC day
/// of the second `secs`. chrono panics on a second outside its dates, which
/// `requires` leaves out; the text is named, not stated.
#[verifier::external_body]
#[allow(deprecated)]
fn utc_day_text(secs: i64) -> (r: String)
    requires
        utc_representable(secs),
    ensures
        r@ == utc_day(secs),
{
    chrono::Utc.timestamp(secs, 0).format("%Y-%m-%d").to_string()
}

/// `s` starts with `prefix`, as `str::starts_with` decides it.
pub open spec fn chars_start_with(s: Seq<char>, prefix: Seq<char>) -> bool {
    occurs_at(encode_utf8(s), encode_utf8(prefix), 0)
}

/// Integer division of `x` by 1000, rounded towards zero (as Rust's `/`).
pub open spec fn thousandths_toward_zero(x: i64) -> int {
    if x >= 0 {
        x / 1000
    } else {
        -((-x) / 1000)
    }
}

/// The second at which a pull request was closed.
pub open spec fn closed_second(pr: PullRequest) -> int {
    thousandths_toward_zero(pr.closed_epoch.unwrap())
}

/// The pull request was closed, at a second that chrono can represent.
pub open spec fn closed_day_known(pr: PullRequest) -> bool {
    &&& pr.closed_epoch is Some
    &&& FIRST_UTC_SECOND <= closed_second(pr) <= LAST_UTC_SECOND
}

/// The pull request was merged on the (UTC) day of the second `secs`.
pub open spec fn merged_same_day(secs: i64, pr: PullRequest) -> bool {
    chars_start_with(utc_day(secs), utc_day(closed_second(pr) as i64))
}

/// The description of a merged pull request in an annotated point.
pub open spec fn annotation_text(pr: PullRequest) -> Seq<char> {
    "id: "@ + decimal_text(pr.id as nat) + ", title: "@ + pr.title@ + ", author: "@ + debug_text(
        pr.author_email@,
    )
}

/// A point of the endpoint count, annotated with the pull request merged
/// that day, if any.
pub type AnnotatedPoint = (i64, Option<Seq<char>>, Option<Seq<char>>, i32);

/// The rows that the point `point` gives from the pull request `j` of `prs`
/// on: a bare row for each pull request merged another day, up to the first
/// one merged that day, which gives an annotated row and ends the rows.
pub open spec fn point_rows_from(point: (i64, i32), prs: Seq<PullRequest>, j: int) -> Seq<AnnotatedPoint>
    decreases prs.len() - j,
{
    if j < 0 || j >= prs.len() {
        Seq::empty()
    } else if merged_same_day(point.0, prs[j]) {
        seq![(point.0, Some(decimal_text(prs[j].id as nat)), Some(annotation_text(prs[j])), point.1)]
    } else {
        seq![(point.0, None::<Seq<char>>, None::<Seq<char>>, point.1)] + point_rows_from(point, prs, j + 1)
    }
}

/// The rows of all the points, in order.
pub open spec fn annotated_rows(points: Seq<(i64, i32)>, prs: Seq<PullRequest>) -> Seq<AnnotatedPoint>
    decreases points.len(),
{
    if points.len() == 0 {
        Seq::empty()
    } else {
        annotated_rows(points.drop_last(), prs) + point_rows_from(points.last(), prs, 0)
    }
}

/// The plain content of an optional text.
pub open spec fn opt_text(t: Option<String>) -> Option<Seq<char>> {
    match t {
        Some(s) => Some(s@),
        None => None,
    }
}

/// The plain content of annotated rows.
pub open spec fn rows_view(rows: Seq<(i64, Option<String>, Option<String>, i32)>) -> Seq<AnnotatedPoint> {
    rows.map_values(|r: (i64, Option<String>, Option<String>, i32)| (r.0, opt_text(r.1), opt_text(r.2), r.3))
}

proof fn lemma_rows_view_push(rows: Seq<(i64, Option<String>, Option<String>, i32)>, row: (i64, Option<String>, Option<String>, i32))
    ensures
        rows_view(rows.push(row)) == rows_view(rows).push((row.0, opt_text(row.1), opt_text(row.2), row.3)),
{
    assert(rows_view(rows.push(row)) =~= rows_view(rows).push((row.0, opt_text(row.1), opt_text(row.2), row.3)));
}

/// The description of a merged pull request.
fn annotation(pr: &PullRequest) -> (r: String)
    ensures
        r@ == annotation_text(*pr),
{
    let r = String::from_str("id: ").concat(u64_to_decimal(pr.id).as_str()).concat(", title: ").concat(
        pr.title.as_str(),
    ).concat(", author: ").concat(debug_string(pr.author_email.as_str()).as_str());
    proof {
        reveal_strlit("id: ");
        reveal_strlit(", title: ");
        reveal_strlit(", author: ");
    }
    r
}

/// The endpoint count annotated with the merged pull requests: for each
/// point in order, the rows that `point_rows_from` gives (a bare row for each
/// pull request merged another day, up to the first one merged that day,
/// which is annotated with its id and description).
pub fn endpoints_num_with_pull_requests(endpoints_num: &Vec<(i64, i32)>, merged: &Vec<PullRequest>) -> (r: Vec<
    (i64, Option<String>, Option<String>, i32),
>)
    requires
        forall|i: int| 0 <= i < endpoints_num@.len() ==> utc_representable((#[trigger] endpoints_num@[i]).0),
        forall|j: int| 0 <= j < merged@.len() ==> closed_day_known(#[trigger] merged@[j]),
    ensures
        rows_view(r@) == annotated_rows(endpoints_num@, merged@),
{
    let mut days: Vec<String> = Vec::new();
    let mut k: usize = 0;
    while k < merged.len()
        invariant
            k <= merged@.len(),
            days@.len() == k,
            forall|j: int| 0 <= j < merged@.len() ==> closed_day_known(#[trigger] merged@[j]),
            forall|j: int| 0 <= j < k ==> (#[trigger] days@[j])@ == utc_day(closed_second(merged@[j]) as i64),
        decreases merged@.len() - k,
    {
        let closed = match merged[k].closed_epoch {
            Some(c) => c,
            None => 0,
        };
        let secs = match closed.checked_div(1000) {
            Some(q) => q,
            None => 0,
        };
        proof {
            assert(closed_day_known(merged@[k as int]));
            assert(secs == closed_second(merged@[k as int]));
        }
        days.push(utc_day_text(secs));
        k = k + 1;
    }
    let mut out: Vec<(i64, Option<String>, Option<String>, i32)> = Vec::new();
    let mut i: usize = 0;
    while i < endpoints_num.len()
        invariant
            i <= endpoints_num@.len(),
            days@.len() == merged@.len(),
            forall|i: int| 0 <= i < endpoints_num@.len() ==> utc_representable((#[trigger] endpoints_num@[i]).0),
            forall|j: int| 0 <= j < merged@.len() ==> (#[trigger] days@[j])@ == utc_day(closed_second(merged@[j]) as i64),
            rows_view(out@) == annotated_rows(endpoints_num@.subrange(0, i as int), merged@),
        decreases endpoints_num@.len() - i,
    {
        let point = endpoints_num[i];
        let ghost target = annotated_rows(endpoints_num@.subrange(0, i + 1), merged@);
        proof {
            let next = endpoints_num@.subrange(0, i + 1);
            assert(next.drop_last() =~= endpoints_num@.subrange(0, i as int));
            assert(next.last() == point);
            assert(target == rows_view(out@) + point_rows_from(point, merged@, 0));
        }
        let day = utc_day_text(point.0);
        let mut j: usize = 0;
        let mut matched = false;
        while j < merged.len() && !matched
            invariant
                j <= merged@.len(),
                days@.len() == merged@.len(),
                day@ == utc_day(point.0),
                forall|j: int| 0 <= j < merged@.len() ==> (#[trigger] days@[j])@ == utc_day(closed_second(merged@[j]) as i64),
                matched ==> rows_view(out@) == target,
                !matched ==> rows_view(out@) + point_rows_from(point, merged@, j as int) == target,
            decreases 2 * (merged@.len() - j) + (if matched { 0int } else { 1int }),
        {
            let pr = &merged[j];
            if starts_with(day.as_str(), days[j].as_str()) {
                let row = (point.0, Some(u64_to_decimal(pr.id)), Some(annotation(pr)), point.1);
                proof {
                    assert(merged_same_day(point.0, merged@[j as int]));
                    lemma_rows_view_push(out@, row);
                    assert(point_rows_from(point, merged@, j as int) =~= seq![(row.0, opt_text(row.1), opt_text(row.2), row.3)]);
                }
                out.push(row);
                matched = true;
            } else {
                let row = (point.0, None, None, point.1);
                proof {
                    assert(!merged_same_day(point.0, merged@[j as int]));
                    lemma_rows_view_push(out@, row);
                    assert(rows_view(out@.push(row)) + point_rows_from(point, merged@, j + 1) =~= rows_view(out@)
                        + point_rows_from(point, merged@, j as int));
                }
                out.push(row);
                j = j + 1;
            }
        }
        proof {
            if !matched {
                assert(point_rows_from(point, merged@, j as int) =~= Seq::<AnnotatedPoint>::empty());
                assert(rows_view(out@) =~= target);
            }
        }
        i = i + 1;
    }
    proof {
        assert(endpoints_num@.subrange(0, endpoints_num@.len() as int) =~= endpoints_num@);
    }
    out
}

/// The number of paths of each spec.
pub open spec fn paths_total(specs: Seq<SpecItem>) -> nat
    decreases specs.len(),
{
    if specs.len() == 0 {
        0
    } else {
        paths_total(specs.drop_last()) + specs.last().handler.paths_count()
    }
}

/// Every spec can give its number of paths.
pub open spec fn paths_countable(specs: Seq<SpecItem>) -> bool {
    forall|i: int| 0 <= i < specs.len() ==> (#[trigger] specs[i]).handler.pre_get_paths_len()
}

proof fn lemma_paths_total_prefix(specs: Seq<SpecItem>, i: int)
    requires
        0 <= i <= specs.len(),
    ensures
        paths_total(specs.subrange(0, i)) <= paths_total(specs),
    decreases specs.len(),
{
    if i < specs.len() {
        assert(specs.drop_last().subrange(0, i) =~= specs.subrange(0, i));
        lemma_paths_total_prefix(specs.drop_last(), i);
    } else {
        assert(specs.subrange(0, i) =~= specs);
    }
}

/// The total number of paths of all the specs, at `now`, as a 32-bit
/// integer (truncated as `as i32` truncates).
pub fn get_metrics_endpoints_num(all_specs: &Vec<SpecItem>, now: i64) -> (r: (i64, i32))
    requires
        paths_countable(all_specs@),
        paths_total(all_specs@) <= usize::MAX,
    ensures
        r.0 == now,
        r.1 == paths_total(all_specs@) as i32,
{
    let mut total: usize = 0;
    let mut i: usize = 0;
    while i < all_specs.len()
        invariant
            i <= all_specs@.len(),
            paths_countable(all_specs@),
            paths_total(all_specs@) <= usize::MAX,
            total == paths_total(all_specs@.subrange(0, i as int)),
        decreases all_specs@.len() - i,
    {
        let ghost next = all_specs@.subrange(0, i + 1);
        proof {
            assert(next.drop_last() =~= all_specs@.subrange(0, i as int));
            assert(next.last() == all_specs@[i as int]);
            lemma_paths_total_prefix(all_specs@, i + 1);
        }
        let num = all_specs[i].get_paths_len();
        total = total + num;
        i = i + 1;
    }
    proof {
        assert(all_specs@.subrange(0, all_specs@.len() as int) =~= all_specs@);
    }
    (now, total as i32)
}

} // verus!
