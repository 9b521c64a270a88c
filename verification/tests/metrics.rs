use apis_catalog::app::metrics::{
    endpoints_num_with_pull_requests, get_all_metrics, get_metrics_pull_requests_number, pull_request_ages_in_days,
    PullRequest, PullRequests, FIRST_UTC_SECOND, LAST_UTC_SECOND,
};

fn open_pull_requests() -> PullRequests {
    PullRequests {
        size: 2,
        values: vec![
            PullRequest {
                id: 57,
                title: String::from("XXX API for currencies."),
                created_epoch: 1582305198106,
                closed_epoch: None,
                author_email: String::from("..."),
            },
            PullRequest {
                id: 1,
                title: String::from("Marketdata"),
                created_epoch: 1551955373000,
                closed_epoch: None,
                author_email: String::from("..."),
            },
        ],
    }
}

#[test]
fn test_metrics_get_pr_number() {
    let pull_requests = open_pull_requests();

    let metrics = get_metrics_pull_requests_number(&pull_requests, 0);
    assert_eq!(2, metrics.1);
}

#[test]
fn test_metrics_get_pr_ages() {
    let pull_requests = open_pull_requests();
    let dt = chrono::DateTime::parse_from_rfc2822("Sun, 29 Mar 2020 20:36:29 +0000").unwrap();
    let ages = pull_request_ages_in_days(&pull_requests, dt.timestamp() as u64);

    let mut histogram = histogram::Histogram::new();
    for age in &ages {
        histogram.increment(*age).unwrap();
    }

    assert_eq!(37, histogram.percentile(0.0).unwrap());
    assert_eq!(388, histogram.percentile(50.0).unwrap());
    assert_eq!(388, histogram.percentile(100.0).unwrap());
    assert_eq!(213, histogram.mean().unwrap());
}

#[test]
fn pull_request_ages_are_whole_days() {
    let pull_requests = open_pull_requests();
    let ages = pull_request_ages_in_days(&pull_requests, 1585514189);
    assert_eq!(ages, vec![37u64, 388u64]);
}

#[test]
fn unreadable_series_are_reported_empty() {
    let metrics = get_all_metrics(Some(vec![(10, 3)]), None, Some(vec![(10, 7), (20, 9)]), None, None);
    assert_eq!(metrics.pr_num, vec![(10, 3)]);
    assert!(metrics.pr_ages.is_empty());
    assert_eq!(metrics.endpoints_num, vec![(10, 7), (20, 9)]);
    assert!(metrics.zally_violations.is_empty());
    assert!(metrics.endpoints_num_per_audience.is_empty());
}

fn merged(id: u64, title: &str, closed_epoch: i64) -> PullRequest {
    PullRequest {
        id,
        title: String::from(title),
        created_epoch: 0,
        closed_epoch: Some(closed_epoch),
        author_email: String::from("jane@example.com"),
    }
}

// 2020-03-29T20:36:29Z
const MARCH_29: i64 = 1585514189;

#[test]
fn endpoints_point_is_annotated_with_the_pull_request_merged_that_day() {
    let prs = vec![merged(12, "Add quotes", (MARCH_29 - 3600) * 1000)];
    let rows = endpoints_num_with_pull_requests(&vec![(MARCH_29, 42)], &prs);
    assert_eq!(
        rows,
        vec![(
            MARCH_29,
            Some(String::from("12")),
            Some(String::from("id: 12, title: Add quotes, author: \"jane@example.com\"")),
            42
        )]
    );
}

#[test]
fn endpoints_point_gets_a_bare_row_per_pull_request_of_another_day_before_the_match() {
    let prs = vec![
        merged(1, "older", (MARCH_29 - 86400) * 1000),
        merged(2, "same day", MARCH_29 * 1000),
        merged(3, "also same day", MARCH_29 * 1000),
    ];
    let rows = endpoints_num_with_pull_requests(&vec![(MARCH_29, 5)], &prs);
    assert_eq!(rows.len(), 2);
    assert_eq!(rows[0], (MARCH_29, None, None, 5));
    assert_eq!(rows[1].1, Some(String::from("2")));
}

#[test]
fn endpoints_points_without_merged_pull_requests_give_no_rows() {
    let rows = endpoints_num_with_pull_requests(&vec![(MARCH_29, 5), (MARCH_29 + 86400, 6)], &vec![]);
    assert!(rows.is_empty());
}

#[test]
fn endpoints_points_of_other_days_are_all_bare() {
    let prs = vec![merged(1, "a", 0), merged(2, "b", 86_400_000)];
    let rows = endpoints_num_with_pull_requests(&vec![(MARCH_29, 5), (MARCH_29 + 60, 7)], &prs);
    assert_eq!(
        rows,
        vec![(MARCH_29, None, None, 5), (MARCH_29, None, None, 5), (MARCH_29 + 60, None, None, 7), (MARCH_29 + 60, None, None, 7)]
    );
}

#[test]
fn closing_milliseconds_are_rounded_toward_zero() {
    // -1 ms rounds to the second 0, on 1970-01-01 (not on 1969-12-31)
    let rows = endpoints_num_with_pull_requests(&vec![(0, 1)], &vec![merged(9, "epoch", -1)]);
    assert_eq!(rows[0].1, Some(String::from("9")));
    let rows = endpoints_num_with_pull_requests(&vec![(-1, 1)], &vec![merged(9, "epoch", -1)]);
    assert_eq!(rows[0].1, None);
}

#[test]
fn the_first_and_last_representable_days_are_compared() {
    let rows = endpoints_num_with_pull_requests(
        &vec![(FIRST_UTC_SECOND, 1), (LAST_UTC_SECOND, 2)],
        &vec![merged(1, "first", FIRST_UTC_SECOND * 1000), merged(2, "last", LAST_UTC_SECOND * 1000)],
    );
    assert_eq!(rows.len(), 3);
    assert_eq!(rows[0].1, Some(String::from("1")));
    assert_eq!(rows[1], (LAST_UTC_SECOND, None, None, 2));
    assert_eq!(rows[2].1, Some(String::from("2")));
}

#[test]
fn the_representable_seconds_are_exactly_those_of_chrono() {
    assert!(chrono::DateTime::from_timestamp(FIRST_UTC_SECOND, 0).is_some());
    assert!(chrono::DateTime::from_timestamp(FIRST_UTC_SECOND - 1, 0).is_none());
    assert!(chrono::DateTime::from_timestamp(LAST_UTC_SECOND, 0).is_some());
    assert!(chrono::DateTime::from_timestamp(LAST_UTC_SECOND + 1, 0).is_none());
}
