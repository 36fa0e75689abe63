use prefix_scan::entries::{Entry, ListingOutcome, is_excluded, plan_scan};
use prefix_scan::error::ScanError;
use prefix_scan::prefix::{Prefix, meta_subdir_name};
use prefix_scan::scan::{Disposition, ScanState, ScanVerdict, TaskOutcome, run_scan};

fn entry(name: &str) -> Entry {
    Entry { name: name.as_bytes().to_vec() }
}

/// Runs a whole scan the way the driver does: plan, then dispatch each
/// eligible entry, harvesting a completion whenever the pool is at
/// capacity, and drain at the end. Completions arrive in dispatch order.
/// Returns the scan result and the names that were dispatched.
fn drive(
    limit: Option<usize>,
    listing: ListingOutcome,
    outcome_for: &dyn Fn(&[u8]) -> TaskOutcome<String>,
) -> (Result<Vec<String>, ScanError>, Vec<Vec<u8>>) {
    let mut dispatched: Vec<Vec<u8>> = Vec::new();
    let eligible = match plan_scan(listing) {
        Ok(v) => v,
        Err(e) => return (Err(e), dispatched),
    };
    let mut state = ScanState::<String>::new(limit);
    let mut pool: Vec<Vec<u8>> = Vec::new();
    for e in eligible {
        if state.at_capacity() {
            let name = pool.remove(0);
            match state.apply_outcome(outcome_for(&name)) {
                Disposition::Continue => {}
                Disposition::Fail(err) => return (Err(err), dispatched),
                Disposition::SoftStop => return (Ok(state.into_records()), dispatched),
                Disposition::Abort => panic!("worker fault"),
            }
        }
        dispatched.push(e.name.clone());
        pool.push(e.name);
        state.note_dispatch();
    }
    while !pool.is_empty() {
        let name = pool.remove(0);
        match state.apply_outcome(outcome_for(&name)) {
            Disposition::Continue => {}
            Disposition::Fail(err) => return (Err(err), dispatched),
            Disposition::SoftStop => return (Ok(state.into_records()), dispatched),
            Disposition::Abort => panic!("worker fault"),
        }
    }
    (Ok(state.into_records()), dispatched)
}

fn parse_all(name: &[u8]) -> TaskOutcome<String> {
    TaskOutcome::Parsed(String::from_utf8(name.to_vec()).unwrap())
}

#[test]
fn excluded_suffix_matches_sidecar_files() {
    assert!(is_excluded(&b"pkgA-1.0.json".to_vec()));
    assert!(is_excluded(&b".json".to_vec()));
    assert!(is_excluded(&b"a.b.json".to_vec()));
}

#[test]
fn excluded_suffix_leaves_package_entries_alone() {
    assert!(!is_excluded(&b"pkgA-1.0".to_vec()));
    assert!(!is_excluded(&b"".to_vec()));
    assert!(!is_excluded(&b"json".to_vec()));
    assert!(!is_excluded(&b"ajson".to_vec()));
    assert!(!is_excluded(&b"pkgA-1.0.JSON".to_vec()));
    assert!(!is_excluded(&b"pkgA-1.0.json.bak".to_vec()));
}

#[test]
fn two_packages_and_a_sidecar_with_limit_one() {
    let listing = ListingOutcome::Listed {
        entries: vec![entry("pkgA-1.0"), entry("pkgB-2.0"), entry("pkgA-1.0.json")],
    };
    let (result, dispatched) = drive(Some(1), listing, &parse_all);
    let records = result.unwrap();
    assert_eq!(records, vec!["pkgA-1.0".to_string(), "pkgB-2.0".to_string()]);
    assert_eq!(dispatched.len(), 2);
    assert!(!dispatched.contains(&b"pkgA-1.0.json".to_vec()));
}

#[test]
fn missing_metadata_directory_yields_empty_collection() {
    let (result, dispatched) = drive(Some(4), ListingOutcome::Missing, &parse_all);
    assert_eq!(result.unwrap(), Vec::<String>::new());
    assert!(dispatched.is_empty());
}

#[test]
fn listing_failure_is_fatal() {
    let listing = ListingOutcome::Failed { cause: "permission denied".to_string() };
    let (result, dispatched) = drive(None, listing, &parse_all);
    match result {
        Err(ScanError::Listing { cause }) => assert_eq!(cause, "permission denied"),
        other => panic!("expected a listing error, got {:?}", other.is_ok()),
    }
    assert!(dispatched.is_empty());
}

#[test]
fn malformed_entry_fails_the_scan() {
    let listing = ListingOutcome::Listed { entries: vec![entry("bad-1.0")] };
    let fail_bad = |name: &[u8]| -> TaskOutcome<String> {
        if name == b"bad-1.0" {
            TaskOutcome::ParseFailed {
                path: "bad-1.0".to_string(),
                cause: "malformed".to_string(),
            }
        } else {
            parse_all(name)
        }
    };
    let (result, _) = drive(None, listing, &fail_bad);
    match result {
        Err(ScanError::Parse { path, cause }) => {
            assert_eq!(path, "bad-1.0");
            assert_eq!(cause, "malformed");
        }
        _ => panic!("expected a parse error"),
    }
}

#[test]
fn parse_failure_is_fatal_wherever_it_falls() {
    let names = ["p1", "p2", "p3", "p4"];
    for bad in names {
        for limit in [1usize, 2, 4] {
            let listing = ListingOutcome::Listed {
                entries: names.iter().map(|n| entry(n)).collect(),
            };
            let fail_one = move |name: &[u8]| -> TaskOutcome<String> {
                if name == bad.as_bytes() {
                    TaskOutcome::ParseFailed {
                        path: String::from_utf8(name.to_vec()).unwrap(),
                        cause: "malformed".to_string(),
                    }
                } else {
                    parse_all(name)
                }
            };
            let (result, _) = drive(Some(limit), listing, &fail_one);
            match result {
                Err(ScanError::Parse { path, .. }) => assert_eq!(path, bad),
                _ => panic!("expected a parse error for {bad} at limit {limit}"),
            }
        }
    }
}

#[test]
fn cancellation_soft_stops_with_collected_records() {
    let listing = ListingOutcome::Listed {
        entries: vec![entry("p1"), entry("p2"), entry("p3")],
    };
    let cancel_third = |name: &[u8]| -> TaskOutcome<String> {
        if name == b"p3" { TaskOutcome::Cancelled } else { parse_all(name) }
    };
    let (result, dispatched) = drive(Some(1), listing, &cancel_third);
    assert_eq!(result.unwrap(), vec!["p1".to_string(), "p2".to_string()]);
    assert_eq!(dispatched.len(), 3);
}

#[test]
fn cancellation_before_any_record_yields_empty_success() {
    let listing = ListingOutcome::Listed { entries: vec![entry("p1"), entry("p2")] };
    let cancel_all = |_: &[u8]| -> TaskOutcome<String> { TaskOutcome::Cancelled };
    let (result, _) = drive(Some(1), listing, &cancel_all);
    assert_eq!(result.unwrap(), Vec::<String>::new());
}

#[test]
fn worker_fault_demands_propagation() {
    let mut state = ScanState::<String>::new(Some(1));
    state.note_dispatch();
    let d = state.apply_outcome(TaskOutcome::Fault);
    assert!(matches!(d, Disposition::Abort));
    assert_eq!(state.collected_count(), 0);
}

#[test]
fn completeness_whatever_the_limit() {
    let names = ["a-1", "b-2", "c-3", "d-4", "e-5"];
    for limit in [1usize, 2, 3, 5, 7] {
        let listing = ListingOutcome::Listed {
            entries: names.iter().map(|n| entry(n)).collect(),
        };
        let (result, dispatched) = drive(Some(limit), listing, &parse_all);
        let mut records = result.unwrap();
        records.sort();
        assert_eq!(records.len(), 5);
        assert_eq!(records, names.iter().map(|n| n.to_string()).collect::<Vec<_>>());
        assert_eq!(dispatched.len(), 5);
    }
}

#[test]
fn listing_order_does_not_change_the_outcome() {
    let forward = vec![entry("a-1"), entry("b-2"), entry("c-3.json"), entry("d-4")];
    let backward = vec![entry("d-4"), entry("c-3.json"), entry("b-2"), entry("a-1")];
    let (r1, _) = drive(Some(2), ListingOutcome::Listed { entries: forward }, &parse_all);
    let (r2, _) = drive(Some(2), ListingOutcome::Listed { entries: backward }, &parse_all);
    let mut v1 = r1.unwrap();
    let mut v2 = r2.unwrap();
    v1.sort();
    v2.sort();
    assert_eq!(v1, v2);
}

#[test]
fn pool_never_exceeds_the_limit() {
    let mut state = ScanState::<String>::new(Some(2));
    assert_eq!(state.pending_count(), 0);
    assert!(!state.at_capacity());
    state.note_dispatch();
    assert_eq!(state.pending_count(), 1);
    assert!(!state.at_capacity());
    state.note_dispatch();
    assert_eq!(state.pending_count(), 2);
    assert!(state.at_capacity());
    let d = state.apply_outcome(TaskOutcome::Parsed("r".to_string()));
    assert!(matches!(d, Disposition::Continue));
    assert_eq!(state.pending_count(), 1);
    assert!(!state.at_capacity());
}

#[test]
fn default_limit_allows_a_hundred_tasks() {
    let mut state = ScanState::<String>::new(None);
    for i in 0..100usize {
        assert!(!state.at_capacity(), "pool filled early at {i}");
        state.note_dispatch();
    }
    assert!(state.at_capacity());
}

#[test]
fn records_come_out_in_completion_order() {
    let mut state = ScanState::<String>::new(Some(3));
    state.note_dispatch();
    state.note_dispatch();
    state.note_dispatch();
    state.apply_outcome(TaskOutcome::Parsed("second".to_string()));
    state.apply_outcome(TaskOutcome::Parsed("third".to_string()));
    state.apply_outcome(TaskOutcome::Parsed("first".to_string()));
    assert_eq!(state.collected_count(), 3);
    let records = state.into_records();
    assert_eq!(
        records,
        vec!["second".to_string(), "third".to_string(), "first".to_string()]
    );
}

#[test]
fn plan_keeps_listing_order_of_eligible_entries() {
    let listing = ListingOutcome::Listed {
        entries: vec![entry("z-9"), entry("a-0.json"), entry("a-0"), entry("m-5")],
    };
    let kept = plan_scan(listing).unwrap();
    let names: Vec<&str> = kept
        .iter()
        .map(|e| std::str::from_utf8(&e.name).unwrap())
        .collect();
    assert_eq!(names, vec!["z-9", "a-0", "m-5"]);
}

#[test]
fn run_scan_completes_with_one_record_per_eligible_entry() {
    let listing = ListingOutcome::Listed {
        entries: vec![entry("pkgA-1.0"), entry("pkgB-2.0"), entry("pkgA-1.0.json")],
    };
    let outcomes = vec![
        TaskOutcome::Parsed("pkgA-1.0".to_string()),
        TaskOutcome::Parsed("pkgB-2.0".to_string()),
    ];
    match run_scan(listing, Some(1), outcomes) {
        ScanVerdict::Completed(records) => {
            assert_eq!(records, vec!["pkgA-1.0".to_string(), "pkgB-2.0".to_string()]);
        }
        _ => panic!("expected a completed scan"),
    }
}

#[test]
fn run_scan_tolerates_a_missing_directory() {
    match run_scan::<String>(ListingOutcome::Missing, None, Vec::new()) {
        ScanVerdict::Completed(records) => assert!(records.is_empty()),
        _ => panic!("expected a completed scan"),
    }
}

#[test]
fn run_scan_fails_on_a_listing_error() {
    let listing = ListingOutcome::Failed { cause: "denied".to_string() };
    match run_scan::<String>(listing, None, Vec::new()) {
        ScanVerdict::Failed(ScanError::Listing { cause }) => assert_eq!(cause, "denied"),
        _ => panic!("expected a listing failure"),
    }
}

#[test]
fn run_scan_fails_fast_on_a_parse_error() {
    let listing = ListingOutcome::Listed {
        entries: vec![entry("good-1"), entry("bad-2"), entry("good-3")],
    };
    let outcomes = vec![
        TaskOutcome::Parsed("good-1".to_string()),
        TaskOutcome::ParseFailed { path: "bad-2".to_string(), cause: "malformed".to_string() },
        TaskOutcome::Parsed("good-3".to_string()),
    ];
    match run_scan(listing, Some(2), outcomes) {
        ScanVerdict::Failed(ScanError::Parse { path, cause }) => {
            assert_eq!(path, "bad-2");
            assert_eq!(cause, "malformed");
        }
        _ => panic!("expected a parse failure"),
    }
}

#[test]
fn run_scan_soft_stops_on_cancellation() {
    let listing = ListingOutcome::Listed {
        entries: vec![entry("p1"), entry("p2"), entry("p3")],
    };
    let outcomes = vec![
        TaskOutcome::Parsed("p1".to_string()),
        TaskOutcome::Cancelled,
        TaskOutcome::Parsed("p3".to_string()),
    ];
    match run_scan(listing, Some(1), outcomes) {
        ScanVerdict::SoftStopped(records) => assert_eq!(records, vec!["p1".to_string()]),
        _ => panic!("expected a soft stop"),
    }
}

#[test]
fn run_scan_aborts_on_a_worker_fault() {
    let listing = ListingOutcome::Listed { entries: vec![entry("p1"), entry("p2")] };
    let outcomes = vec![TaskOutcome::Parsed("p1".to_string()), TaskOutcome::Fault];
    assert!(matches!(
        run_scan(listing, Some(1), outcomes),
        ScanVerdict::Aborted
    ));
}

#[test]
fn error_describe_reports_the_cause() {
    let listing = ScanError::Listing { cause: "denied".to_string() };
    assert_eq!(listing.describe(), "denied");
    let parse = ScanError::Parse { path: "p".to_string(), cause: "bad".to_string() };
    assert_eq!(parse.describe(), "bad");
}

#[test]
fn prefix_stores_its_path() {
    let p = Prefix::new("/opt/env".to_string());
    assert_eq!(p.root(), "/opt/env");
}

#[test]
fn metadata_subdirectory_is_conda_meta() {
    assert_eq!(meta_subdir_name(), "conda-meta");
}
