use fantasy_engine::contests::{ContestResponse, ContestStore, ContestType};
use fantasy_engine::errors::{ApiResponse, FantasyError};

#[test]
fn ok_envelope_carries_data() {
    let r: ApiResponse<u64> = ApiResponse::ok(42);
    assert!(r.success);
    assert_eq!(r.data, Some(42));
    assert!(r.error.is_none());
}

#[test]
fn failed_envelope_carries_message() {
    let r: ApiResponse<u64> = ApiResponse::fail(FantasyError::ContestFull);
    assert!(!r.success);
    assert!(r.data.is_none());
    assert_eq!(r.error.as_deref(), Some("Contest is full"));
}

#[test]
fn from_result_folds_both_arms() {
    let ok: ApiResponse<u64> = ApiResponse::from_result(Ok(7));
    assert!(ok.success && ok.data == Some(7));
    let err: ApiResponse<u64> = ApiResponse::from_result(Err(FantasyError::InsufficientBalance));
    assert!(!err.success);
    assert_eq!(err.error.as_deref(), Some("Insufficient balance"));
}

#[test]
fn error_messages_match_the_taxonomy() {
    assert_eq!(FantasyError::ContestNotFound.message(), "Contest not found");
    assert_eq!(
        FantasyError::AlreadyJoined.message(),
        "User already joined this contest"
    );
    assert_eq!(
        FantasyError::AlreadyClaimedOrFailed.message(),
        "Reward already claimed or failed"
    );
    assert_eq!(FantasyError::NoEntries.message(), "No entries found for contest");
}

#[test]
fn contest_response_wraps_lookup_results() {
    let mut contests = ContestStore::new();
    let cid = contests.create_contest(
        "Grand".to_string(),
        1,
        10,
        2,
        100,
        ContestType::HeadToHead,
        0,
        0,
    );
    let found = contests.get_contest(cid).cloned();
    let r = ContestResponse::from_result(found.ok_or(FantasyError::ContestNotFound));
    assert!(r.success);
    assert_eq!(r.data.unwrap().name, "Grand");
    let missing = ContestResponse::from_result(Err(FantasyError::ContestNotFound));
    assert!(!missing.success);
    assert_eq!(missing.error.as_deref(), Some("Contest not found"));
}
