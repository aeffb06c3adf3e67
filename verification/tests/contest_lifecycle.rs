use fantasy_engine::contests::{ContestStatus, ContestStore, ContestType};
use fantasy_engine::errors::FantasyError;
use fantasy_engine::fantasy::FantasyTeamStore;
use fantasy_engine::users::UserStore;

fn store_with_contest(total_spots: u32, entry_fee: u64) -> (ContestStore, u64) {
    let mut contests = ContestStore::new();
    let cid = contests.create_contest(
        "Grand League".to_string(),
        7,
        entry_fee,
        total_spots,
        500,
        ContestType::MultiPlayer,
        1_000,
        2_000,
    );
    (contests, cid)
}

fn users_with(ids: &[u64]) -> UserStore {
    let mut users = UserStore::new();
    for &id in ids {
        users
            .register_user(id, format!("user{}", id), None, None, 10)
            .unwrap();
    }
    users
}

#[test]
fn create_contest_starts_open_and_empty() {
    let (contests, cid) = store_with_contest(4, 25);
    let c = contests.get_contest(cid).unwrap();
    assert_eq!(c.filled_spots, 0);
    assert_eq!(c.total_spots, 4);
    assert_eq!(c.status, ContestStatus::Open);
    assert_eq!(c.entry_fee, 25);
    assert_eq!(contests.get_contest_count(), 1);
}

#[test]
fn join_unknown_contest_fails() {
    let (mut contests, _) = store_with_contest(2, 10);
    let mut users = users_with(&[1]);
    let teams = FantasyTeamStore::new();
    let r = contests.join_contest(&mut users, &teams, 1, 999, 0, 50);
    assert_eq!(r, Err(FantasyError::ContestNotFound));
}

#[test]
fn join_non_open_contest_fails() {
    let (mut contests, cid) = store_with_contest(2, 10);
    let mut users = users_with(&[1]);
    let teams = FantasyTeamStore::new();
    contests
        .update_contest_status(cid, ContestStatus::Live)
        .unwrap();
    let r = contests.join_contest(&mut users, &teams, 1, cid, 0, 50);
    assert_eq!(r, Err(FantasyError::ContestNotOpen));
}

#[test]
fn join_without_balance_fails_after_capacity_check() {
    let (mut contests, cid) = store_with_contest(2, 5_000);
    let mut users = users_with(&[1]);
    let teams = FantasyTeamStore::new();
    // Registered balance is 1000, below the 5000 fee.
    let r = contests.join_contest(&mut users, &teams, 1, cid, 0, 50);
    assert_eq!(r, Err(FantasyError::InsufficientBalance));
    // The failed join reserved nothing.
    assert_eq!(contests.get_contest(cid).unwrap().filled_spots, 0);
}

#[test]
fn join_debits_entry_fee() {
    let (mut contests, cid) = store_with_contest(3, 40);
    let mut users = users_with(&[1]);
    let teams = FantasyTeamStore::new();
    contests
        .join_contest(&mut users, &teams, 1, cid, 0, 50)
        .unwrap();
    assert_eq!(users.get_user_profile(1).unwrap().balance, 960);
}

#[test]
fn second_join_by_same_identity_is_rejected() {
    let (mut contests, cid) = store_with_contest(5, 10);
    let mut users = users_with(&[1]);
    let teams = FantasyTeamStore::new();
    contests
        .join_contest(&mut users, &teams, 1, cid, 0, 50)
        .unwrap();
    let r = contests.join_contest(&mut users, &teams, 1, cid, 0, 51);
    assert_eq!(r, Err(FantasyError::AlreadyJoined));
    // Rejection, not merging: still exactly one entry, one debit.
    assert_eq!(contests.get_entry_count(), 1);
    assert_eq!(users.get_user_profile(1).unwrap().balance, 990);
}

#[test]
fn filling_last_spot_flips_status_to_full() {
    let (mut contests, cid) = store_with_contest(2, 10);
    let mut users = users_with(&[1, 2]);
    let teams = FantasyTeamStore::new();
    contests
        .join_contest(&mut users, &teams, 1, cid, 0, 50)
        .unwrap();
    let mid = contests.get_contest(cid).unwrap();
    assert_eq!(mid.filled_spots, 1);
    assert_eq!(mid.status, ContestStatus::Open);
    contests
        .join_contest(&mut users, &teams, 2, cid, 0, 51)
        .unwrap();
    let full = contests.get_contest(cid).unwrap();
    assert_eq!(full.filled_spots, 2);
    assert_eq!(full.total_spots, 2);
    assert_eq!(full.status, ContestStatus::Full);
}

#[test]
fn round_trip_two_spots_third_join_fails_contest_full() {
    let (mut contests, cid) = store_with_contest(2, 10);
    let mut users = users_with(&[1, 2, 3]);
    let teams = FantasyTeamStore::new();
    assert!(contests.join_contest(&mut users, &teams, 1, cid, 0, 50).is_ok());
    assert!(contests.join_contest(&mut users, &teams, 2, cid, 0, 51).is_ok());
    let r = contests.join_contest(&mut users, &teams, 3, cid, 0, 52);
    assert_eq!(r, Err(FantasyError::ContestFull));
    let c = contests.get_contest(cid).unwrap();
    assert!(c.filled_spots <= c.total_spots);
    assert_eq!(c.filled_spots, 2);
    // The rejected third identity paid nothing.
    assert_eq!(users.get_user_profile(3).unwrap().balance, 1000);
}

#[test]
fn finalize_without_entries_fails() {
    let (mut contests, cid) = store_with_contest(2, 10);
    assert_eq!(contests.finalize_contest(cid), Err(FantasyError::NoEntries));
    assert_eq!(contests.finalize_contest(999), Err(FantasyError::NoEntries));
}

#[test]
fn finalize_ranks_descending_one_based() {
    let (mut contests, cid) = store_with_contest(5, 10);
    let mut users = users_with(&[1, 2, 3]);
    let teams = FantasyTeamStore::new();
    let e1 = contests.join_contest(&mut users, &teams, 1, cid, 0, 50).unwrap();
    let e2 = contests.join_contest(&mut users, &teams, 2, cid, 0, 51).unwrap();
    let e3 = contests.join_contest(&mut users, &teams, 3, cid, 0, 52).unwrap();
    // Entry points are hundredths of a point: 30, 50, and 10 points.
    contests.update_entry_points(e1, 3000).unwrap();
    contests.update_entry_points(e2, 5000).unwrap();
    contests.update_entry_points(e3, 1000).unwrap();
    let ranked = contests.finalize_contest(cid).unwrap();
    assert_eq!(ranked, vec![e2, e1, e3]);
    let entries = contests.get_contest_entries(cid);
    let rank_of = |eid: u64| {
        entries
            .iter()
            .find(|e| e.id == eid)
            .map(|e| e.rank)
            .unwrap()
    };
    assert_eq!(rank_of(e1), Some(2));
    assert_eq!(rank_of(e2), Some(1));
    assert_eq!(rank_of(e3), Some(3));
    assert_eq!(
        contests.get_contest(cid).unwrap().status,
        ContestStatus::Completed
    );
}

#[test]
fn finalize_breaks_ties_by_join_order() {
    let (mut contests, cid) = store_with_contest(5, 10);
    let mut users = users_with(&[1, 2, 3]);
    let teams = FantasyTeamStore::new();
    let e1 = contests.join_contest(&mut users, &teams, 1, cid, 0, 50).unwrap();
    let e2 = contests.join_contest(&mut users, &teams, 2, cid, 0, 51).unwrap();
    let e3 = contests.join_contest(&mut users, &teams, 3, cid, 0, 52).unwrap();
    contests.update_entry_points(e1, 2000).unwrap();
    contests.update_entry_points(e2, 9000).unwrap();
    contests.update_entry_points(e3, 2000).unwrap();
    // e1 and e3 tie; e1 joined earlier and stays ahead.
    let ranked = contests.finalize_contest(cid).unwrap();
    assert_eq!(ranked, vec![e2, e1, e3]);
}

#[test]
fn entries_and_indices_stay_consistent() {
    let (mut contests, cid) = store_with_contest(3, 10);
    let mut users = users_with(&[1, 2]);
    let teams = FantasyTeamStore::new();
    let e1 = contests.join_contest(&mut users, &teams, 1, cid, 0, 50).unwrap();
    let e2 = contests.join_contest(&mut users, &teams, 2, cid, 0, 51).unwrap();
    let entries = contests.get_contest_entries(cid);
    assert_eq!(entries.len(), 2);
    assert_eq!(entries[0].id, e1);
    assert_eq!(entries[1].id, e2);
    assert_eq!(entries[0].points, 0);
    assert_eq!(entries[0].rank, None);
    let mine = contests.get_user_contest_entries(1);
    assert_eq!(mine.len(), 1);
    assert_eq!(mine[0].id, e1);
    assert_eq!(mine[0].contest_id, cid);
}

#[test]
fn join_embeds_team_snapshot() {
    let (mut contests, cid) = store_with_contest(3, 10);
    let mut users = users_with(&[1]);
    let mut teams = FantasyTeamStore::new();
    let mut catalog = fantasy_engine::catalog::CatalogStore::new();
    let tid = catalog.create_team("Strikers".to_string(), "STR".to_string());
    let mut ids = Vec::new();
    for k in 0..11 {
        ids.push(catalog.create_player(
            format!("p{}", k),
            tid,
            fantasy_engine::catalog::PlayerPosition::Batsman,
            8,
        ));
    }
    let ft = teams
        .create_fantasy_team(
            catalog.get_all_players(),
            1,
            "Dream XI".to_string(),
            ids[0],
            ids[1],
            ids.clone(),
        )
        .unwrap();
    contests
        .join_contest(&mut users, &teams, 1, cid, ft, 50)
        .unwrap();
    let entries = contests.get_contest_entries(cid);
    assert_eq!(entries[0].team.id, ft);
    assert_eq!(entries[0].team.name, "Dream XI");
    assert_eq!(entries[0].team.players, ids);
    assert_eq!(entries[0].team.total_price, 88);
}

#[test]
fn contest_filters_by_match_and_status() {
    let mut contests = ContestStore::new();
    let a = contests.create_contest(
        "A".to_string(),
        1,
        5,
        2,
        10,
        ContestType::HeadToHead,
        0,
        0,
    );
    let b = contests.create_contest(
        "B".to_string(),
        2,
        5,
        2,
        10,
        ContestType::WinnerTakesAll,
        0,
        0,
    );
    contests
        .update_contest_status(b, ContestStatus::Cancelled)
        .unwrap();
    let for_match_1: Vec<u64> = contests
        .get_contests_by_match(1)
        .iter()
        .map(|c| c.id)
        .collect();
    assert_eq!(for_match_1, vec![a]);
    let open: Vec<u64> = contests.get_open_contests().iter().map(|c| c.id).collect();
    assert_eq!(open, vec![a]);
}

#[test]
fn update_points_of_unknown_entry_fails() {
    let (mut contests, _) = store_with_contest(2, 10);
    assert_eq!(
        contests.update_entry_points(999, 100),
        Err(FantasyError::EntryNotFound)
    );
}

#[test]
fn refinalizing_after_new_scores_reranks() {
    // Finalization is not idempotent against changed scores: a second call
    // re-sorts and re-ranks, which callers may use as a correction.
    let (mut contests, cid) = store_with_contest(5, 10);
    let mut users = users_with(&[1, 2]);
    let teams = FantasyTeamStore::new();
    let e1 = contests.join_contest(&mut users, &teams, 1, cid, 0, 50).unwrap();
    let e2 = contests.join_contest(&mut users, &teams, 2, cid, 0, 51).unwrap();
    contests.update_entry_points(e1, 100).unwrap();
    contests.update_entry_points(e2, 200).unwrap();
    assert_eq!(contests.finalize_contest(cid).unwrap(), vec![e2, e1]);
    contests.update_entry_points(e1, 900).unwrap();
    assert_eq!(contests.finalize_contest(cid).unwrap(), vec![e1, e2]);
    let entries = contests.get_contest_entries(cid);
    let rank_of = |eid: u64| entries.iter().find(|e| e.id == eid).map(|e| e.rank).unwrap();
    assert_eq!(rank_of(e1), Some(1));
    assert_eq!(rank_of(e2), Some(2));
}
