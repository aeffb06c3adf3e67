use fantasy_engine::catalog::{CatalogStore, PlayerPosition};
use fantasy_engine::errors::FantasyError;
use fantasy_engine::fantasy::FantasyTeamStore;

fn catalog_with_players(n: u64, price: u64) -> (CatalogStore, Vec<u64>) {
    let mut catalog = CatalogStore::new();
    let tid = catalog.create_team("Rovers".to_string(), "ROV".to_string());
    let mut ids = Vec::new();
    for k in 0..n {
        ids.push(catalog.create_player(
            format!("player{}", k),
            tid,
            PlayerPosition::AllRounder,
            price,
        ));
    }
    (catalog, ids)
}

#[test]
fn ten_players_fail_roster_size() {
    let (catalog, ids) = catalog_with_players(10, 9);
    let mut teams = FantasyTeamStore::new();
    let r = teams.create_fantasy_team(
        catalog.get_all_players(),
        1,
        "Short XI".to_string(),
        ids[0],
        ids[1],
        ids.clone(),
    );
    assert_eq!(r, Err(FantasyError::RosterSizeInvalid));
}

#[test]
fn twelve_players_fail_roster_size() {
    let (catalog, ids) = catalog_with_players(12, 8);
    let mut teams = FantasyTeamStore::new();
    let r = teams.create_fantasy_team(
        catalog.get_all_players(),
        1,
        "Long XI".to_string(),
        ids[0],
        ids[1],
        ids.clone(),
    );
    assert_eq!(r, Err(FantasyError::RosterSizeInvalid));
}

#[test]
fn captain_outside_roster_is_rejected() {
    let (catalog, ids) = catalog_with_players(11, 8);
    let mut teams = FantasyTeamStore::new();
    let r = teams.create_fantasy_team(
        catalog.get_all_players(),
        1,
        "No Captain".to_string(),
        9_999,
        ids[1],
        ids.clone(),
    );
    assert_eq!(r, Err(FantasyError::CaptainNotInRoster));
    let r2 = teams.create_fantasy_team(
        catalog.get_all_players(),
        1,
        "No Vice".to_string(),
        ids[0],
        9_999,
        ids.clone(),
    );
    assert_eq!(r2, Err(FantasyError::CaptainNotInRoster));
}

#[test]
fn eleven_players_summing_120_break_the_cap() {
    // Eleven players at 11 and 10 tokens: 6 x 11 + 5 x 10 = 116 > 100.
    // The scenario of record: a 120-token roster against a 100 cap.
    let mut catalog = CatalogStore::new();
    let tid = catalog.create_team("Pricey".to_string(), "PRC".to_string());
    let mut ids = Vec::new();
    for k in 0..10 {
        ids.push(catalog.create_player(
            format!("star{}", k),
            tid,
            PlayerPosition::Forward,
            11,
        ));
    }
    ids.push(catalog.create_player("anchor".to_string(), tid, PlayerPosition::Defender, 10));
    assert_eq!(11 * 10 + 10, 120);
    let mut teams = FantasyTeamStore::new();
    let r = teams.create_fantasy_team(
        catalog.get_all_players(),
        1,
        "Galacticos".to_string(),
        ids[0],
        ids[1],
        ids.clone(),
    );
    assert_eq!(r, Err(FantasyError::SalaryCapViolation));
}

#[test]
fn cheap_roster_breaks_the_floor() {
    // Eleven players at 7 tokens sum to 77, below the floor of 80.
    let (catalog, ids) = catalog_with_players(11, 7);
    let mut teams = FantasyTeamStore::new();
    let r = teams.create_fantasy_team(
        catalog.get_all_players(),
        1,
        "Bargain XI".to_string(),
        ids[0],
        ids[1],
        ids.clone(),
    );
    assert_eq!(r, Err(FantasyError::SalaryCapViolation));
}

#[test]
fn valid_team_is_stored_and_indexed() {
    let (catalog, ids) = catalog_with_players(11, 8);
    let mut teams = FantasyTeamStore::new();
    let ft = teams
        .create_fantasy_team(
            catalog.get_all_players(),
            42,
            "Dream XI".to_string(),
            ids[2],
            ids[3],
            ids.clone(),
        )
        .unwrap();
    let stored = teams.get_fantasy_team(ft).unwrap();
    assert_eq!(stored.name, "Dream XI");
    assert_eq!(stored.captain_id, ids[2]);
    assert_eq!(stored.vice_captain_id, ids[3]);
    assert_eq!(stored.players, ids);
    assert_eq!(stored.total_price, 88);
    assert_eq!(stored.total_points, 0);
    let mine = teams.get_user_fantasy_teams(42);
    assert_eq!(mine.len(), 1);
    assert_eq!(mine[0].id, ft);
    assert!(teams.get_user_fantasy_teams(7).is_empty());
}

#[test]
fn unresolved_player_ids_cost_zero() {
    // Ten real players at 9 tokens plus one unknown id: 90 tokens total,
    // inside the cap — the unknown id silently costs nothing.
    let (catalog, mut ids) = catalog_with_players(10, 9);
    ids.push(555_555);
    let mut teams = FantasyTeamStore::new();
    let ft = teams
        .create_fantasy_team(
            catalog.get_all_players(),
            1,
            "Ghost XI".to_string(),
            ids[0],
            555_555,
            ids.clone(),
        )
        .unwrap();
    assert_eq!(teams.get_fantasy_team(ft).unwrap().total_price, 90);
}

#[test]
fn team_ids_count_up_per_user() {
    let (catalog, ids) = catalog_with_players(11, 8);
    let mut teams = FantasyTeamStore::new();
    let a = teams
        .create_fantasy_team(
            catalog.get_all_players(),
            1,
            "First".to_string(),
            ids[0],
            ids[1],
            ids.clone(),
        )
        .unwrap();
    let b = teams
        .create_fantasy_team(
            catalog.get_all_players(),
            1,
            "Second".to_string(),
            ids[0],
            ids[1],
            ids.clone(),
        )
        .unwrap();
    assert_eq!(b, a + 1);
    let mine = teams.get_user_fantasy_teams(1);
    assert_eq!(mine.len(), 2);
    assert_eq!(mine[0].id, a);
    assert_eq!(mine[1].id, b);
}
