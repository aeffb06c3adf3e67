use fantasy_engine::catalog::{CatalogStore, MatchScore, MatchStatus, PlayerPosition, Sport, Team, TournamentStatus};
use fantasy_engine::errors::FantasyError;
use fantasy_engine::scoring::ScoringStore;
use fantasy_engine::users::{KYCStatus, NotificationType, UserStore, STARTING_BALANCE};

#[test]
fn registration_grants_starting_balance() {
    let mut users = UserStore::new();
    users
        .register_user(1, "alice".to_string(), Some("a@example.com".to_string()), None, 5)
        .unwrap();
    let p = users.get_user_profile(1).unwrap();
    assert_eq!(p.balance, STARTING_BALANCE);
    assert_eq!(p.balance, 1000);
    assert_eq!(p.username, "alice");
    assert!(matches!(p.kyc_status, KYCStatus::Pending));
    assert_eq!(p.created_at, 5);
    assert_eq!(users.get_user_count(), 1);
}

#[test]
fn duplicate_identity_and_username_are_rejected() {
    let mut users = UserStore::new();
    users.register_user(1, "alice".to_string(), None, None, 5).unwrap();
    assert_eq!(
        users.register_user(1, "other".to_string(), None, None, 6),
        Err(FantasyError::UserAlreadyRegistered)
    );
    assert_eq!(
        users.register_user(2, "alice".to_string(), None, None, 7),
        Err(FantasyError::UsernameTaken)
    );
    assert_eq!(users.get_user_count(), 1);
}

#[test]
fn profile_updates_replace_only_given_fields() {
    let mut users = UserStore::new();
    users
        .register_user(1, "alice".to_string(), Some("old@example.com".to_string()), None, 5)
        .unwrap();
    users
        .update_user_profile(1, None, Some("555".to_string()), 9)
        .unwrap();
    let p = users.get_user_profile(1).unwrap();
    assert_eq!(p.email.as_deref(), Some("old@example.com"));
    assert_eq!(p.phone.as_deref(), Some("555"));
    assert_eq!(p.updated_at, 9);
    assert_eq!(
        users.update_user_profile(2, None, None, 9),
        Err(FantasyError::UserNotFound)
    );
}

#[test]
fn kyc_status_can_be_set() {
    let mut users = UserStore::new();
    users.register_user(1, "alice".to_string(), None, None, 5).unwrap();
    users.update_kyc_status(1, KYCStatus::Verified, 8).unwrap();
    assert!(matches!(
        users.get_user_profile(1).unwrap().kyc_status,
        KYCStatus::Verified
    ));
}

#[test]
fn balances_add_and_deduct_exactly() {
    let mut users = UserStore::new();
    users.register_user(1, "alice".to_string(), None, None, 5).unwrap();
    users.add_balance(1, 500, 6).unwrap();
    assert_eq!(users.get_user_profile(1).unwrap().balance, 1500);
    users.deduct_balance(1, 700, 7).unwrap();
    assert_eq!(users.get_user_profile(1).unwrap().balance, 800);
    assert_eq!(
        users.deduct_balance(1, 801, 8),
        Err(FantasyError::InsufficientBalance)
    );
    assert_eq!(users.get_user_profile(1).unwrap().balance, 800);
    assert_eq!(users.add_balance(9, 1, 9), Err(FantasyError::UserNotFound));
}

#[test]
fn notifications_deliver_and_mark_read() {
    let mut users = UserStore::new();
    let n1 = users.create_notification(
        1,
        "Won".to_string(),
        "You placed first".to_string(),
        NotificationType::PrizeWon,
        20,
    );
    users.create_notification(
        2,
        "Reminder".to_string(),
        "Contest starts soon".to_string(),
        NotificationType::ContestReminder,
        21,
    );
    let mine = users.get_user_notifications(1);
    assert_eq!(mine.len(), 1);
    assert_eq!(mine[0].title, "Won");
    assert!(!mine[0].read);
    users.mark_notification_read(n1).unwrap();
    assert!(users.get_user_notifications(1)[0].read);
    assert_eq!(
        users.mark_notification_read(99),
        Err(FantasyError::NotificationNotFound)
    );
}

#[test]
fn tournament_lifecycle_and_filters() {
    let mut catalog = CatalogStore::new();
    let t1 = catalog.create_tournament("Cup".to_string(), Sport::Cricket, 100, 200);
    let t2 = catalog.create_tournament("League".to_string(), Sport::Football, 100, 300);
    assert_eq!(catalog.get_tournament_count(), 2);
    assert_eq!(catalog.get_tournament(t1).unwrap().name, "Cup");
    assert!(catalog.get_tournament(99).is_none());
    catalog
        .update_tournament_status(t2, TournamentStatus::Live)
        .unwrap();
    let live: Vec<u64> = catalog.get_live_tournaments().iter().map(|t| t.id).collect();
    assert_eq!(live, vec![t2]);
    let cricket: Vec<u64> = catalog
        .get_tournaments_by_sport(Sport::Cricket)
        .iter()
        .map(|t| t.id)
        .collect();
    assert_eq!(cricket, vec![t1]);
}

#[test]
fn players_join_their_team_roster() {
    let mut catalog = CatalogStore::new();
    let tid = catalog.create_team("Strikers".to_string(), "STR".to_string());
    let p1 = catalog.create_player("Ada".to_string(), tid, PlayerPosition::Batsman, 9);
    let p2 = catalog.create_player("Grace".to_string(), tid, PlayerPosition::Bowler, 10);
    let team = catalog.get_team(tid).unwrap();
    assert_eq!(team.players.len(), 2);
    assert_eq!(team.players[0].id, p1);
    assert_eq!(team.players[1].name, "Grace");
    let by_team = catalog.get_players_by_team(tid);
    assert_eq!(by_team.len(), 2);
    let bowlers = catalog.get_players_by_position(PlayerPosition::Bowler);
    assert_eq!(bowlers.len(), 1);
    assert_eq!(bowlers[0].id, p2);
    assert_eq!(catalog.get_all_players().len(), 2);
}

#[test]
fn player_points_and_playing_status_update() {
    let mut catalog = CatalogStore::new();
    let tid = catalog.create_team("Strikers".to_string(), "STR".to_string());
    let p = catalog.create_player("Ada".to_string(), tid, PlayerPosition::Batsman, 9);
    catalog.update_player_points(p, 123).unwrap();
    catalog.update_player_playing_status(p, true).unwrap();
    let stored = catalog.get_player(p).unwrap();
    assert_eq!(stored.points, 123);
    assert!(stored.is_playing);
    assert_eq!(
        catalog.update_player_points(99, 1),
        Err(FantasyError::PlayerNotFound)
    );
}

#[test]
fn matches_schedule_inside_tournaments() {
    let mut catalog = CatalogStore::new();
    let t = catalog.create_tournament("Cup".to_string(), Sport::Cricket, 100, 200);
    let a = catalog.create_team("A".to_string(), "A".to_string());
    let b = catalog.create_team("B".to_string(), "B".to_string());
    let m = catalog.create_match(t, a, b, 150);
    assert_eq!(catalog.get_match_count(), 1);
    assert_eq!(catalog.get_match(m).unwrap().status, MatchStatus::Scheduled);
    assert_eq!(catalog.get_tournament(t).unwrap().matches.len(), 1);
    let upcoming: Vec<u64> = catalog.get_upcoming_matches().iter().map(|x| x.id).collect();
    assert_eq!(upcoming, vec![m]);
    catalog.update_match_status(m, MatchStatus::Live).unwrap();
    let live: Vec<u64> = catalog.get_live_matches().iter().map(|x| x.id).collect();
    assert_eq!(live, vec![m]);
    let of_t: Vec<u64> = catalog
        .get_matches_by_tournament(t)
        .iter()
        .map(|x| x.id)
        .collect();
    assert_eq!(of_t, vec![m]);
}

#[test]
fn match_scorelines_attach_and_store() {
    let mut catalog = CatalogStore::new();
    let t = catalog.create_tournament("Cup".to_string(), Sport::Cricket, 100, 200);
    let m = catalog.create_match(t, 0, 1, 150);
    let score = MatchScore {
        team1_score: "187/6".to_string(),
        team2_score: "149 all out".to_string(),
        team1_overs: Some(200),
        team2_overs: Some(184),
    };
    catalog
        .update_match_score(
            m,
            MatchScore {
                team1_score: score.team1_score.clone(),
                team2_score: score.team2_score.clone(),
                team1_overs: score.team1_overs,
                team2_overs: score.team2_overs,
            },
        )
        .unwrap();
    assert_eq!(
        catalog.get_match(m).unwrap().score.as_ref().unwrap().team1_score,
        "187/6"
    );
    let mut scoring = ScoringStore::new();
    scoring.update_match_score_data(m, score);
    assert_eq!(scoring.get_match_score(m).unwrap().team2_score, "149 all out");
    assert!(scoring.get_match_score(999).is_none());
}

#[test]
fn teams_enroll_into_tournaments() {
    let mut catalog = CatalogStore::new();
    let t = catalog.create_tournament("Cup".to_string(), Sport::Cricket, 100, 200);
    catalog
        .add_team_to_tournament(
            t,
            Team {
                id: 77,
                name: "Guests".to_string(),
                short_name: "GST".to_string(),
                players: Vec::new(),
            },
        )
        .unwrap();
    let enrolled = catalog.get_tournament_teams(t).unwrap();
    assert_eq!(enrolled.len(), 1);
    assert_eq!(enrolled[0].id, 77);
    assert_eq!(
        catalog.get_tournament_teams(99).err(),
        Some(FantasyError::TournamentNotFound)
    );
}
