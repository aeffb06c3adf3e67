use fantasy_engine::catalog::Sport;
use fantasy_engine::scoring::{calculate_player_points, PlayerStats, ScoringStore};

fn bag() -> PlayerStats {
    PlayerStats::empty()
}

#[test]
fn cricket_points_match_the_rule_table() {
    // 30 runs, 2 wickets, 1 catch, 1 stumping, 1 run-out, 2 maidens, and a
    // qualifying economy of 3.5: in tenths of a point,
    // 300 + 200 + 80 + 100 + 60 + 80 + 20 = 840 (84.0 points).
    let stats = PlayerStats {
        runs: Some(30),
        wickets: Some(2),
        catches: Some(1),
        stumpings: Some(1),
        run_outs: Some(1),
        maidens: Some(2),
        economy: Some(35),
        ..bag()
    };
    assert_eq!(calculate_player_points(&stats), 840);
}

#[test]
fn economy_bonus_applies_strictly_below_four() {
    let just_below = PlayerStats { economy: Some(39), ..bag() };
    let at_four = PlayerStats { economy: Some(40), ..bag() };
    assert_eq!(calculate_player_points(&just_below), 20);
    assert_eq!(calculate_player_points(&at_four), 0);
}

#[test]
fn football_cards_subtract_points() {
    // 2 goals, 1 assist, 1 clean sheet, 3 saves, 1 yellow, 1 red:
    // 120 + 30 + 40 + 30 - 10 - 30 = 180 tenths (18.0 points).
    let stats = PlayerStats {
        goals: Some(2),
        assists: Some(1),
        clean_sheets: Some(1),
        saves: Some(3),
        yellow_cards: Some(1),
        red_cards: Some(1),
        ..bag()
    };
    // The assist also carries the basketball weight (no sport-tag
    // filtering): add 15 tenths.
    assert_eq!(calculate_player_points(&stats), 195);
}

#[test]
fn basketball_fractional_weights_are_tenths() {
    // 20 points, 5 rebounds, 4 assists, 1 block, 2 steals, 3 turnovers:
    // 200 + 60 + 60 + 20 + 40 - 30 = 350, plus the football assist weight
    // 4 x 30 = 120, total 470 tenths (47.0 points).
    let stats = PlayerStats {
        points: Some(20),
        rebounds: Some(5),
        assists: Some(4),
        blocks: Some(1),
        steals: Some(2),
        turnovers: Some(3),
        ..bag()
    };
    assert_eq!(calculate_player_points(&stats), 470);
}

#[test]
fn empty_bag_scores_zero() {
    assert_eq!(calculate_player_points(&bag()), 0);
}

#[test]
fn recording_stats_is_idempotent() {
    let mut scoring = ScoringStore::new();
    let stats = PlayerStats { runs: Some(50), wickets: Some(1), ..bag() };
    let first = scoring.update_player_score(3, 9, stats, 100);
    let second = scoring.update_player_score(3, 9, stats, 100);
    assert_eq!(first.points, 600);
    assert_eq!(second.points, 600);
    // Overwrite, never accumulate: still one record with the same points.
    assert_eq!(scoring.get_score_count(), 1);
    assert_eq!(scoring.get_player_score(3, 9).unwrap().points, 600);
}

#[test]
fn rerecording_overwrites_points() {
    let mut scoring = ScoringStore::new();
    scoring.update_player_score(3, 9, PlayerStats { runs: Some(50), ..bag() }, 100);
    scoring.update_player_score(3, 9, PlayerStats { runs: Some(10), ..bag() }, 101);
    assert_eq!(scoring.get_player_score(3, 9).unwrap().points, 100);
    assert_eq!(scoring.get_score_count(), 1);
}

#[test]
fn team_points_apply_captain_and_vice_multipliers() {
    let mut scoring = ScoringStore::new();
    // Captain scores 20.0 points (200 tenths), vice-captain 10.0 (100).
    scoring.update_player_score(1, 5, PlayerStats { runs: Some(20), ..bag() }, 50);
    scoring.update_player_score(2, 5, PlayerStats { runs: Some(10), ..bag() }, 50);
    // Player 3 has no recorded score and contributes zero.
    let total = scoring.calculate_fantasy_team_points(&vec![1, 2, 3], 5, 1, 2);
    // Hundredths of a point: 20 x 2 + 10 x 1.5 = 55.00.
    assert_eq!(total, 5500);
}

#[test]
fn team_points_prefer_captain_when_ids_collide() {
    let mut scoring = ScoringStore::new();
    scoring.update_player_score(1, 5, PlayerStats { runs: Some(10), ..bag() }, 50);
    // The same id as captain and vice-captain doubles; it is never 1.5x.
    let total = scoring.calculate_fantasy_team_points(&vec![1], 5, 1, 1);
    assert_eq!(total, 2000);
}

#[test]
fn team_points_of_empty_roster_is_zero() {
    let scoring = ScoringStore::new();
    assert_eq!(scoring.calculate_fantasy_team_points(&vec![], 5, 1, 2), 0);
}

#[test]
fn default_rule_table_is_installed_per_sport() {
    let mut scoring = ScoringStore::new();
    scoring.initialize_default_scoring_rules();
    let cricket = scoring.get_scoring_rules(Sport::Cricket);
    assert_eq!(cricket.len(), 7);
    assert_eq!(cricket[0].action, "run");
    assert_eq!(cricket[0].points, 10);
    assert_eq!(cricket[1].action, "wicket");
    assert_eq!(cricket[1].points, 100);
    let football = scoring.get_scoring_rules(Sport::Football);
    assert_eq!(football.len(), 6);
    assert_eq!(football[4].action, "yellow_card");
    assert_eq!(football[4].points, -10);
    let basketball = scoring.get_scoring_rules(Sport::Basketball);
    assert_eq!(basketball.len(), 6);
    assert_eq!(basketball[1].action, "rebound");
    assert_eq!(basketball[1].points, 12);
    assert!(scoring.get_scoring_rules(Sport::Tennis).is_empty());
}

#[test]
fn added_rules_append_per_sport() {
    let mut scoring = ScoringStore::new();
    scoring.add_scoring_rule(Sport::Tennis, "ace".to_string(), 20);
    scoring.initialize_default_scoring_rules();
    // Reinstalling defaults keeps rules of other sports.
    let tennis = scoring.get_scoring_rules(Sport::Tennis);
    assert_eq!(tennis.len(), 1);
    assert_eq!(tennis[0].action, "ace");
    scoring.add_scoring_rule(Sport::Cricket, "six".to_string(), 20);
    let cricket = scoring.get_scoring_rules(Sport::Cricket);
    assert_eq!(cricket.len(), 8);
    assert_eq!(cricket[7].action, "six");
}

#[test]
fn match_scores_filter_by_match() {
    let mut scoring = ScoringStore::new();
    scoring.update_player_score(1, 5, PlayerStats { runs: Some(5), ..bag() }, 50);
    scoring.update_player_score(2, 5, PlayerStats { runs: Some(7), ..bag() }, 50);
    scoring.update_player_score(1, 6, PlayerStats { runs: Some(9), ..bag() }, 50);
    let of_match_5 = scoring.get_match_scores(5);
    assert_eq!(of_match_5.len(), 2);
    assert_eq!(of_match_5[0].player_id, 1);
    assert_eq!(of_match_5[1].player_id, 2);
    assert_eq!(scoring.get_all_player_scores().len(), 3);
}
