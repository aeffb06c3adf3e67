//! The scoring aggregator: per-player match statistics, the fixed scoring
//! formula, the queryable rule table, and team-total computation.
//!
//! Point values are fixed-point integers. A player's score for a match is
//! kept in tenths of a point (so the basketball rebound weight of 1.2 points
//! is the integer 12). Team totals multiply per-player scores by 20 for the
//! captain, 15 for the vice-captain, and 10 otherwise, so they are in
//! hundredths of a point. Bowling economy is given in tenths of a run per
//! over; the economy bonus applies below an economy of 4.0 (40 tenths).

use vstd::prelude::*;
use vstd::pervasive::VecAdditionalExecFns;
use crate::catalog::MatchScore;
use crate::catalog::Sport;

verus! {

/// The statistics bag for one player in one match. Absent fields contribute
/// nothing. Fields of several sports may be present at once; each present
/// field contributes independently (in particular, `assists` carries both
/// the football and the basketball assist weights).
#[derive(Clone, Copy, Debug)]
pub struct PlayerStats {
    pub runs: Option<u32>,
    pub wickets: Option<u32>,
    pub catches: Option<u32>,
    pub stumpings: Option<u32>,
    pub run_outs: Option<u32>,
    pub overs: Option<u32>,
    pub maidens: Option<u32>,
    pub economy: Option<u32>,
    pub goals: Option<u32>,
    pub assists: Option<u32>,
    pub clean_sheets: Option<u32>,
    pub saves: Option<u32>,
    pub yellow_cards: Option<u32>,
    pub red_cards: Option<u32>,
    pub points: Option<u32>,
    pub rebounds: Option<u32>,
    pub blocks: Option<u32>,
    pub steals: Option<u32>,
    pub turnovers: Option<u32>,
}

impl PlayerStats {
    /// A bag with every field absent.
    pub fn empty() -> (r: Self)
        ensures
            r == Self::empty_spec(),
    {
        PlayerStats {
            runs: None,
            wickets: None,
            catches: None,
            stumpings: None,
            run_outs: None,
            overs: None,
            maidens: None,
            economy: None,
            goals: None,
            assists: None,
            clean_sheets: None,
            saves: None,
            yellow_cards: None,
            red_cards: None,
            points: None,
            rebounds: None,
            blocks: None,
            steals: None,
            turnovers: None,
        }
    }

    /// The bag with every field absent.
    pub open spec fn empty_spec() -> Self {
        PlayerStats {
            runs: None,
            wickets: None,
            catches: None,
            stumpings: None,
            run_outs: None,
            overs: None,
            maidens: None,
            economy: None,
            goals: None,
            assists: None,
            clean_sheets: None,
            saves: None,
            yellow_cards: None,
            red_cards: None,
            points: None,
            rebounds: None,
            blocks: None,
            steals: None,
            turnovers: None,
        }
    }
}

/// The value of an optional counting stat: its count, or zero when absent.
pub open spec fn opt_val(o: Option<u32>) -> int {
    match o {
        Some(v) => v as int,
        None => 0,
    }
}

/// The cricket part of the formula, in tenths of a point: run 1, wicket
/// 10, catch 8, stumping 10, run-out 6, maiden 4, and a 2-point bonus for
/// an economy below 4.0 (40 tenths).
pub open spec fn cricket_points(stats: PlayerStats) -> int {
    opt_val(stats.runs) * 10 + opt_val(stats.wickets) * 100 + opt_val(stats.catches) * 80
        + opt_val(stats.stumpings) * 100 + opt_val(stats.run_outs) * 60 + opt_val(stats.maidens)
        * 40 + (match stats.economy {
        Some(e) => if e < 40 {
            20int
        } else {
            0int
        },
        None => 0int,
    })
}

/// The football part of the formula, in tenths of a point: goal 6, assist
/// 3, clean sheet 4, save 1, yellow card -1, red card -3.
pub open spec fn football_points(stats: PlayerStats) -> int {
    opt_val(stats.goals) * 60 + opt_val(stats.assists) * 30 + opt_val(stats.clean_sheets) * 40
        + opt_val(stats.saves) * 10 - opt_val(stats.yellow_cards) * 10 - opt_val(stats.red_cards)
        * 30
}

/// The basketball part of the formula, in tenths of a point: point 1,
/// rebound 1.2, assist 1.5, block 2, steal 2, turnover -1.
pub open spec fn basketball_points(stats: PlayerStats) -> int {
    opt_val(stats.points) * 10 + opt_val(stats.rebounds) * 12 + opt_val(stats.assists) * 15
        + opt_val(stats.blocks) * 20 + opt_val(stats.steals) * 20 - opt_val(stats.turnovers) * 10
}

/// The fixed scoring formula, in tenths of a point: every present field
/// contributes, whatever sport it belongs to (the `assists` field carries
/// both the football and the basketball weight).
pub open spec fn stat_points(stats: PlayerStats) -> int {
    cricket_points(stats) + football_points(stats) + basketball_points(stats)
}

/// Every value of the formula lies well inside `i64`.
pub proof fn lemma_stat_points_in_range(stats: PlayerStats)
    ensures
        -220000000000 <= stat_points(stats) <= 2610000000000,
{
}

/// A player's recorded score for one match: the stats bag and its derived
/// points (tenths of a point).
#[derive(Clone, Copy, Debug)]
pub struct PlayerScore {
    pub player_id: u64,
    pub match_id: u64,
    pub points: i64,
    pub stats: PlayerStats,
    pub updated_at: u64,
}

/// A named scoring rule of the queryable rule table. The point-calculation
/// formula hardcodes the same constants and does not consult this table; the
/// table exists for external sports not yet wired into the formula.
pub struct ScoringRule {
    pub action: String,
    pub points: i64,
    pub sport: Sport,
}

impl Clone for ScoringRule {
    /// Clones preserve the rule exactly.
    fn clone(&self) -> (r: Self)
        ensures
            r == *self,
    {
        ScoringRule { action: self.action.clone(), points: self.points, sport: self.sport }
    }
}

/// The nineteen default rules, in table order, with points in tenths:
/// seven cricket rules, six football rules, six basketball rules, naming
/// the same weights that the fixed formula applies.
pub open spec fn default_rules(d: Seq<ScoringRule>) -> bool {
    &&& d.len() == 19
    &&& d[0].sport == Sport::Cricket && d[0].action@ == "run"@ && d[0].points == 10
    &&& d[1].sport == Sport::Cricket && d[1].action@ == "wicket"@ && d[1].points == 100
    &&& d[2].sport == Sport::Cricket && d[2].action@ == "catch"@ && d[2].points == 80
    &&& d[3].sport == Sport::Cricket && d[3].action@ == "stumping"@ && d[3].points == 100
    &&& d[4].sport == Sport::Cricket && d[4].action@ == "run_out"@ && d[4].points == 60
    &&& d[5].sport == Sport::Cricket && d[5].action@ == "maiden_over"@ && d[5].points == 40
    &&& d[6].sport == Sport::Cricket && d[6].action@ == "economy_bonus"@ && d[6].points == 20
    &&& d[7].sport == Sport::Football && d[7].action@ == "goal"@ && d[7].points == 60
    &&& d[8].sport == Sport::Football && d[8].action@ == "assist"@ && d[8].points == 30
    &&& d[9].sport == Sport::Football && d[9].action@ == "clean_sheet"@ && d[9].points == 40
    &&& d[10].sport == Sport::Football && d[10].action@ == "save"@ && d[10].points == 10
    &&& d[11].sport == Sport::Football && d[11].action@ == "yellow_card"@ && d[11].points == -10
    &&& d[12].sport == Sport::Football && d[12].action@ == "red_card"@ && d[12].points == -30
    &&& d[13].sport == Sport::Basketball && d[13].action@ == "point"@ && d[13].points == 10
    &&& d[14].sport == Sport::Basketball && d[14].action@ == "rebound"@ && d[14].points == 12
    &&& d[15].sport == Sport::Basketball && d[15].action@ == "assist"@ && d[15].points == 15
    &&& d[16].sport == Sport::Basketball && d[16].action@ == "block"@ && d[16].points == 20
    &&& d[17].sport == Sport::Basketball && d[17].action@ == "steal"@ && d[17].points == 20
    &&& d[18].sport == Sport::Basketball && d[18].action@ == "turnover"@ && d[18].points == -10
}

/// A stored match scoreline, keyed by match id.
pub struct MatchScoreRecord {
    pub match_id: u64,
    pub score: MatchScore,
}

/// There is a score record for this (player, match) pair.
pub open spec fn has_score(ss: Seq<PlayerScore>, player_id: u64, match_id: u64) -> bool {
    exists|i: int|
        0 <= i < ss.len() && ss[i].player_id == player_id && ss[i].match_id == match_id
}

/// The index of the score record for this (player, match) pair.
pub open spec fn score_idx(ss: Seq<PlayerScore>, player_id: u64, match_id: u64) -> int {
    choose|i: int|
        0 <= i < ss.len() && ss[i].player_id == player_id && ss[i].match_id == match_id
}

/// A player's recorded points for a match, in tenths of a point; a missing
/// record counts zero.
pub open spec fn score_points(ss: Seq<PlayerScore>, player_id: u64, match_id: u64) -> int {
    if has_score(ss, player_id, match_id) {
        ss[score_idx(ss, player_id, match_id)].points as int
    } else {
        0
    }
}

/// One roster slot's contribution to a team total, in hundredths of a
/// point: the player's score times 20 for the captain, 15 for the
/// vice-captain, 10 otherwise. A player listed as both captain and
/// vice-captain takes the captain multiplier.
pub open spec fn player_contribution(
    ss: Seq<PlayerScore>,
    player_id: u64,
    match_id: u64,
    captain_id: u64,
    vice_captain_id: u64,
) -> int {
    let base = score_points(ss, player_id, match_id);
    if player_id == captain_id {
        base * 20
    } else if player_id == vice_captain_id {
        base * 15
    } else {
        base * 10
    }
}

/// A team's total for a match, in hundredths of a point: the sum of every
/// listed player's contribution.
pub open spec fn team_points_spec(
    ss: Seq<PlayerScore>,
    player_ids: Seq<u64>,
    match_id: u64,
    captain_id: u64,
    vice_captain_id: u64,
) -> int
    decreases player_ids.len(),
{
    if player_ids.len() == 0 {
        0
    } else {
        team_points_spec(ss, player_ids.drop_last(), match_id, captain_id, vice_captain_id)
            + player_contribution(ss, player_ids.last(), match_id, captain_id, vice_captain_id)
    }
}

/// The upsert that recording a stats bag performs: overwrite the (player,
/// match) record if present, else append it; either way the stored points
/// are recomputed from the bag alone.
pub open spec fn upsert_score(
    ss: Seq<PlayerScore>,
    player_id: u64,
    match_id: u64,
    stats: PlayerStats,
    now: u64,
) -> Seq<PlayerScore> {
    let rec = PlayerScore {
        player_id,
        match_id,
        points: stat_points(stats) as i64,
        stats,
        updated_at: now,
    };
    if has_score(ss, player_id, match_id) {
        ss.update(score_idx(ss, player_id, match_id), rec)
    } else {
        ss.push(rec)
    }
}

/// Score records have pairwise-distinct (player, match) keys.
pub open spec fn scores_unique(ss: Seq<PlayerScore>) -> bool {
    forall|i: int, j: int|
        0 <= i < j < ss.len() ==> !(ss[i].player_id == ss[j].player_id && ss[i].match_id
            == ss[j].match_id)
}

/// Recording the same stats bag twice is the same as recording it once:
/// recomputing points from an identical bag changes nothing.
#[verifier::rlimit(50)]
pub proof fn lemma_record_stats_idempotent(
    ss: Seq<PlayerScore>,
    player_id: u64,
    match_id: u64,
    stats: PlayerStats,
    now: u64,
)
    requires
        scores_unique(ss),
    ensures
        upsert_score(upsert_score(ss, player_id, match_id, stats, now), player_id, match_id, stats, now)
            == upsert_score(ss, player_id, match_id, stats, now),
{
    let rec = PlayerScore {
        player_id,
        match_id,
        points: stat_points(stats) as i64,
        stats,
        updated_at: now,
    };
    let once = upsert_score(ss, player_id, match_id, stats, now);
    if has_score(ss, player_id, match_id) {
        let i = score_idx(ss, player_id, match_id);
        assert(once[i] == rec);
        assert(has_score(once, player_id, match_id));
        let j = score_idx(once, player_id, match_id);
        assert(0 <= j < once.len() && once[j].player_id == player_id && once[j].match_id
            == match_id);
        assert(forall|k: int|
            0 <= k < ss.len() && k != i ==> once[k] == ss[k] && !(ss[k].player_id == player_id
                && ss[k].match_id == match_id));
        assert(j == i);
        assert(once.update(j, rec) =~= once);
    } else {
        let i = ss.len() as int;
        assert(once[i] == rec);
        assert(has_score(once, player_id, match_id));
        let j = score_idx(once, player_id, match_id);
        assert(forall|k: int|
            0 <= k < ss.len() ==> once[k] == ss[k] && !(ss[k].player_id == player_id
                && ss[k].match_id == match_id));
        assert(j == i);
        assert(once.update(j, rec) =~= once);
    }
}

/// Player scores, match scorelines, and the scoring rule table.
pub struct ScoringStore {
    pub player_scores: Vec<PlayerScore>,
    pub match_scores: Vec<MatchScoreRecord>,
    pub scoring_rules: Vec<ScoringRule>,
}

/// There is a scoreline stored for this match.
pub open spec fn has_match_score(ms: Seq<MatchScoreRecord>, match_id: u64) -> bool {
    exists|i: int| 0 <= i < ms.len() && ms[i].match_id == match_id
}

/// The index of the scoreline stored for this match.
pub open spec fn match_score_idx(ms: Seq<MatchScoreRecord>, match_id: u64) -> int {
    choose|i: int| 0 <= i < ms.len() && ms[i].match_id == match_id
}

impl ScoringStore {
    /// Table invariant: score keys are unique and every stored points value
    /// is the formula applied to its own stats bag.
    pub open spec fn wf(self) -> bool {
        &&& scores_unique(self.player_scores@)
        &&& forall|i: int|
            0 <= i < self.player_scores@.len() ==> #[trigger] self.player_scores@[i].points
                == stat_points(self.player_scores@[i].stats)
        &&& forall|i: int, j: int|
            0 <= i < j < self.match_scores@.len() ==> self.match_scores@[i].match_id
                != self.match_scores@[j].match_id
    }

    /// An empty store.
    pub fn new() -> (r: Self)
        ensures
            r.wf(),
            r.player_scores@ =~= Seq::<PlayerScore>::empty(),
            r.match_scores@ =~= Seq::<MatchScoreRecord>::empty(),
            r.scoring_rules@ =~= Seq::<ScoringRule>::empty(),
    {
        ScoringStore {
            player_scores: Vec::new(),
            match_scores: Vec::new(),
            scoring_rules: Vec::new(),
        }
    }

    /// The position of the (player, match) score record, if present.
    fn find_score(&self, player_id: u64, match_id: u64) -> (r: Option<usize>)
        ensures
            match r {
                Some(i) => i < self.player_scores@.len() && self.player_scores@[i as int].player_id
                    == player_id && self.player_scores@[i as int].match_id == match_id,
                None => !has_score(self.player_scores@, player_id, match_id),
            },
    {
        let mut i: usize = 0;
        #[verifier::loop_isolation(false)]
        while i < self.player_scores.len()
            invariant
                i <= self.player_scores@.len(),
                forall|j: int|
                    0 <= j < i ==> !(self.player_scores@[j].player_id == player_id
                        && self.player_scores@[j].match_id == match_id),
            decreases self.player_scores@.len() - i,
        {
            if self.player_scores[i].player_id == player_id && self.player_scores[i].match_id
                == match_id {
                return Some(i);
            }
            i += 1;
        }
        None
    }

    /// Record (upsert) a player's statistics for a match and recompute the
    /// derived points from the bag alone. Returns the stored record.
    /// Re-submitting a bag overwrites the record, never accumulates.
    pub fn update_player_score(
        &mut self,
        player_id: u64,
        match_id: u64,
        stats: PlayerStats,
        now: u64,
    ) -> (r: PlayerScore)
        requires
            old(self).wf(),
        ensures
            final(self).wf(),
            final(self).match_scores@ == old(self).match_scores@,
            final(self).scoring_rules@ == old(self).scoring_rules@,
            r == (PlayerScore {
                player_id,
                match_id,
                points: stat_points(stats) as i64,
                stats,
                updated_at: now,
            }),
            r.points == stat_points(stats),
            final(self).player_scores@ == upsert_score(
                old(self).player_scores@,
                player_id,
                match_id,
                stats,
                now,
            ),
    {
        proof {
            lemma_stat_points_in_range(stats);
        }
        let points = calculate_player_points(&stats);
        let rec = PlayerScore { player_id, match_id, points, stats, updated_at: now };
        match self.find_score(player_id, match_id) {
            Some(i) => {
                proof {
                    assert(score_idx(self.player_scores@, player_id, match_id) == i);
                }
                self.player_scores.set(i, rec);
            },
            None => {
                self.player_scores.push(rec);
            },
        }
        rec
    }

    /// Look up the stored score record for a (player, match) pair.
    pub fn get_player_score(&self, player_id: u64, match_id: u64) -> (r: Option<PlayerScore>)
        requires
            self.wf(),
        ensures
            match r {
                Some(s) => has_score(self.player_scores@, player_id, match_id) && s
                    == self.player_scores@[score_idx(self.player_scores@, player_id, match_id)],
                None => !has_score(self.player_scores@, player_id, match_id),
            },
    {
        match self.find_score(player_id, match_id) {
            Some(i) => {
                proof {
                    assert(score_idx(self.player_scores@, player_id, match_id) == i);
                }
                Some(self.player_scores[i])
            },
            None => None,
        }
    }

    /// Every player score recorded for one match, in recording order.
    pub fn get_match_scores(&self, match_id: u64) -> (r: Vec<PlayerScore>)
        ensures
            r@ == self.player_scores@.filter(|s: PlayerScore| s.match_id == match_id),
    {
        let ghost pred = |s: PlayerScore| s.match_id == match_id;
        let mut out: Vec<PlayerScore> = Vec::new();
        let mut i: usize = 0;
        #[verifier::loop_isolation(false)]
        while i < self.player_scores.len()
            invariant
                i <= self.player_scores@.len(),
                out@ == self.player_scores@.take(i as int).filter(pred),
            decreases self.player_scores@.len() - i,
        {
            proof {
                let s = self.player_scores@;
                assert(s.take(i + 1) =~= s.take(i as int).push(s[i as int]));
                s.take(i as int).lemma_filter_push(s[i as int], pred);
            }
            if self.player_scores[i].match_id == match_id {
                out.push(self.player_scores[i]);
            }
            i += 1;
        }
        proof {
            assert(self.player_scores@.take(self.player_scores@.len() as int)
                =~= self.player_scores@);
        }
        out
    }

    /// Every recorded player score, in recording order.
    pub fn get_all_player_scores(&self) -> (r: &Vec<PlayerScore>)
        ensures
            r@ == self.player_scores@,
    {
        &self.player_scores
    }

    /// How many player score records exist.
    pub fn get_score_count(&self) -> (r: u64)
        ensures
            r == self.player_scores@.len(),
    {
        self.player_scores.len() as u64
    }

    /// Append a named rule to the rule table. The table is advisory: the
    /// point-calculation formula does not consult it.
    pub fn add_scoring_rule(&mut self, sport: Sport, action: String, points: i64)
        requires
            old(self).wf(),
        ensures
            final(self).wf(),
            final(self).player_scores@ == old(self).player_scores@,
            final(self).match_scores@ == old(self).match_scores@,
            final(self).scoring_rules@ == old(self).scoring_rules@.push(
                (ScoringRule { action: action, points: points, sport: sport }),
            ),
    {
        self.scoring_rules.push(ScoringRule { action, points, sport });
    }

    /// The named rules of one sport, in insertion order.
    pub fn get_scoring_rules(&self, sport: Sport) -> (r: Vec<&ScoringRule>)
        ensures
            r@.map_values(|x: &ScoringRule| *x) == self.scoring_rules@.filter(
                |x: ScoringRule| x.sport == sport,
            ),
    {
        let ghost pred = |x: ScoringRule| x.sport == sport;
        let mut out: Vec<&ScoringRule> = Vec::new();
        let mut i: usize = 0;
        #[verifier::loop_isolation(false)]
        while i < self.scoring_rules.len()
            invariant
                i <= self.scoring_rules@.len(),
                out@.map_values(|x: &ScoringRule| *x) == self.scoring_rules@.take(i as int).filter(
                    pred,
                ),
            decreases self.scoring_rules@.len() - i,
        {
            proof {
                let s = self.scoring_rules@;
                assert(s.take(i + 1) =~= s.take(i as int).push(s[i as int]));
                s.take(i as int).lemma_filter_push(s[i as int], pred);
            }
            let ghost prev = out@.map_values(|x: &ScoringRule| *x);
            if self.scoring_rules[i].sport == sport {
                out.push(&self.scoring_rules[i]);
                proof {
                    assert(out@.map_values(|x: &ScoringRule| *x) =~= prev.push(
                        self.scoring_rules@[i as int],
                    ));
                }
            }
            i += 1;
        }
        proof {
            assert(self.scoring_rules@.take(self.scoring_rules@.len() as int)
                =~= self.scoring_rules@);
        }
        out
    }

    /// Install the default rule tables for cricket, football, and
    /// basketball, replacing any rules those three sports already had;
    /// rules of other sports are kept (ahead of the defaults). The rule
    /// point values are in tenths of a point and mirror the fixed formula.
    pub fn initialize_default_scoring_rules(&mut self)
        requires
            old(self).wf(),
        ensures
            final(self).wf(),
            final(self).player_scores@ == old(self).player_scores@,
            final(self).match_scores@ == old(self).match_scores@,
            ({
                let kept = old(self).scoring_rules@.filter(
                    |x: ScoringRule| x.sport == Sport::Tennis,
                );
                &&& final(self).scoring_rules@.len() == kept.len() + 19
                &&& final(self).scoring_rules@.take(kept.len() as int) == kept
                &&& default_rules(final(self).scoring_rules@.skip(kept.len() as int))
            }),
    {
        let ghost pred = |x: ScoringRule| x.sport == Sport::Tennis;
        let mut rules: Vec<ScoringRule> = Vec::new();
        let mut i: usize = 0;
        #[verifier::loop_isolation(false)]
        while i < self.scoring_rules.len()
            invariant
                i <= self.scoring_rules@.len(),
                rules@ == self.scoring_rules@.take(i as int).filter(pred),
            decreases self.scoring_rules@.len() - i,
        {
            proof {
                let s = self.scoring_rules@;
                assert(s.take(i + 1) =~= s.take(i as int).push(s[i as int]));
                s.take(i as int).lemma_filter_push(s[i as int], pred);
            }
            if matches!(self.scoring_rules[i].sport, Sport::Tennis) {
                rules.push(self.scoring_rules[i].clone());
            }
            i += 1;
        }
        proof {
            assert(self.scoring_rules@.take(self.scoring_rules@.len() as int)
                =~= self.scoring_rules@);
        }
        let ghost kept = rules@;
        rules.push(ScoringRule { action: "run".to_owned(), points: 10, sport: Sport::Cricket });
        rules.push(ScoringRule { action: "wicket".to_owned(), points: 100, sport: Sport::Cricket });
        rules.push(ScoringRule { action: "catch".to_owned(), points: 80, sport: Sport::Cricket });
        rules.push(
            ScoringRule { action: "stumping".to_owned(), points: 100, sport: Sport::Cricket },
        );
        rules.push(ScoringRule { action: "run_out".to_owned(), points: 60, sport: Sport::Cricket });
        rules.push(
            ScoringRule { action: "maiden_over".to_owned(), points: 40, sport: Sport::Cricket },
        );
        rules.push(
            ScoringRule { action: "economy_bonus".to_owned(), points: 20, sport: Sport::Cricket },
        );
        rules.push(ScoringRule { action: "goal".to_owned(), points: 60, sport: Sport::Football });
        rules.push(ScoringRule { action: "assist".to_owned(), points: 30, sport: Sport::Football });
        rules.push(
            ScoringRule { action: "clean_sheet".to_owned(), points: 40, sport: Sport::Football },
        );
        rules.push(ScoringRule { action: "save".to_owned(), points: 10, sport: Sport::Football });
        rules.push(
            ScoringRule { action: "yellow_card".to_owned(), points: -10, sport: Sport::Football },
        );
        rules.push(
            ScoringRule { action: "red_card".to_owned(), points: -30, sport: Sport::Football },
        );
        rules.push(
            ScoringRule { action: "point".to_owned(), points: 10, sport: Sport::Basketball },
        );
        rules.push(
            ScoringRule { action: "rebound".to_owned(), points: 12, sport: Sport::Basketball },
        );
        rules.push(
            ScoringRule { action: "assist".to_owned(), points: 15, sport: Sport::Basketball },
        );
        rules.push(
            ScoringRule { action: "block".to_owned(), points: 20, sport: Sport::Basketball },
        );
        rules.push(
            ScoringRule { action: "steal".to_owned(), points: 20, sport: Sport::Basketball },
        );
        rules.push(
            ScoringRule { action: "turnover".to_owned(), points: -10, sport: Sport::Basketball },
        );
        proof {
            assert(rules@.take(kept.len() as int) =~= kept);
            assert(default_rules(rules@.skip(kept.len() as int)));
        }
        self.scoring_rules = rules;
    }

    /// A team's total for a match, in hundredths of a point: each listed
    /// player's recorded score (zero when unrecorded) times 20 for the
    /// captain, 15 for the vice-captain, 10 otherwise.
    pub fn calculate_fantasy_team_points(
        &self,
        player_ids: &Vec<u64>,
        match_id: u64,
        captain_id: u64,
        vice_captain_id: u64,
    ) -> (r: i128)
        requires
            self.wf(),
        ensures
            r == team_points_spec(
                self.player_scores@,
                player_ids@,
                match_id,
                captain_id,
                vice_captain_id,
            ),
    {
        let ghost ss = self.player_scores@;
        let mut total: i128 = 0;
        let mut i: usize = 0;
        #[verifier::loop_isolation(false)]
        while i < player_ids.len()
            invariant
                i <= player_ids@.len(),
                total == team_points_spec(ss, player_ids@.take(i as int), match_id, captain_id,
                    vice_captain_id),
                -200000000000000 * (i as int) <= total <= 200000000000000 * (i as int),
            decreases player_ids@.len() - i,
        {
            let pid = player_ids[i];
            let base: i64 = match self.find_score(pid, match_id) {
                Some(k) => {
                    proof {
                        assert(score_idx(ss, pid, match_id) == k);
                        lemma_stat_points_in_range(self.player_scores@[k as int].stats);
                    }
                    self.player_scores[k].points
                },
                None => 0,
            };
            proof {
                assert(-220000000000 <= base as int <= 2610000000000);
                assert(base as int == score_points(ss, pid, match_id));
            }
            let mult: i128 = if pid == captain_id {
                20
            } else if pid == vice_captain_id {
                15
            } else {
                10
            };
            let contribution: i128 = (base as i128) * mult;
            proof {
                assert(-200000000000000 <= contribution <= 200000000000000) by {
                    assert(-220000000000 <= base as int <= 2610000000000);
                    assert(10 <= mult <= 20);
                    assert((base as i128) * mult <= 2610000000000 * 20) by (nonlinear_arith)
                        requires
                            -220000000000 <= base as i128 <= 2610000000000 && 10 <= mult <= 20,
                    ;
                    assert((base as i128) * mult >= -220000000000 * 20) by (nonlinear_arith)
                        requires
                            -220000000000 <= base as i128 <= 2610000000000 && 10 <= mult <= 20,
                    ;
                }
                assert(contribution == player_contribution(ss, pid, match_id, captain_id,
                    vice_captain_id));
                assert(player_ids@.take(i + 1).drop_last() =~= player_ids@.take(i as int));
                assert(player_ids@.take(i + 1).last() == pid);
            }
            total = total + contribution;
            i += 1;
        }
        proof {
            assert(player_ids@.take(player_ids@.len() as int) =~= player_ids@);
        }
        total
    }

    /// Store (upsert) a match scoreline.
    pub fn update_match_score_data(&mut self, match_id: u64, score: MatchScore)
        requires
            old(self).wf(),
        ensures
            final(self).wf(),
            final(self).player_scores@ == old(self).player_scores@,
            final(self).scoring_rules@ == old(self).scoring_rules@,
            !has_match_score(old(self).match_scores@, match_id) ==> final(self).match_scores@
                == old(self).match_scores@.push(
                (MatchScoreRecord { match_id: match_id, score: score }),
            ),
            has_match_score(old(self).match_scores@, match_id) ==> final(self).match_scores@
                == old(self).match_scores@.update(
                match_score_idx(old(self).match_scores@, match_id),
                (MatchScoreRecord { match_id: match_id, score: score }),
            ),
    {
        let mut i: usize = 0;
        let mut found: Option<usize> = None;
        #[verifier::loop_isolation(false)]
        while i < self.match_scores.len() && found.is_none()
            invariant
                i <= self.match_scores@.len(),
                match found {
                    Some(k) => k < self.match_scores@.len() && self.match_scores@[k as int].match_id
                        == match_id,
                    None => forall|j: int|
                        0 <= j < i ==> self.match_scores@[j].match_id != match_id,
                },
            decreases self.match_scores@.len() - i, (if found is None { 1int } else { 0int }),
        {
            if self.match_scores[i].match_id == match_id {
                found = Some(i);
            } else {
                i += 1;
            }
        }
        let rec = MatchScoreRecord { match_id, score };
        match found {
            Some(i) => {
                proof {
                    assert(self.match_scores@[i as int].match_id == match_id);
                    assert(has_match_score(self.match_scores@, match_id));
                    assert(match_score_idx(self.match_scores@, match_id) == i);
                }
                self.match_scores.set(i, rec);
            },
            None => {
                self.match_scores.push(rec);
            },
        }
    }

    /// Look up the stored scoreline for a match.
    pub fn get_match_score(&self, match_id: u64) -> (r: Option<&MatchScore>)
        requires
            self.wf(),
        ensures
            match r {
                Some(s) => has_match_score(self.match_scores@, match_id) && *s
                    == self.match_scores@[match_score_idx(self.match_scores@, match_id)].score,
                None => !has_match_score(self.match_scores@, match_id),
            },
    {
        let mut i: usize = 0;
        #[verifier::loop_isolation(false)]
        while i < self.match_scores.len()
            invariant
                i <= self.match_scores@.len(),
                forall|j: int| 0 <= j < i ==> self.match_scores@[j].match_id != match_id,
            decreases self.match_scores@.len() - i,
        {
            if self.match_scores[i].match_id == match_id {
                proof {
                    assert(has_match_score(self.match_scores@, match_id));
                    assert(match_score_idx(self.match_scores@, match_id) == i);
                }
                return Some(&self.match_scores[i].score);
            }
            i += 1;
        }
        None
    }
}

/// The cricket contributions of a stats bag, in tenths of a point.
#[verifier::rlimit(50)]
fn cricket_part(stats: &PlayerStats) -> (r: i64)
    ensures
        r == cricket_points(*stats),
{
    let mut total: i64 = 0;
    if let Some(runs) = stats.runs {
        total = total + (runs as i64) * 10;
    }
    if let Some(wickets) = stats.wickets {
        total = total + (wickets as i64) * 100;
    }
    if let Some(catches) = stats.catches {
        total = total + (catches as i64) * 80;
    }
    if let Some(stumpings) = stats.stumpings {
        total = total + (stumpings as i64) * 100;
    }
    if let Some(run_outs) = stats.run_outs {
        total = total + (run_outs as i64) * 60;
    }
    if let Some(maidens) = stats.maidens {
        total = total + (maidens as i64) * 40;
    }
    if let Some(economy) = stats.economy {
        if economy < 40 {
            total = total + 20;
        }
    }
    total
}

/// The football contributions of a stats bag, in tenths of a point.
#[verifier::rlimit(50)]
fn football_part(stats: &PlayerStats) -> (r: i64)
    ensures
        r == football_points(*stats),
{
    let mut total: i64 = 0;
    if let Some(goals) = stats.goals {
        total = total + (goals as i64) * 60;
    }
    if let Some(assists) = stats.assists {
        total = total + (assists as i64) * 30;
    }
    if let Some(clean_sheets) = stats.clean_sheets {
        total = total + (clean_sheets as i64) * 40;
    }
    if let Some(saves) = stats.saves {
        total = total + (saves as i64) * 10;
    }
    if let Some(yellow_cards) = stats.yellow_cards {
        total = total - (yellow_cards as i64) * 10;
    }
    if let Some(red_cards) = stats.red_cards {
        total = total - (red_cards as i64) * 30;
    }
    total
}

/// The basketball contributions of a stats bag, in tenths of a point.
#[verifier::rlimit(50)]
fn basketball_part(stats: &PlayerStats) -> (r: i64)
    ensures
        r == basketball_points(*stats),
{
    let mut total: i64 = 0;
    if let Some(points) = stats.points {
        total = total + (points as i64) * 10;
    }
    if let Some(rebounds) = stats.rebounds {
        total = total + (rebounds as i64) * 12;
    }
    if let Some(assists) = stats.assists {
        total = total + (assists as i64) * 15;
    }
    if let Some(blocks) = stats.blocks {
        total = total + (blocks as i64) * 20;
    }
    if let Some(steals) = stats.steals {
        total = total + (steals as i64) * 20;
    }
    if let Some(turnovers) = stats.turnovers {
        total = total - (turnovers as i64) * 10;
    }
    total
}

/// The fixed scoring formula on a stats bag, in tenths of a point.
#[verifier::rlimit(50)]
pub fn calculate_player_points(stats: &PlayerStats) -> (r: i64)
    ensures
        r == stat_points(*stats),
{
    let cricket = cricket_part(stats);
    let football = football_part(stats);
    let basketball = basketball_part(stats);
    proof {
        lemma_stat_points_in_range(*stats);
    }
    cricket + football + basketball
}

} // verus!
