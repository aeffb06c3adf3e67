//! The sports catalog: tournaments, real teams, players, and matches.
//!
//! `CatalogStore` owns the reference data that contests and fantasy teams
//! point into. Player prices feed the fantasy-team salary cap, and match ids
//! tie contests to real-world fixtures. Each table is keyed by a `u64`
//! counter id; catalog player points are kept in tenths of a point.

use vstd::prelude::*;
use crate::errors::FantasyError;

verus! {

/// Sport that a tournament or scoring rule belongs to.
#[derive(Clone, Copy, PartialEq, Eq, Structural, Debug)]
pub enum Sport {
    Cricket,
    Football,
    Basketball,
    Tennis,
}

/// Lifecycle state of a tournament.
#[derive(Clone, Copy, PartialEq, Eq, Structural, Debug)]
pub enum TournamentStatus {
    Upcoming,
    Live,
    Completed,
    Cancelled,
}

/// Field position of a catalog player.
#[derive(Clone, Copy, PartialEq, Eq, Structural, Debug)]
pub enum PlayerPosition {
    Batsman,
    Bowler,
    AllRounder,
    WicketKeeper,
    Forward,
    Midfielder,
    Defender,
    Goalkeeper,
    PointGuard,
    ShootingGuard,
    SmallForward,
    PowerForward,
    Center,
}

/// Lifecycle state of a match.
#[derive(Clone, Copy, PartialEq, Eq, Structural, Debug)]
pub enum MatchStatus {
    Scheduled,
    Live,
    Completed,
    Cancelled,
}

/// A real player listed in the catalog. `points` is the player's current
/// tally in tenths of a point; `price` is the salary-cap cost in tokens.
pub struct Player {
    pub id: u64,
    pub name: String,
    pub team_id: u64,
    pub position: PlayerPosition,
    pub points: i64,
    pub price: u64,
    pub is_playing: bool,
}

impl Clone for Player {
    /// Clones preserve the player record exactly.
    fn clone(&self) -> (r: Self)
        ensures
            r == *self,
    {
        Player {
            id: self.id,
            name: self.name.clone(),
            team_id: self.team_id,
            position: self.position,
            points: self.points,
            price: self.price,
            is_playing: self.is_playing,
        }
    }
}

/// A real team and the players registered to it.
pub struct Team {
    pub id: u64,
    pub name: String,
    pub short_name: String,
    pub players: Vec<Player>,
}

/// Final scoreline of a match; overs are in tenths of an over.
pub struct MatchScore {
    pub team1_score: String,
    pub team2_score: String,
    pub team1_overs: Option<u32>,
    pub team2_overs: Option<u32>,
}

impl Clone for MatchScore {
    /// Clones preserve the scoreline exactly.
    fn clone(&self) -> (r: Self)
        ensures
            r == *self,
    {
        MatchScore {
            team1_score: self.team1_score.clone(),
            team2_score: self.team2_score.clone(),
            team1_overs: self.team1_overs,
            team2_overs: self.team2_overs,
        }
    }
}

/// A fixture between two catalog teams inside a tournament.
pub struct Match {
    pub id: u64,
    pub tournament_id: u64,
    pub team1_id: u64,
    pub team2_id: u64,
    pub start_time: u64,
    pub status: MatchStatus,
    pub score: Option<MatchScore>,
}

impl Clone for Match {
    /// Clones preserve the match record exactly.
    fn clone(&self) -> (r: Self)
        ensures
            r == *self,
    {
        let score = match &self.score {
            None => None,
            Some(s) => Some(s.clone()),
        };
        Match {
            id: self.id,
            tournament_id: self.tournament_id,
            team1_id: self.team1_id,
            team2_id: self.team2_id,
            start_time: self.start_time,
            status: self.status,
            score,
        }
    }
}

/// A tournament with its enrolled teams and scheduled matches.
pub struct Tournament {
    pub id: u64,
    pub name: String,
    pub sport: Sport,
    pub start_time: u64,
    pub end_time: u64,
    pub status: TournamentStatus,
    pub teams: Vec<Team>,
    pub matches: Vec<Match>,
}

/// There is a tournament with this id.
pub open spec fn has_tournament(ts: Seq<Tournament>, id: u64) -> bool {
    exists|i: int| 0 <= i < ts.len() && ts[i].id == id
}

/// The index of the tournament with this id.
pub open spec fn tournament_idx(ts: Seq<Tournament>, id: u64) -> int {
    choose|i: int| 0 <= i < ts.len() && ts[i].id == id
}

/// There is a team with this id.
pub open spec fn has_team(ts: Seq<Team>, id: u64) -> bool {
    exists|i: int| 0 <= i < ts.len() && ts[i].id == id
}

/// The index of the team with this id.
pub open spec fn team_idx(ts: Seq<Team>, id: u64) -> int {
    choose|i: int| 0 <= i < ts.len() && ts[i].id == id
}

/// There is a player with this id.
pub open spec fn has_player(ps: Seq<Player>, id: u64) -> bool {
    exists|i: int| 0 <= i < ps.len() && ps[i].id == id
}

/// The index of the player with this id.
pub open spec fn player_idx(ps: Seq<Player>, id: u64) -> int {
    choose|i: int| 0 <= i < ps.len() && ps[i].id == id
}

/// There is a match with this id.
pub open spec fn has_match(ms: Seq<Match>, id: u64) -> bool {
    exists|i: int| 0 <= i < ms.len() && ms[i].id == id
}

/// The index of the match with this id.
pub open spec fn match_idx(ms: Seq<Match>, id: u64) -> int {
    choose|i: int| 0 <= i < ms.len() && ms[i].id == id
}

/// The catalog of tournaments, teams, players, and matches.
pub struct CatalogStore {
    pub tournaments: Vec<Tournament>,
    pub teams: Vec<Team>,
    pub players: Vec<Player>,
    pub matches: Vec<Match>,
    pub next_tournament_id: u64,
    pub next_team_id: u64,
    pub next_player_id: u64,
    pub next_match_id: u64,
}

impl CatalogStore {
    /// Table invariant: ids in each table are unique and below that table's
    /// counter.
    pub open spec fn wf(self) -> bool {
        &&& forall|i: int, j: int|
            0 <= i < j < self.tournaments@.len() ==> self.tournaments@[i].id
                != self.tournaments@[j].id
        &&& forall|i: int|
            0 <= i < self.tournaments@.len() ==> self.tournaments@[i].id
                < self.next_tournament_id
        &&& forall|i: int, j: int|
            0 <= i < j < self.teams@.len() ==> self.teams@[i].id != self.teams@[j].id
        &&& forall|i: int| 0 <= i < self.teams@.len() ==> self.teams@[i].id < self.next_team_id
        &&& forall|i: int, j: int|
            0 <= i < j < self.players@.len() ==> self.players@[i].id != self.players@[j].id
        &&& forall|i: int|
            0 <= i < self.players@.len() ==> self.players@[i].id < self.next_player_id
        &&& forall|i: int, j: int|
            0 <= i < j < self.matches@.len() ==> self.matches@[i].id != self.matches@[j].id
        &&& forall|i: int|
            0 <= i < self.matches@.len() ==> self.matches@[i].id < self.next_match_id
    }

    /// An empty catalog.
    pub fn new() -> (r: Self)
        ensures
            r.wf(),
            r.tournaments@ =~= Seq::<Tournament>::empty(),
            r.teams@ =~= Seq::<Team>::empty(),
            r.players@ =~= Seq::<Player>::empty(),
            r.matches@ =~= Seq::<Match>::empty(),
            r.next_tournament_id == 0,
            r.next_team_id == 0,
            r.next_player_id == 0,
            r.next_match_id == 0,
    {
        CatalogStore {
            tournaments: Vec::new(),
            teams: Vec::new(),
            players: Vec::new(),
            matches: Vec::new(),
            next_tournament_id: 0,
            next_team_id: 0,
            next_player_id: 0,
            next_match_id: 0,
        }
    }

    /// Create an upcoming tournament with no teams or matches yet; returns
    /// its fresh id.
    pub fn create_tournament(
        &mut self,
        name: String,
        sport: Sport,
        start_time: u64,
        end_time: u64,
    ) -> (r: u64)
        requires
            old(self).wf(),
            old(self).next_tournament_id < u64::MAX,
        ensures
            final(self).wf(),
            r == old(self).next_tournament_id,
            final(self).next_tournament_id == old(self).next_tournament_id + 1,
            final(self).tournaments@.len() == old(self).tournaments@.len() + 1,
            final(self).tournaments@.drop_last() == old(self).tournaments@,
            ({
                let t = final(self).tournaments@.last();
                t.id == r && t.name == name && t.sport == sport && t.start_time == start_time
                    && t.end_time == end_time && t.status == TournamentStatus::Upcoming
                    && t.teams@ == Seq::<Team>::empty() && t.matches@ == Seq::<Match>::empty()
            }),
            final(self).teams@ == old(self).teams@,
            final(self).players@ == old(self).players@,
            final(self).matches@ == old(self).matches@,
            final(self).next_team_id == old(self).next_team_id,
            final(self).next_player_id == old(self).next_player_id,
            final(self).next_match_id == old(self).next_match_id,
    {
        let id = self.next_tournament_id;
        self.next_tournament_id = id + 1;
        let t = Tournament {
            id,
            name,
            sport,
            start_time,
            end_time,
            status: TournamentStatus::Upcoming,
            teams: Vec::new(),
            matches: Vec::new(),
        };
        self.tournaments.push(t);
        proof {
            assert(self.tournaments@.drop_last() =~= old(self).tournaments@);
        }
        id
    }

    /// The position of the tournament with this id, if present.
    fn find_tournament(&self, id: u64) -> (r: Option<usize>)
        ensures
            match r {
                Some(i) => i < self.tournaments@.len() && self.tournaments@[i as int].id == id,
                None => !has_tournament(self.tournaments@, id),
            },
    {
        let mut i: usize = 0;
        #[verifier::loop_isolation(false)]
        while i < self.tournaments.len()
            invariant
                i <= self.tournaments@.len(),
                forall|j: int| 0 <= j < i ==> self.tournaments@[j].id != id,
            decreases self.tournaments@.len() - i,
        {
            if self.tournaments[i].id == id {
                return Some(i);
            }
            i += 1;
        }
        None
    }

    /// Look a tournament up by id.
    pub fn get_tournament(&self, tournament_id: u64) -> (r: Option<&Tournament>)
        requires
            self.wf(),
        ensures
            match r {
                Some(t) => has_tournament(self.tournaments@, tournament_id) && *t
                    == self.tournaments@[tournament_idx(self.tournaments@, tournament_id)],
                None => !has_tournament(self.tournaments@, tournament_id),
            },
    {
        match self.find_tournament(tournament_id) {
            Some(i) => {
                proof {
                    assert(self.tournaments@[tournament_idx(self.tournaments@, tournament_id)].id
                        == tournament_id);
                }
                Some(&self.tournaments[i])
            },
            None => None,
        }
    }

    /// Every tournament, in creation order.
    pub fn get_all_tournaments(&self) -> (r: &Vec<Tournament>)
        ensures
            r@ == self.tournaments@,
    {
        &self.tournaments
    }

    /// The tournaments of one sport, in creation order.
    pub fn get_tournaments_by_sport(&self, sport: Sport) -> (r: Vec<&Tournament>)
        ensures
            r@.map_values(|t: &Tournament| *t) == self.tournaments@.filter(
                |t: Tournament| t.sport == sport,
            ),
    {
        let ghost pred = |t: Tournament| t.sport == sport;
        let mut out: Vec<&Tournament> = Vec::new();
        let mut i: usize = 0;
        #[verifier::loop_isolation(false)]
        while i < self.tournaments.len()
            invariant
                i <= self.tournaments@.len(),
                out@.map_values(|t: &Tournament| *t) == self.tournaments@.take(i as int).filter(
                    pred,
                ),
            decreases self.tournaments@.len() - i,
        {
            proof {
                let s = self.tournaments@;
                assert(s.take(i + 1) =~= s.take(i as int).push(s[i as int]));
                s.take(i as int).lemma_filter_push(s[i as int], pred);
            }
            let ghost prev = out@.map_values(|t: &Tournament| *t);
            if self.tournaments[i].sport == sport {
                out.push(&self.tournaments[i]);
                proof {
                    assert(out@.map_values(|t: &Tournament| *t) =~= prev.push(
                        self.tournaments@[i as int],
                    ));
                }
            }
            i += 1;
        }
        proof {
            assert(self.tournaments@.take(self.tournaments@.len() as int) =~= self.tournaments@);
        }
        out
    }

    /// The tournaments currently live, in creation order.
    pub fn get_live_tournaments(&self) -> (r: Vec<&Tournament>)
        ensures
            r@.map_values(|t: &Tournament| *t) == self.tournaments@.filter(
                |t: Tournament| t.status == TournamentStatus::Live,
            ),
    {
        let ghost pred = |t: Tournament| t.status == TournamentStatus::Live;
        let mut out: Vec<&Tournament> = Vec::new();
        let mut i: usize = 0;
        #[verifier::loop_isolation(false)]
        while i < self.tournaments.len()
            invariant
                i <= self.tournaments@.len(),
                out@.map_values(|t: &Tournament| *t) == self.tournaments@.take(i as int).filter(
                    pred,
                ),
            decreases self.tournaments@.len() - i,
        {
            proof {
                let s = self.tournaments@;
                assert(s.take(i + 1) =~= s.take(i as int).push(s[i as int]));
                s.take(i as int).lemma_filter_push(s[i as int], pred);
            }
            let ghost prev = out@.map_values(|t: &Tournament| *t);
            if self.tournaments[i].status == TournamentStatus::Live {
                out.push(&self.tournaments[i]);
                proof {
                    assert(out@.map_values(|t: &Tournament| *t) =~= prev.push(
                        self.tournaments@[i as int],
                    ));
                }
            }
            i += 1;
        }
        proof {
            assert(self.tournaments@.take(self.tournaments@.len() as int) =~= self.tournaments@);
        }
        out
    }

    /// Set a tournament's status (the catalog's status field is free-form,
    /// set by an authorized caller). Fails `TournamentNotFound` if absent.
    pub fn update_tournament_status(&mut self, tournament_id: u64, status: TournamentStatus) -> (r:
        Result<(), FantasyError>)
        requires
            old(self).wf(),
        ensures
            final(self).wf(),
            final(self).teams@ == old(self).teams@,
            final(self).players@ == old(self).players@,
            final(self).matches@ == old(self).matches@,
            final(self).next_tournament_id == old(self).next_tournament_id,
            final(self).next_team_id == old(self).next_team_id,
            final(self).next_player_id == old(self).next_player_id,
            final(self).next_match_id == old(self).next_match_id,
            !has_tournament(old(self).tournaments@, tournament_id) ==> r == Err::<
                (),
                FantasyError,
            >(FantasyError::TournamentNotFound) && final(self).tournaments@ == old(
                self,
            ).tournaments@,
            has_tournament(old(self).tournaments@, tournament_id) ==> r == Ok::<(), FantasyError>(
                (),
            ) && {
                let i = tournament_idx(old(self).tournaments@, tournament_id);
                final(self).tournaments@ == old(self).tournaments@.update(
                    i,
                    (Tournament { status: status, ..old(self).tournaments@[i] }),
                )
            },
    {
        match self.find_tournament(tournament_id) {
            None => Err(FantasyError::TournamentNotFound),
            Some(i) => {
                proof {
                    assert(tournament_idx(self.tournaments@, tournament_id) == i);
                }
                let mut t = self.tournaments.remove(i);
                t.status = status;
                self.tournaments.insert(i, t);
                proof {
                    assert(self.tournaments@ =~= old(self).tournaments@.update(
                        i as int,
                        self.tournaments@[i as int],
                    ));
                }
                Ok(())
            },
        }
    }

    /// How many tournaments exist.
    pub fn get_tournament_count(&self) -> (r: u64)
        ensures
            r == self.tournaments@.len(),
    {
        self.tournaments.len() as u64
    }

    /// Create a catalog team with no players yet; returns its fresh id.
    pub fn create_team(&mut self, name: String, short_name: String) -> (r: u64)
        requires
            old(self).wf(),
            old(self).next_team_id < u64::MAX,
        ensures
            final(self).wf(),
            r == old(self).next_team_id,
            final(self).next_team_id == old(self).next_team_id + 1,
            final(self).teams@.len() == old(self).teams@.len() + 1,
            final(self).teams@.drop_last() == old(self).teams@,
            ({
                let t = final(self).teams@.last();
                t.id == r && t.name == name && t.short_name == short_name && t.players@
                    == Seq::<Player>::empty()
            }),
            final(self).tournaments@ == old(self).tournaments@,
            final(self).players@ == old(self).players@,
            final(self).matches@ == old(self).matches@,
            final(self).next_tournament_id == old(self).next_tournament_id,
            final(self).next_player_id == old(self).next_player_id,
            final(self).next_match_id == old(self).next_match_id,
    {
        let id = self.next_team_id;
        self.next_team_id = id + 1;
        let t = Team { id, name, short_name, players: Vec::new() };
        self.teams.push(t);
        proof {
            assert(self.teams@.drop_last() =~= old(self).teams@);
        }
        id
    }

    /// The position of the team with this id, if present.
    fn find_team(&self, id: u64) -> (r: Option<usize>)
        ensures
            match r {
                Some(i) => i < self.teams@.len() && self.teams@[i as int].id == id,
                None => !has_team(self.teams@, id),
            },
    {
        let mut i: usize = 0;
        #[verifier::loop_isolation(false)]
        while i < self.teams.len()
            invariant
                i <= self.teams@.len(),
                forall|j: int| 0 <= j < i ==> self.teams@[j].id != id,
            decreases self.teams@.len() - i,
        {
            if self.teams[i].id == id {
                return Some(i);
            }
            i += 1;
        }
        None
    }

    /// Look a team up by id.
    pub fn get_team(&self, team_id: u64) -> (r: Option<&Team>)
        requires
            self.wf(),
        ensures
            match r {
                Some(t) => has_team(self.teams@, team_id) && *t == self.teams@[team_idx(
                    self.teams@,
                    team_id,
                )],
                None => !has_team(self.teams@, team_id),
            },
    {
        match self.find_team(team_id) {
            Some(i) => {
                proof {
                    assert(self.teams@[team_idx(self.teams@, team_id)].id == team_id);
                }
                Some(&self.teams[i])
            },
            None => None,
        }
    }

    /// Every team, in creation order.
    pub fn get_all_teams(&self) -> (r: &Vec<Team>)
        ensures
            r@ == self.teams@,
    {
        &self.teams
    }

    /// Add a player to the catalog (and to its team's roster when the team
    /// exists); returns the fresh player id. A missing team id leaves the
    /// team tables untouched, as the catalog does not validate it.
    pub fn create_player(
        &mut self,
        name: String,
        team_id: u64,
        position: PlayerPosition,
        price: u64,
    ) -> (r: u64)
        requires
            old(self).wf(),
            old(self).next_player_id < u64::MAX,
        ensures
            final(self).wf(),
            r == old(self).next_player_id,
            final(self).next_player_id == old(self).next_player_id + 1,
            final(self).players@.len() == old(self).players@.len() + 1,
            final(self).players@.drop_last() == old(self).players@,
            final(self).players@.last() == (Player {
                id: r,
                name: name,
                team_id: team_id,
                position: position,
                points: 0,
                price: price,
                is_playing: false,
            }),
            !has_team(old(self).teams@, team_id) ==> final(self).teams@ == old(self).teams@,
            has_team(old(self).teams@, team_id) ==> {
                let i = team_idx(old(self).teams@, team_id);
                &&& final(self).teams@.len() == old(self).teams@.len()
                &&& forall|j: int|
                    0 <= j < old(self).teams@.len() && j != i ==> final(self).teams@[j] == old(
                        self,
                    ).teams@[j]
                &&& final(self).teams@[i].id == old(self).teams@[i].id
                &&& final(self).teams@[i].name == old(self).teams@[i].name
                &&& final(self).teams@[i].short_name == old(self).teams@[i].short_name
                &&& final(self).teams@[i].players@ == old(self).teams@[i].players@.push(
                    final(self).players@.last(),
                )
            },
            final(self).tournaments@ == old(self).tournaments@,
            final(self).matches@ == old(self).matches@,
            final(self).next_tournament_id == old(self).next_tournament_id,
            final(self).next_team_id == old(self).next_team_id,
            final(self).next_match_id == old(self).next_match_id,
    {
        let id = self.next_player_id;
        self.next_player_id = id + 1;
        let player = Player { id, name, team_id, position, points: 0, price, is_playing: false };
        let copy = player.clone();
        self.players.push(player);
        proof {
            assert(self.players@.drop_last() =~= old(self).players@);
        }
        match self.find_team(team_id) {
            None => {},
            Some(i) => {
                proof {
                    assert(team_idx(self.teams@, team_id) == i);
                }
                let mut t = self.teams.remove(i);
                t.players.push(copy);
                self.teams.insert(i, t);
                proof {
                    assert(self.teams@ =~= old(self).teams@.update(
                        i as int,
                        self.teams@[i as int],
                    ));
                }
            },
        }
        id
    }

    /// The position of the player with this id, if present.
    fn find_player(&self, id: u64) -> (r: Option<usize>)
        ensures
            match r {
                Some(i) => i < self.players@.len() && self.players@[i as int].id == id,
                None => !has_player(self.players@, id),
            },
    {
        let mut i: usize = 0;
        #[verifier::loop_isolation(false)]
        while i < self.players.len()
            invariant
                i <= self.players@.len(),
                forall|j: int| 0 <= j < i ==> self.players@[j].id != id,
            decreases self.players@.len() - i,
        {
            if self.players[i].id == id {
                return Some(i);
            }
            i += 1;
        }
        None
    }

    /// Look a player up by id.
    pub fn get_player(&self, player_id: u64) -> (r: Option<&Player>)
        requires
            self.wf(),
        ensures
            match r {
                Some(p) => has_player(self.players@, player_id) && *p == self.players@[player_idx(
                    self.players@,
                    player_id,
                )],
                None => !has_player(self.players@, player_id),
            },
    {
        match self.find_player(player_id) {
            Some(i) => {
                proof {
                    assert(self.players@[player_idx(self.players@, player_id)].id == player_id);
                }
                Some(&self.players[i])
            },
            None => None,
        }
    }

    /// The catalog players registered to one team, in creation order.
    pub fn get_players_by_team(&self, team_id: u64) -> (r: Vec<&Player>)
        ensures
            r@.map_values(|p: &Player| *p) == self.players@.filter(
                |p: Player| p.team_id == team_id,
            ),
    {
        let ghost pred = |p: Player| p.team_id == team_id;
        let mut out: Vec<&Player> = Vec::new();
        let mut i: usize = 0;
        #[verifier::loop_isolation(false)]
        while i < self.players.len()
            invariant
                i <= self.players@.len(),
                out@.map_values(|p: &Player| *p) == self.players@.take(i as int).filter(pred),
            decreases self.players@.len() - i,
        {
            proof {
                let s = self.players@;
                assert(s.take(i + 1) =~= s.take(i as int).push(s[i as int]));
                s.take(i as int).lemma_filter_push(s[i as int], pred);
            }
            let ghost prev = out@.map_values(|p: &Player| *p);
            if self.players[i].team_id == team_id {
                out.push(&self.players[i]);
                proof {
                    assert(out@.map_values(|p: &Player| *p) =~= prev.push(
                        self.players@[i as int],
                    ));
                }
            }
            i += 1;
        }
        proof {
            assert(self.players@.take(self.players@.len() as int) =~= self.players@);
        }
        out
    }

    /// The catalog players of one field position, in creation order.
    pub fn get_players_by_position(&self, position: PlayerPosition) -> (r: Vec<&Player>)
        ensures
            r@.map_values(|p: &Player| *p) == self.players@.filter(
                |p: Player| p.position == position,
            ),
    {
        let ghost pred = |p: Player| p.position == position;
        let mut out: Vec<&Player> = Vec::new();
        let mut i: usize = 0;
        #[verifier::loop_isolation(false)]
        while i < self.players.len()
            invariant
                i <= self.players@.len(),
                out@.map_values(|p: &Player| *p) == self.players@.take(i as int).filter(pred),
            decreases self.players@.len() - i,
        {
            proof {
                let s = self.players@;
                assert(s.take(i + 1) =~= s.take(i as int).push(s[i as int]));
                s.take(i as int).lemma_filter_push(s[i as int], pred);
            }
            let ghost prev = out@.map_values(|p: &Player| *p);
            if self.players[i].position == position {
                out.push(&self.players[i]);
                proof {
                    assert(out@.map_values(|p: &Player| *p) =~= prev.push(
                        self.players@[i as int],
                    ));
                }
            }
            i += 1;
        }
        proof {
            assert(self.players@.take(self.players@.len() as int) =~= self.players@);
        }
        out
    }

    /// Overwrite a player's current points (tenths of a point). Fails
    /// `PlayerNotFound` if absent.
    pub fn update_player_points(&mut self, player_id: u64, points: i64) -> (r: Result<
        (),
        FantasyError,
    >)
        requires
            old(self).wf(),
        ensures
            final(self).wf(),
            final(self).tournaments@ == old(self).tournaments@,
            final(self).teams@ == old(self).teams@,
            final(self).matches@ == old(self).matches@,
            final(self).next_tournament_id == old(self).next_tournament_id,
            final(self).next_team_id == old(self).next_team_id,
            final(self).next_player_id == old(self).next_player_id,
            final(self).next_match_id == old(self).next_match_id,
            !has_player(old(self).players@, player_id) ==> r == Err::<(), FantasyError>(
                FantasyError::PlayerNotFound,
            ) && final(self).players@ == old(self).players@,
            has_player(old(self).players@, player_id) ==> r == Ok::<(), FantasyError>(()) && {
                let i = player_idx(old(self).players@, player_id);
                final(self).players@ == old(self).players@.update(
                    i,
                    (Player { points: points, ..old(self).players@[i] }),
                )
            },
    {
        match self.find_player(player_id) {
            None => Err(FantasyError::PlayerNotFound),
            Some(i) => {
                proof {
                    assert(player_idx(self.players@, player_id) == i);
                }
                let mut p = self.players.remove(i);
                p.points = points;
                self.players.insert(i, p);
                proof {
                    assert(self.players@ =~= old(self).players@.update(
                        i as int,
                        self.players@[i as int],
                    ));
                }
                Ok(())
            },
        }
    }

    /// Flip whether a player is in the playing eleven. Fails
    /// `PlayerNotFound` if absent.
    pub fn update_player_playing_status(&mut self, player_id: u64, is_playing: bool) -> (r: Result<
        (),
        FantasyError,
    >)
        requires
            old(self).wf(),
        ensures
            final(self).wf(),
            final(self).tournaments@ == old(self).tournaments@,
            final(self).teams@ == old(self).teams@,
            final(self).matches@ == old(self).matches@,
            final(self).next_tournament_id == old(self).next_tournament_id,
            final(self).next_team_id == old(self).next_team_id,
            final(self).next_player_id == old(self).next_player_id,
            final(self).next_match_id == old(self).next_match_id,
            !has_player(old(self).players@, player_id) ==> r == Err::<(), FantasyError>(
                FantasyError::PlayerNotFound,
            ) && final(self).players@ == old(self).players@,
            has_player(old(self).players@, player_id) ==> r == Ok::<(), FantasyError>(()) && {
                let i = player_idx(old(self).players@, player_id);
                final(self).players@ == old(self).players@.update(
                    i,
                    (Player { is_playing: is_playing, ..old(self).players@[i] }),
                )
            },
    {
        match self.find_player(player_id) {
            None => Err(FantasyError::PlayerNotFound),
            Some(i) => {
                proof {
                    assert(player_idx(self.players@, player_id) == i);
                }
                let mut p = self.players.remove(i);
                p.is_playing = is_playing;
                self.players.insert(i, p);
                proof {
                    assert(self.players@ =~= old(self).players@.update(
                        i as int,
                        self.players@[i as int],
                    ));
                }
                Ok(())
            },
        }
    }

    /// Every catalog player, in creation order.
    pub fn get_all_players(&self) -> (r: &Vec<Player>)
        ensures
            r@ == self.players@,
    {
        &self.players
    }

    /// Schedule a match (and list it in its tournament when the tournament
    /// exists); returns the fresh match id.
    pub fn create_match(
        &mut self,
        tournament_id: u64,
        team1_id: u64,
        team2_id: u64,
        start_time: u64,
    ) -> (r: u64)
        requires
            old(self).wf(),
            old(self).next_match_id < u64::MAX,
        ensures
            final(self).wf(),
            r == old(self).next_match_id,
            final(self).next_match_id == old(self).next_match_id + 1,
            final(self).matches@.len() == old(self).matches@.len() + 1,
            final(self).matches@.drop_last() == old(self).matches@,
            final(self).matches@.last() == (Match {
                id: r,
                tournament_id: tournament_id,
                team1_id: team1_id,
                team2_id: team2_id,
                start_time: start_time,
                status: MatchStatus::Scheduled,
                score: None,
            }),
            !has_tournament(old(self).tournaments@, tournament_id) ==> final(self).tournaments@
                == old(self).tournaments@,
            has_tournament(old(self).tournaments@, tournament_id) ==> {
                let i = tournament_idx(old(self).tournaments@, tournament_id);
                &&& final(self).tournaments@.len() == old(self).tournaments@.len()
                &&& forall|j: int|
                    0 <= j < old(self).tournaments@.len() && j != i ==> final(self).tournaments@[j]
                        == old(self).tournaments@[j]
                &&& final(self).tournaments@[i].id == old(self).tournaments@[i].id
                &&& final(self).tournaments@[i].name == old(self).tournaments@[i].name
                &&& final(self).tournaments@[i].sport == old(self).tournaments@[i].sport
                &&& final(self).tournaments@[i].start_time == old(self).tournaments@[i].start_time
                &&& final(self).tournaments@[i].end_time == old(self).tournaments@[i].end_time
                &&& final(self).tournaments@[i].status == old(self).tournaments@[i].status
                &&& final(self).tournaments@[i].teams@ == old(self).tournaments@[i].teams@
                &&& final(self).tournaments@[i].matches@ == old(
                    self,
                ).tournaments@[i].matches@.push(final(self).matches@.last())
            },
            final(self).teams@ == old(self).teams@,
            final(self).players@ == old(self).players@,
            final(self).next_tournament_id == old(self).next_tournament_id,
            final(self).next_team_id == old(self).next_team_id,
            final(self).next_player_id == old(self).next_player_id,
    {
        let id = self.next_match_id;
        self.next_match_id = id + 1;
        let m = Match {
            id,
            tournament_id,
            team1_id,
            team2_id,
            start_time,
            status: MatchStatus::Scheduled,
            score: None,
        };
        let copy = m.clone();
        self.matches.push(m);
        proof {
            assert(self.matches@.drop_last() =~= old(self).matches@);
        }
        match self.find_tournament(tournament_id) {
            None => {},
            Some(i) => {
                proof {
                    assert(tournament_idx(self.tournaments@, tournament_id) == i);
                }
                let mut t = self.tournaments.remove(i);
                t.matches.push(copy);
                self.tournaments.insert(i, t);
                proof {
                    assert(self.tournaments@ =~= old(self).tournaments@.update(
                        i as int,
                        self.tournaments@[i as int],
                    ));
                }
            },
        }
        id
    }

    /// The position of the match with this id, if present.
    fn find_match(&self, id: u64) -> (r: Option<usize>)
        ensures
            match r {
                Some(i) => i < self.matches@.len() && self.matches@[i as int].id == id,
                None => !has_match(self.matches@, id),
            },
    {
        let mut i: usize = 0;
        #[verifier::loop_isolation(false)]
        while i < self.matches.len()
            invariant
                i <= self.matches@.len(),
                forall|j: int| 0 <= j < i ==> self.matches@[j].id != id,
            decreases self.matches@.len() - i,
        {
            if self.matches[i].id == id {
                return Some(i);
            }
            i += 1;
        }
        None
    }

    /// Look a match up by id.
    pub fn get_match(&self, match_id: u64) -> (r: Option<&Match>)
        requires
            self.wf(),
        ensures
            match r {
                Some(m) => has_match(self.matches@, match_id) && *m == self.matches@[match_idx(
                    self.matches@,
                    match_id,
                )],
                None => !has_match(self.matches@, match_id),
            },
    {
        match self.find_match(match_id) {
            Some(i) => {
                proof {
                    assert(self.matches@[match_idx(self.matches@, match_id)].id == match_id);
                }
                Some(&self.matches[i])
            },
            None => None,
        }
    }

    /// The matches scheduled inside one tournament, in creation order.
    pub fn get_matches_by_tournament(&self, tournament_id: u64) -> (r: Vec<&Match>)
        ensures
            r@.map_values(|m: &Match| *m) == self.matches@.filter(
                |m: Match| m.tournament_id == tournament_id,
            ),
    {
        let ghost pred = |m: Match| m.tournament_id == tournament_id;
        let mut out: Vec<&Match> = Vec::new();
        let mut i: usize = 0;
        #[verifier::loop_isolation(false)]
        while i < self.matches.len()
            invariant
                i <= self.matches@.len(),
                out@.map_values(|m: &Match| *m) == self.matches@.take(i as int).filter(pred),
            decreases self.matches@.len() - i,
        {
            proof {
                let s = self.matches@;
                assert(s.take(i + 1) =~= s.take(i as int).push(s[i as int]));
                s.take(i as int).lemma_filter_push(s[i as int], pred);
            }
            let ghost prev = out@.map_values(|m: &Match| *m);
            if self.matches[i].tournament_id == tournament_id {
                out.push(&self.matches[i]);
                proof {
                    assert(out@.map_values(|m: &Match| *m) =~= prev.push(
                        self.matches@[i as int],
                    ));
                }
            }
            i += 1;
        }
        proof {
            assert(self.matches@.take(self.matches@.len() as int) =~= self.matches@);
        }
        out
    }

    /// Set a match's status. Fails `MatchNotFound` if absent.
    pub fn update_match_status(&mut self, match_id: u64, status: MatchStatus) -> (r: Result<
        (),
        FantasyError,
    >)
        requires
            old(self).wf(),
        ensures
            final(self).wf(),
            final(self).tournaments@ == old(self).tournaments@,
            final(self).teams@ == old(self).teams@,
            final(self).players@ == old(self).players@,
            final(self).next_tournament_id == old(self).next_tournament_id,
            final(self).next_team_id == old(self).next_team_id,
            final(self).next_player_id == old(self).next_player_id,
            final(self).next_match_id == old(self).next_match_id,
            !has_match(old(self).matches@, match_id) ==> r == Err::<(), FantasyError>(
                FantasyError::MatchNotFound,
            ) && final(self).matches@ == old(self).matches@,
            has_match(old(self).matches@, match_id) ==> r == Ok::<(), FantasyError>(()) && {
                let i = match_idx(old(self).matches@, match_id);
                final(self).matches@ == old(self).matches@.update(
                    i,
                    (Match { status: status, ..old(self).matches@[i] }),
                )
            },
    {
        match self.find_match(match_id) {
            None => Err(FantasyError::MatchNotFound),
            Some(i) => {
                proof {
                    assert(match_idx(self.matches@, match_id) == i);
                }
                let mut m = self.matches.remove(i);
                m.status = status;
                self.matches.insert(i, m);
                proof {
                    assert(self.matches@ =~= old(self).matches@.update(
                        i as int,
                        self.matches@[i as int],
                    ));
                }
                Ok(())
            },
        }
    }

    /// Attach a scoreline to a match record. Fails `MatchNotFound` if
    /// absent.
    pub fn update_match_score(&mut self, match_id: u64, score: MatchScore) -> (r: Result<
        (),
        FantasyError,
    >)
        requires
            old(self).wf(),
        ensures
            final(self).wf(),
            final(self).tournaments@ == old(self).tournaments@,
            final(self).teams@ == old(self).teams@,
            final(self).players@ == old(self).players@,
            final(self).next_tournament_id == old(self).next_tournament_id,
            final(self).next_team_id == old(self).next_team_id,
            final(self).next_player_id == old(self).next_player_id,
            final(self).next_match_id == old(self).next_match_id,
            !has_match(old(self).matches@, match_id) ==> r == Err::<(), FantasyError>(
                FantasyError::MatchNotFound,
            ) && final(self).matches@ == old(self).matches@,
            has_match(old(self).matches@, match_id) ==> r == Ok::<(), FantasyError>(()) && {
                let i = match_idx(old(self).matches@, match_id);
                final(self).matches@ == old(self).matches@.update(
                    i,
                    (Match { score: Some(score), ..old(self).matches@[i] }),
                )
            },
    {
        match self.find_match(match_id) {
            None => Err(FantasyError::MatchNotFound),
            Some(i) => {
                proof {
                    assert(match_idx(self.matches@, match_id) == i);
                }
                let mut m = self.matches.remove(i);
                m.score = Some(score);
                self.matches.insert(i, m);
                proof {
                    assert(self.matches@ =~= old(self).matches@.update(
                        i as int,
                        self.matches@[i as int],
                    ));
                }
                Ok(())
            },
        }
    }

    /// Enroll a team into a tournament's team list. Fails
    /// `TournamentNotFound` if absent.
    pub fn add_team_to_tournament(&mut self, tournament_id: u64, team: Team) -> (r: Result<
        (),
        FantasyError,
    >)
        requires
            old(self).wf(),
        ensures
            final(self).wf(),
            final(self).teams@ == old(self).teams@,
            final(self).players@ == old(self).players@,
            final(self).matches@ == old(self).matches@,
            final(self).next_tournament_id == old(self).next_tournament_id,
            final(self).next_team_id == old(self).next_team_id,
            final(self).next_player_id == old(self).next_player_id,
            final(self).next_match_id == old(self).next_match_id,
            !has_tournament(old(self).tournaments@, tournament_id) ==> r == Err::<
                (),
                FantasyError,
            >(FantasyError::TournamentNotFound) && final(self).tournaments@ == old(
                self,
            ).tournaments@,
            has_tournament(old(self).tournaments@, tournament_id) ==> r == Ok::<(), FantasyError>(
                (),
            ) && {
                let i = tournament_idx(old(self).tournaments@, tournament_id);
                &&& final(self).tournaments@.len() == old(self).tournaments@.len()
                &&& forall|j: int|
                    0 <= j < old(self).tournaments@.len() && j != i ==> final(self).tournaments@[j]
                        == old(self).tournaments@[j]
                &&& final(self).tournaments@[i].id == old(self).tournaments@[i].id
                &&& final(self).tournaments@[i].name == old(self).tournaments@[i].name
                &&& final(self).tournaments@[i].sport == old(self).tournaments@[i].sport
                &&& final(self).tournaments@[i].start_time == old(self).tournaments@[i].start_time
                &&& final(self).tournaments@[i].end_time == old(self).tournaments@[i].end_time
                &&& final(self).tournaments@[i].status == old(self).tournaments@[i].status
                &&& final(self).tournaments@[i].matches@ == old(self).tournaments@[i].matches@
                &&& final(self).tournaments@[i].teams@ == old(self).tournaments@[i].teams@.push(
                    team,
                )
            },
    {
        match self.find_tournament(tournament_id) {
            None => Err(FantasyError::TournamentNotFound),
            Some(i) => {
                proof {
                    assert(tournament_idx(self.tournaments@, tournament_id) == i);
                }
                let mut t = self.tournaments.remove(i);
                t.teams.push(team);
                self.tournaments.insert(i, t);
                proof {
                    assert(self.tournaments@ =~= old(self).tournaments@.update(
                        i as int,
                        self.tournaments@[i as int],
                    ));
                }
                Ok(())
            },
        }
    }

    /// The teams enrolled in one tournament. Fails `TournamentNotFound` if
    /// absent.
    pub fn get_tournament_teams(&self, tournament_id: u64) -> (r: Result<&Vec<Team>, FantasyError>)
        requires
            self.wf(),
        ensures
            match r {
                Ok(ts) => has_tournament(self.tournaments@, tournament_id) && ts@
                    == self.tournaments@[tournament_idx(self.tournaments@, tournament_id)].teams@,
                Err(e) => e == FantasyError::TournamentNotFound && !has_tournament(
                    self.tournaments@,
                    tournament_id,
                ),
            },
    {
        match self.find_tournament(tournament_id) {
            None => Err(FantasyError::TournamentNotFound),
            Some(i) => {
                proof {
                    assert(tournament_idx(self.tournaments@, tournament_id) == i);
                }
                Ok(&self.tournaments[i].teams)
            },
        }
    }

    /// How many matches exist.
    pub fn get_match_count(&self) -> (r: u64)
        ensures
            r == self.matches@.len(),
    {
        self.matches.len() as u64
    }

    /// The matches currently live, in creation order.
    pub fn get_live_matches(&self) -> (r: Vec<&Match>)
        ensures
            r@.map_values(|m: &Match| *m) == self.matches@.filter(
                |m: Match| m.status == MatchStatus::Live,
            ),
    {
        let ghost pred = |m: Match| m.status == MatchStatus::Live;
        let mut out: Vec<&Match> = Vec::new();
        let mut i: usize = 0;
        #[verifier::loop_isolation(false)]
        while i < self.matches.len()
            invariant
                i <= self.matches@.len(),
                out@.map_values(|m: &Match| *m) == self.matches@.take(i as int).filter(pred),
            decreases self.matches@.len() - i,
        {
            proof {
                let s = self.matches@;
                assert(s.take(i + 1) =~= s.take(i as int).push(s[i as int]));
                s.take(i as int).lemma_filter_push(s[i as int], pred);
            }
            let ghost prev = out@.map_values(|m: &Match| *m);
            if self.matches[i].status == MatchStatus::Live {
                out.push(&self.matches[i]);
                proof {
                    assert(out@.map_values(|m: &Match| *m) =~= prev.push(
                        self.matches@[i as int],
                    ));
                }
            }
            i += 1;
        }
        proof {
            assert(self.matches@.take(self.matches@.len() as int) =~= self.matches@);
        }
        out
    }

    /// The matches still scheduled, in creation order.
    pub fn get_upcoming_matches(&self) -> (r: Vec<&Match>)
        ensures
            r@.map_values(|m: &Match| *m) == self.matches@.filter(
                |m: Match| m.status == MatchStatus::Scheduled,
            ),
    {
        let ghost pred = |m: Match| m.status == MatchStatus::Scheduled;
        let mut out: Vec<&Match> = Vec::new();
        let mut i: usize = 0;
        #[verifier::loop_isolation(false)]
        while i < self.matches.len()
            invariant
                i <= self.matches@.len(),
                out@.map_values(|m: &Match| *m) == self.matches@.take(i as int).filter(pred),
            decreases self.matches@.len() - i,
        {
            proof {
                let s = self.matches@;
                assert(s.take(i + 1) =~= s.take(i as int).push(s[i as int]));
                s.take(i as int).lemma_filter_push(s[i as int], pred);
            }
            let ghost prev = out@.map_values(|m: &Match| *m);
            if self.matches[i].status == MatchStatus::Scheduled {
                out.push(&self.matches[i]);
                proof {
                    assert(out@.map_values(|m: &Match| *m) =~= prev.push(
                        self.matches@[i as int],
                    ));
                }
            }
            i += 1;
        }
        proof {
            assert(self.matches@.take(self.matches@.len() as int) =~= self.matches@);
        }
        out
    }
}

} // verus!
