//! The fantasy team validator and store.
//!
//! A fantasy team is a user-assembled roster of catalog player ids with a
//! designated captain and vice-captain. Creation enforces the composition
//! constraints: exact roster size, captain and vice-captain membership, and
//! the salary cap over resolved catalog prices (an unresolved player id
//! costs zero — the catalog is not consulted for existence).

use vstd::prelude::*;
use vstd::pervasive::VecAdditionalExecFns;
use crate::catalog::Player;
use crate::catalog::has_player;
use crate::catalog::player_idx;
use crate::errors::FantasyError;

verus! {

/// Required roster size, upper bound.
pub const MAX_TEAM_SIZE: u32 = 11;

/// Required roster size, lower bound.
pub const MIN_TEAM_SIZE: u32 = 11;

/// Salary cap: the highest allowed sum of player prices, in tokens.
pub const MAX_TEAM_PRICE: u64 = 100;

/// Salary floor: the lowest allowed sum of player prices, in tokens.
pub const MIN_TEAM_PRICE: u64 = 80;

/// A user-assembled roster snapshot. `total_points` is in hundredths of a
/// point; `total_price` in tokens.
pub struct FantasyTeam {
    pub id: u64,
    pub name: String,
    pub captain_id: u64,
    pub vice_captain_id: u64,
    pub players: Vec<u64>,
    pub total_points: i128,
    pub total_price: u64,
}

/// Two fantasy team values carry the same data.
pub open spec fn team_matches(a: FantasyTeam, b: FantasyTeam) -> bool {
    &&& a.id == b.id
    &&& a.name == b.name
    &&& a.captain_id == b.captain_id
    &&& a.vice_captain_id == b.vice_captain_id
    &&& a.players@ == b.players@
    &&& a.total_points == b.total_points
    &&& a.total_price == b.total_price
}

impl Clone for FantasyTeam {
    /// Clones carry the same data.
    fn clone(&self) -> (r: Self)
        ensures
            team_matches(*self, r),
    {
        FantasyTeam {
            id: self.id,
            name: self.name.clone(),
            captain_id: self.captain_id,
            vice_captain_id: self.vice_captain_id,
            players: self.players.clone(),
            total_points: self.total_points,
            total_price: self.total_price,
        }
    }
}

/// Catalog player ids are pairwise distinct.
pub open spec fn players_unique(ps: Seq<Player>) -> bool {
    forall|i: int, j: int| 0 <= i < j < ps.len() ==> ps[i].id != ps[j].id
}

/// The catalog price of one player id; an unresolved id costs zero.
pub open spec fn price_of(ps: Seq<Player>, id: u64) -> int {
    if has_player(ps, id) {
        ps[player_idx(ps, id)].price as int
    } else {
        0
    }
}

/// The summed catalog price of a roster, in tokens.
pub open spec fn roster_price(ps: Seq<Player>, ids: Seq<u64>) -> int
    decreases ids.len(),
{
    if ids.len() == 0 {
        0
    } else {
        roster_price(ps, ids.drop_last()) + price_of(ps, ids.last())
    }
}

/// There is a fantasy team with this id.
pub open spec fn has_fantasy_team(ts: Seq<FantasyTeam>, id: u64) -> bool {
    exists|i: int| 0 <= i < ts.len() && ts[i].id == id
}

/// The index of the fantasy team with this id.
pub open spec fn fantasy_team_idx(ts: Seq<FantasyTeam>, id: u64) -> int {
    choose|i: int| 0 <= i < ts.len() && ts[i].id == id
}

/// The fantasy team ids one user has created, in creation order.
pub struct UserTeams {
    pub user_id: u64,
    pub team_ids: Vec<u64>,
}

/// There is an index row for this user.
pub open spec fn has_user_teams(rows: Seq<UserTeams>, user_id: u64) -> bool {
    exists|i: int| 0 <= i < rows.len() && rows[i].user_id == user_id
}

/// The index row of this user.
pub open spec fn user_teams_idx(rows: Seq<UserTeams>, user_id: u64) -> int {
    choose|i: int| 0 <= i < rows.len() && rows[i].user_id == user_id
}

/// The fantasy team tables: the team arena and the per-user ownership
/// index.
pub struct FantasyTeamStore {
    pub fantasy_teams: Vec<FantasyTeam>,
    pub user_fantasy_teams: Vec<UserTeams>,
    pub next_fantasy_team_id: u64,
}

impl FantasyTeamStore {
    /// Table invariant: team ids are unique and below the counter; index
    /// rows have unique user keys and list only existing team ids.
    pub open spec fn wf(self) -> bool {
        &&& forall|i: int, j: int|
            0 <= i < j < self.fantasy_teams@.len() ==> self.fantasy_teams@[i].id
                != self.fantasy_teams@[j].id
        &&& forall|i: int|
            0 <= i < self.fantasy_teams@.len() ==> self.fantasy_teams@[i].id
                < self.next_fantasy_team_id
        &&& forall|i: int, j: int|
            0 <= i < j < self.user_fantasy_teams@.len() ==> self.user_fantasy_teams@[i].user_id
                != self.user_fantasy_teams@[j].user_id
        &&& forall|i: int, k: int|
            0 <= i < self.user_fantasy_teams@.len() && 0 <= k
                < self.user_fantasy_teams@[i].team_ids@.len() ==> has_fantasy_team(
                self.fantasy_teams@,
                #[trigger] self.user_fantasy_teams@[i].team_ids@[k],
            )
    }

    /// An empty store.
    pub fn new() -> (r: Self)
        ensures
            r.wf(),
            r.fantasy_teams@ =~= Seq::<FantasyTeam>::empty(),
            r.user_fantasy_teams@ =~= Seq::<UserTeams>::empty(),
            r.next_fantasy_team_id == 0,
    {
        FantasyTeamStore {
            fantasy_teams: Vec::new(),
            user_fantasy_teams: Vec::new(),
            next_fantasy_team_id: 0,
        }
    }

    /// Validate and create a fantasy team for the calling identity.
    ///
    /// Fails `RosterSizeInvalid` unless exactly the required number of
    /// player ids is given; then `CaptainNotInRoster` unless both captain
    /// and vice-captain are listed; then `SalaryCapViolation` unless the
    /// summed catalog price lies within the cap. On success the team is
    /// stored with zero points and its id appended to the caller's index
    /// row; on failure nothing changes.
    pub fn create_fantasy_team(
        &mut self,
        players: &Vec<Player>,
        caller: u64,
        name: String,
        captain_id: u64,
        vice_captain_id: u64,
        player_ids: Vec<u64>,
    ) -> (r: Result<u64, FantasyError>)
        requires
            old(self).wf(),
            players_unique(players@),
            old(self).next_fantasy_team_id < u64::MAX,
        ensures
            final(self).wf(),
            player_ids@.len() != MAX_TEAM_SIZE ==> r == Err::<u64, FantasyError>(
                FantasyError::RosterSizeInvalid,
            ) && *final(self) == *old(self),
            player_ids@.len() == MAX_TEAM_SIZE && !(player_ids@.contains(captain_id)
                && player_ids@.contains(vice_captain_id)) ==> r == Err::<u64, FantasyError>(
                FantasyError::CaptainNotInRoster,
            ) && *final(self) == *old(self),
            player_ids@.len() == MAX_TEAM_SIZE && player_ids@.contains(captain_id)
                && player_ids@.contains(vice_captain_id) && !(MIN_TEAM_PRICE <= roster_price(
                players@,
                player_ids@,
            ) <= MAX_TEAM_PRICE) ==> r == Err::<u64, FantasyError>(
                FantasyError::SalaryCapViolation,
            ) && *final(self) == *old(self),
            player_ids@.len() == MAX_TEAM_SIZE && player_ids@.contains(captain_id)
                && player_ids@.contains(vice_captain_id) && MIN_TEAM_PRICE <= roster_price(
                players@,
                player_ids@,
            ) <= MAX_TEAM_PRICE ==> {
                let id = old(self).next_fantasy_team_id;
                &&& r == Ok::<u64, FantasyError>(id)
                &&& final(self).next_fantasy_team_id == id + 1
                &&& final(self).fantasy_teams@.len() == old(self).fantasy_teams@.len() + 1
                &&& final(self).fantasy_teams@.drop_last() == old(self).fantasy_teams@
                &&& ({
                    let t = final(self).fantasy_teams@.last();
                    t.id == id && t.name == name && t.captain_id == captain_id
                        && t.vice_captain_id == vice_captain_id && t.players@ == player_ids@
                        && t.total_points == 0 && t.total_price == roster_price(
                        players@,
                        player_ids@,
                    )
                })
                &&& (!has_user_teams(old(self).user_fantasy_teams@, caller) ==> {
                    &&& final(self).user_fantasy_teams@.len() == old(
                        self,
                    ).user_fantasy_teams@.len() + 1
                    &&& final(self).user_fantasy_teams@.drop_last() == old(
                        self,
                    ).user_fantasy_teams@
                    &&& final(self).user_fantasy_teams@.last().user_id == caller
                    &&& final(self).user_fantasy_teams@.last().team_ids@ == seq![id]
                })
                &&& (has_user_teams(old(self).user_fantasy_teams@, caller) ==> {
                    let u = user_teams_idx(old(self).user_fantasy_teams@, caller);
                    &&& final(self).user_fantasy_teams@.len() == old(
                        self,
                    ).user_fantasy_teams@.len()
                    &&& forall|j: int|
                        0 <= j < old(self).user_fantasy_teams@.len() && j != u ==> final(self).user_fantasy_teams@[j] == old(self).user_fantasy_teams@[j]
                    &&& final(self).user_fantasy_teams@[u].user_id == caller
                    &&& final(self).user_fantasy_teams@[u].team_ids@ == old(
                        self,
                    ).user_fantasy_teams@[u].team_ids@.push(id)
                })
            },
    {
        if player_ids.len() != MAX_TEAM_SIZE as usize {
            return Err(FantasyError::RosterSizeInvalid);
        }
        if !contains_id(&player_ids, captain_id) || !contains_id(&player_ids, vice_captain_id) {
            return Err(FantasyError::CaptainNotInRoster);
        }
        let ghost ps = players@;
        let mut total: u128 = 0;
        let mut k: usize = 0;
        #[verifier::loop_isolation(false)]
        while k < player_ids.len()
            invariant
                k <= player_ids@.len(),
                total == roster_price(ps, player_ids@.take(k as int)),
                total <= (k as int) * (u64::MAX as int),
            decreases player_ids@.len() - k,
        {
            let pid = player_ids[k];
            let price: u64 = match find_player_in(players, pid) {
                Some(i) => {
                    proof {
                        assert(player_idx(ps, pid) == i);
                    }
                    players[i].price
                },
                None => 0,
            };
            proof {
                assert(price as int == price_of(ps, pid));
                assert(player_ids@.take(k + 1).drop_last() =~= player_ids@.take(k as int));
                assert(player_ids@.take(k + 1).last() == pid);
            }
            total = total + (price as u128);
            k += 1;
        }
        proof {
            assert(player_ids@.take(player_ids@.len() as int) =~= player_ids@);
        }
        if total > MAX_TEAM_PRICE as u128 || total < MIN_TEAM_PRICE as u128 {
            return Err(FantasyError::SalaryCapViolation);
        }
        let id = self.next_fantasy_team_id;
        self.next_fantasy_team_id = id + 1;
        let team = FantasyTeam {
            id,
            name,
            captain_id,
            vice_captain_id,
            players: player_ids,
            total_points: 0,
            total_price: total as u64,
        };
        self.fantasy_teams.push(team);
        proof {
            assert(self.fantasy_teams@.drop_last() =~= old(self).fantasy_teams@);
        }
        let mut i: usize = 0;
        let mut row: Option<usize> = None;
        #[verifier::loop_isolation(false)]
        while i < self.user_fantasy_teams.len() && row.is_none()
            invariant
                i <= self.user_fantasy_teams@.len(),
                match row {
                    Some(k2) => k2 < self.user_fantasy_teams@.len()
                        && self.user_fantasy_teams@[k2 as int].user_id == caller,
                    None => forall|j: int|
                        0 <= j < i ==> self.user_fantasy_teams@[j].user_id != caller,
                },
            decreases self.user_fantasy_teams@.len() - i, (if row is None { 1int } else { 0int }),
        {
            if self.user_fantasy_teams[i].user_id == caller {
                row = Some(i);
            } else {
                i += 1;
            }
        }
        match row {
            None => {
                let mut ids: Vec<u64> = Vec::new();
                ids.push(id);
                self.user_fantasy_teams.push(UserTeams { user_id: caller, team_ids: ids });
                proof {
                    assert(self.user_fantasy_teams@.drop_last() =~= old(self).user_fantasy_teams@);
                    assert(self.user_fantasy_teams@.last().team_ids@ =~= seq![id]);
                }
            },
            Some(u) => {
                proof {
                    assert(self.user_fantasy_teams@[u as int].user_id == caller);
                    assert(has_user_teams(self.user_fantasy_teams@, caller));
                    assert(user_teams_idx(self.user_fantasy_teams@, caller) == u);
                }
                let mut r2 = self.user_fantasy_teams.remove(u);
                r2.team_ids.push(id);
                self.user_fantasy_teams.insert(u, r2);
                proof {
                    assert(self.user_fantasy_teams@ =~= old(self).user_fantasy_teams@.update(
                        u as int,
                        self.user_fantasy_teams@[u as int],
                    ));
                }
            },
        }
        proof {
            let tn = self.fantasy_teams@;
            let to = old(self).fantasy_teams@;
            assert forall|x: u64| has_fantasy_team(to, x) implies has_fantasy_team(tn, x) by {
                let w = choose|w: int| 0 <= w < to.len() && to[w].id == x;
                assert(tn[w] == to[w]);
            };
            assert(tn.last().id == id);
            assert(has_fantasy_team(tn, id));
        }
        Ok(id)
    }

    /// The position of the fantasy team with this id, if present.
    fn find_fantasy_team(&self, id: u64) -> (r: Option<usize>)
        ensures
            match r {
                Some(i) => i < self.fantasy_teams@.len() && self.fantasy_teams@[i as int].id == id,
                None => !has_fantasy_team(self.fantasy_teams@, id),
            },
    {
        let mut i: usize = 0;
        #[verifier::loop_isolation(false)]
        while i < self.fantasy_teams.len()
            invariant
                i <= self.fantasy_teams@.len(),
                forall|j: int| 0 <= j < i ==> self.fantasy_teams@[j].id != id,
            decreases self.fantasy_teams@.len() - i,
        {
            if self.fantasy_teams[i].id == id {
                return Some(i);
            }
            i += 1;
        }
        None
    }

    /// Look a fantasy team up by id.
    pub fn get_fantasy_team(&self, team_id: u64) -> (r: Option<&FantasyTeam>)
        requires
            self.wf(),
        ensures
            match r {
                Some(t) => has_fantasy_team(self.fantasy_teams@, team_id) && *t
                    == self.fantasy_teams@[fantasy_team_idx(self.fantasy_teams@, team_id)],
                None => !has_fantasy_team(self.fantasy_teams@, team_id),
            },
    {
        match self.find_fantasy_team(team_id) {
            Some(i) => {
                proof {
                    assert(self.fantasy_teams@[fantasy_team_idx(self.fantasy_teams@, team_id)].id
                        == team_id);
                }
                Some(&self.fantasy_teams[i])
            },
            None => None,
        }
    }

    /// The fantasy teams one user has created, in creation order; a user
    /// with no index row has none.
    pub fn get_user_fantasy_teams(&self, user_id: u64) -> (r: Vec<&FantasyTeam>)
        requires
            self.wf(),
        ensures
            !has_user_teams(self.user_fantasy_teams@, user_id) ==> r@.len() == 0,
            has_user_teams(self.user_fantasy_teams@, user_id) ==> {
                let ids = self.user_fantasy_teams@[user_teams_idx(
                    self.user_fantasy_teams@,
                    user_id,
                )].team_ids@;
                &&& r@.len() == ids.len()
                &&& forall|k: int|
                    0 <= k < ids.len() ==> *#[trigger] r@[k] == self.fantasy_teams@[
                        fantasy_team_idx(self.fantasy_teams@, ids[k])]
            },
    {
        let mut row: Option<usize> = None;
        let mut i: usize = 0;
        #[verifier::loop_isolation(false)]
        while i < self.user_fantasy_teams.len() && row.is_none()
            invariant
                i <= self.user_fantasy_teams@.len(),
                match row {
                    Some(k2) => k2 < self.user_fantasy_teams@.len()
                        && self.user_fantasy_teams@[k2 as int].user_id == user_id,
                    None => forall|j: int|
                        0 <= j < i ==> self.user_fantasy_teams@[j].user_id != user_id,
                },
            decreases self.user_fantasy_teams@.len() - i, (if row is None { 1int } else { 0int }),
        {
            if self.user_fantasy_teams[i].user_id == user_id {
                row = Some(i);
            } else {
                i += 1;
            }
        }
        let mut out: Vec<&FantasyTeam> = Vec::new();
        match row {
            None => out,
            Some(u) => {
                proof {
                    assert(has_user_teams(self.user_fantasy_teams@, user_id));
                    assert(user_teams_idx(self.user_fantasy_teams@, user_id) == u);
                }
                let ids = &self.user_fantasy_teams[u].team_ids;
                let mut k: usize = 0;
                #[verifier::loop_isolation(false)]
                while k < ids.len()
                    invariant
                        k <= ids@.len(),
                        out@.len() == k,
                        forall|j: int|
                            0 <= j < k ==> *#[trigger] out@[j] == self.fantasy_teams@[
                                fantasy_team_idx(self.fantasy_teams@, ids@[j])],
                    decreases ids@.len() - k,
                {
                    let tid = ids[k];
                    match self.find_fantasy_team(tid) {
                        Some(ti) => {
                            proof {
                                assert(fantasy_team_idx(self.fantasy_teams@, tid) == ti);
                            }
                            out.push(&self.fantasy_teams[ti]);
                        },
                        None => {
                            proof {
                                assert(has_fantasy_team(self.fantasy_teams@, ids@[k as int]));
                                assert(false);
                            }
                        },
                    }
                    k += 1;
                }
                out
            },
        }
    }
}

/// Whether a list of ids contains this id.
pub(crate) fn contains_id(ids: &Vec<u64>, x: u64) -> (r: bool)
    ensures
        r == ids@.contains(x),
{
    let mut i: usize = 0;
    #[verifier::loop_isolation(false)]
    while i < ids.len()
        invariant
            i <= ids@.len(),
            forall|j: int| 0 <= j < i ==> ids@[j] != x,
        decreases ids@.len() - i,
    {
        if ids[i] == x {
            proof {
                assert(ids@.contains(x));
            }
            return true;
        }
        i += 1;
    }
    false
}

/// The position of a player id inside a catalog player table, if present.
fn find_player_in(players: &Vec<Player>, id: u64) -> (r: Option<usize>)
    ensures
        match r {
            Some(i) => i < players@.len() && players@[i as int].id == id,
            None => !has_player(players@, id),
        },
{
    let mut i: usize = 0;
    #[verifier::loop_isolation(false)]
    while i < players.len()
        invariant
            i <= players@.len(),
            forall|j: int| 0 <= j < i ==> players@[j].id != id,
        decreases players@.len() - i,
    {
        if players[i].id == id {
            return Some(i);
        }
        i += 1;
    }
    None
}

} // verus!
