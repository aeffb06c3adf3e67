//! The contest lifecycle manager: contest state, entry admission,
//! capacity and uniqueness enforcement, and ranking on finalization.
//!
//! A contest walks `Open -> Full -> Live -> Completed`, with `Open|Full ->
//! Cancelled` as an escape; the status field is set explicitly by the
//! status-update operation, except that joining fills the last spot, which
//! flips `Open` to `Full` atomically with the spot count. Two secondary
//! indices — identity to joined contest ids, and contest to entry ids — are
//! kept transactionally consistent with the entry table inside each call.
//! Entry points are in hundredths of a point.

use vstd::prelude::*;
use vstd::pervasive::VecAdditionalExecFns;
use crate::errors::FantasyError;
use crate::fantasy::FantasyTeam;
use crate::fantasy::FantasyTeamStore;
use crate::fantasy::team_matches;
use crate::fantasy::has_fantasy_team;
use crate::fantasy::fantasy_team_idx;
use crate::fantasy::contains_id;
use crate::users::UserProfile;
use crate::users::UserStore;
use crate::users::has_user;
use crate::users::user_idx;

verus! {

/// Payout shape of a contest.
#[derive(Clone, Copy, PartialEq, Eq, Structural, Debug)]
pub enum ContestType {
    HeadToHead,
    MultiPlayer,
    Guaranteed,
    WinnerTakesAll,
}

/// Lifecycle state of a contest. `Completed` and `Cancelled` are terminal.
#[derive(Clone, Copy, PartialEq, Eq, Structural, Debug)]
pub enum ContestStatus {
    Open,
    Full,
    Live,
    Completed,
    Cancelled,
}

/// A paid competition tied to one match, with fixed capacity.
#[derive(Debug)]
pub struct Contest {
    pub id: u64,
    pub name: String,
    pub match_id: u64,
    pub entry_fee: u64,
    pub total_spots: u32,
    pub filled_spots: u32,
    pub prize_pool: u64,
    pub contest_type: ContestType,
    pub status: ContestStatus,
    pub created_at: u64,
    pub start_time: u64,
}

impl Clone for Contest {
    /// Clones preserve the contest record exactly.
    fn clone(&self) -> (r: Self)
        ensures
            r == *self,
    {
        Contest {
            id: self.id,
            name: self.name.clone(),
            match_id: self.match_id,
            entry_fee: self.entry_fee,
            total_spots: self.total_spots,
            filled_spots: self.filled_spots,
            prize_pool: self.prize_pool,
            contest_type: self.contest_type,
            status: self.status,
            created_at: self.created_at,
            start_time: self.start_time,
        }
    }
}

/// The response envelope specialized to one contest record.
#[derive(Debug)]
pub struct ContestResponse {
    pub success: bool,
    pub data: Option<Contest>,
    pub error: Option<String>,
}

impl ContestResponse {
    /// Fold a contest lookup or mutation result into the envelope.
    pub fn from_result(res: Result<Contest, FantasyError>) -> (r: Self)
        ensures
            r.success == res is Ok,
            res matches Ok(c) ==> r.data == Some(c) && r.error is None,
            res matches Err(e) ==> r.data is None && (r.error matches Some(m) && m@
                == e.message_spec()),
    {
        match res {
            Ok(c) => ContestResponse { success: true, data: Some(c), error: None },
            Err(e) => ContestResponse { success: false, data: None, error: Some(e.message()) },
        }
    }
}

/// One user's participation in one contest, wrapping a team snapshot.
/// `points` is in hundredths of a point; `rank` and `prize` are assigned
/// only by finalization and distribution.
pub struct ContestEntry {
    pub id: u64,
    pub contest_id: u64,
    pub user_id: u64,
    pub team: FantasyTeam,
    pub points: i128,
    pub rank: Option<u32>,
    pub prize: Option<u64>,
    pub created_at: u64,
}

/// The contest ids one identity has joined.
pub struct UserContests {
    pub user_id: u64,
    pub contest_ids: Vec<u64>,
}

/// The entry ids admitted to one contest, in join order.
pub struct ContestEntryIds {
    pub contest_id: u64,
    pub entry_ids: Vec<u64>,
}

/// There is a contest with this id.
pub open spec fn has_contest(cs: Seq<Contest>, id: u64) -> bool {
    exists|i: int| 0 <= i < cs.len() && cs[i].id == id
}

/// The index of the contest with this id.
pub open spec fn contest_idx(cs: Seq<Contest>, id: u64) -> int {
    choose|i: int| 0 <= i < cs.len() && cs[i].id == id
}

/// There is an entry with this id.
pub open spec fn has_entry(es: Seq<ContestEntry>, id: u64) -> bool {
    exists|i: int| 0 <= i < es.len() && es[i].id == id
}

/// The index of the entry with this id.
pub open spec fn entry_idx(es: Seq<ContestEntry>, id: u64) -> int {
    choose|i: int| 0 <= i < es.len() && es[i].id == id
}

/// This identity holds an entry in this contest.
pub open spec fn has_entry_for(es: Seq<ContestEntry>, user_id: u64, contest_id: u64) -> bool {
    exists|i: int|
        0 <= i < es.len() && es[i].user_id == user_id && es[i].contest_id == contest_id
}

/// The membership index lists this contest for this identity.
pub open spec fn user_joined(rows: Seq<UserContests>, user_id: u64, contest_id: u64) -> bool {
    exists|i: int|
        0 <= i < rows.len() && rows[i].user_id == user_id && rows[i].contest_ids@.contains(
            contest_id,
        )
}

/// There is a membership row for this identity.
pub open spec fn has_user_row(rows: Seq<UserContests>, user_id: u64) -> bool {
    exists|i: int| 0 <= i < rows.len() && rows[i].user_id == user_id
}

/// The membership row of this identity.
pub open spec fn user_row_idx(rows: Seq<UserContests>, user_id: u64) -> int {
    choose|i: int| 0 <= i < rows.len() && rows[i].user_id == user_id
}

/// There is an entry-id row for this contest.
pub open spec fn has_contest_row(rows: Seq<ContestEntryIds>, contest_id: u64) -> bool {
    exists|i: int| 0 <= i < rows.len() && rows[i].contest_id == contest_id
}

/// The entry-id row of this contest.
pub open spec fn contest_row_idx(rows: Seq<ContestEntryIds>, contest_id: u64) -> int {
    choose|i: int| 0 <= i < rows.len() && rows[i].contest_id == contest_id
}

/// The entry ids admitted to this contest, in join order; empty when the
/// contest has no row.
pub open spec fn contest_row_ids(rows: Seq<ContestEntryIds>, contest_id: u64) -> Seq<u64> {
    if has_contest_row(rows, contest_id) {
        rows[contest_row_idx(rows, contest_id)].entry_ids@
    } else {
        Seq::<u64>::empty()
    }
}

/// What the team snapshot embedded in an entry holds: the stored fantasy
/// team's data when the given team id resolves, else a placeholder that
/// carries only the requested id with every other field zeroed or empty.
pub open spec fn snapshot_matches(ts: Seq<FantasyTeam>, team_id: u64, t: FantasyTeam) -> bool {
    if has_fantasy_team(ts, team_id) {
        team_matches(ts[fantasy_team_idx(ts, team_id)], t)
    } else {
        t.id == team_id && t.name@ == Seq::<char>::empty() && t.captain_id == 0
            && t.vice_captain_id == 0 && t.players@ == Seq::<u64>::empty() && t.total_points == 0
            && t.total_price == 0
    }
}

/// The contest tables: the contest and entry arenas, the two secondary
/// indices, and the id counters.
pub struct ContestStore {
    pub contests: Vec<Contest>,
    pub entries: Vec<ContestEntry>,
    pub user_contests: Vec<UserContests>,
    pub contest_entries: Vec<ContestEntryIds>,
    pub next_contest_id: u64,
    pub next_entry_id: u64,
}

impl ContestStore {
    /// Contest table invariant: ids unique and below the counter, and no
    /// contest holds more entries than it has spots.
    pub open spec fn contests_ok(self) -> bool {
        &&& forall|i: int, j: int|
            0 <= i < j < self.contests@.len() ==> self.contests@[i].id != self.contests@[j].id
        &&& forall|i: int|
            0 <= i < self.contests@.len() ==> self.contests@[i].id < self.next_contest_id
        &&& forall|i: int|
            0 <= i < self.contests@.len() ==> (#[trigger] self.contests@[i]).filled_spots
                <= self.contests@[i].total_spots
    }

    /// Entry table invariant: ids unique and below the counter, one entry
    /// per (identity, contest) pair, and every entry's contest exists.
    pub open spec fn entries_ok(self) -> bool {
        &&& forall|i: int, j: int|
            0 <= i < j < self.entries@.len() ==> self.entries@[i].id != self.entries@[j].id
        &&& forall|i: int|
            0 <= i < self.entries@.len() ==> self.entries@[i].id < self.next_entry_id
        &&& forall|i: int, j: int|
            0 <= i < j < self.entries@.len() ==> !(self.entries@[i].user_id
                == self.entries@[j].user_id && self.entries@[i].contest_id
                == self.entries@[j].contest_id)
        &&& forall|i: int|
            0 <= i < self.entries@.len() ==> has_contest(
                self.contests@,
                (#[trigger] self.entries@[i]).contest_id,
            )
    }

    /// Membership index invariant: one row per identity, and the index
    /// lists exactly the (identity, contest) pairs that hold an entry.
    pub open spec fn user_index_ok(self) -> bool {
        &&& forall|i: int, j: int|
            0 <= i < j < self.user_contests@.len() ==> self.user_contests@[i].user_id
                != self.user_contests@[j].user_id
        &&& forall|u: u64, c: u64|
            user_joined(self.user_contests@, u, c) <==> has_entry_for(self.entries@, u, c)
    }

    /// Entry-id index invariant: one row per contest, rows only for
    /// existing contests, each row lists distinct existing entry ids of its
    /// own contest, every entry is listed in its contest's row, and each
    /// contest's row length equals its filled spot count.
    pub open spec fn contest_index_ok(self) -> bool {
        &&& forall|i: int, j: int|
            0 <= i < j < self.contest_entries@.len() ==> self.contest_entries@[i].contest_id
                != self.contest_entries@[j].contest_id
        &&& forall|i: int|
            0 <= i < self.contest_entries@.len() ==> has_contest(
                self.contests@,
                (#[trigger] self.contest_entries@[i]).contest_id,
            )
        &&& forall|i: int, k: int|
            0 <= i < self.contest_entries@.len() && 0 <= k
                < self.contest_entries@[i].entry_ids@.len() ==> has_entry(
                self.entries@,
                #[trigger] self.contest_entries@[i].entry_ids@[k],
            ) && self.entries@[entry_idx(
                self.entries@,
                self.contest_entries@[i].entry_ids@[k],
            )].contest_id == self.contest_entries@[i].contest_id
        &&& forall|i: int, k1: int, k2: int|
            0 <= i < self.contest_entries@.len() && 0 <= k1 < k2
                < self.contest_entries@[i].entry_ids@.len() ==> #[trigger] self.contest_entries@[
                i].entry_ids@[k1] != #[trigger] self.contest_entries@[i].entry_ids@[k2]
        &&& forall|j: int|
            0 <= j < self.entries@.len() ==> has_contest_row(
                self.contest_entries@,
                (#[trigger] self.entries@[j]).contest_id,
            ) && contest_row_ids(self.contest_entries@, self.entries@[j].contest_id).contains(
                self.entries@[j].id,
            )
        &&& forall|i: int|
            0 <= i < self.contests@.len() ==> has_contest_row(
                self.contest_entries@,
                (#[trigger] self.contests@[i]).id,
            ) && contest_row_ids(self.contest_entries@, self.contests@[i].id).len()
                == self.contests@[i].filled_spots
    }

    /// The whole-store invariant.
    pub open spec fn wf(self) -> bool {
        self.contests_ok() && self.entries_ok() && self.user_index_ok()
            && self.contest_index_ok()
    }

    /// An empty store.
    pub fn new() -> (r: Self)
        ensures
            r.wf(),
            r.contests@ =~= Seq::<Contest>::empty(),
            r.entries@ =~= Seq::<ContestEntry>::empty(),
            r.user_contests@ =~= Seq::<UserContests>::empty(),
            r.contest_entries@ =~= Seq::<ContestEntryIds>::empty(),
            r.next_contest_id == 0,
            r.next_entry_id == 0,
    {
        ContestStore {
            contests: Vec::new(),
            entries: Vec::new(),
            user_contests: Vec::new(),
            contest_entries: Vec::new(),
            next_contest_id: 0,
            next_entry_id: 0,
        }
    }

    /// Open a contest with no entries and an empty entry-id row; returns
    /// its fresh id.
    pub fn create_contest(
        &mut self,
        name: String,
        match_id: u64,
        entry_fee: u64,
        total_spots: u32,
        prize_pool: u64,
        contest_type: ContestType,
        now: u64,
        start_time: u64,
    ) -> (r: u64)
        requires
            old(self).wf(),
            old(self).next_contest_id < u64::MAX,
        ensures
            final(self).wf(),
            r == old(self).next_contest_id,
            final(self).next_contest_id == old(self).next_contest_id + 1,
            final(self).next_entry_id == old(self).next_entry_id,
            final(self).entries@ == old(self).entries@,
            final(self).user_contests@ == old(self).user_contests@,
            final(self).contests@.len() == old(self).contests@.len() + 1,
            final(self).contests@.drop_last() == old(self).contests@,
            final(self).contests@.last() == (Contest {
                id: r,
                name: name,
                match_id: match_id,
                entry_fee: entry_fee,
                total_spots: total_spots,
                filled_spots: 0,
                prize_pool: prize_pool,
                contest_type: contest_type,
                status: ContestStatus::Open,
                created_at: now,
                start_time: start_time,
            }),
            final(self).contest_entries@.len() == old(self).contest_entries@.len() + 1,
            final(self).contest_entries@.drop_last() == old(self).contest_entries@,
            final(self).contest_entries@.last().contest_id == r,
            final(self).contest_entries@.last().entry_ids@ == Seq::<u64>::empty(),
    {
        let id = self.next_contest_id;
        self.next_contest_id = id + 1;
        let c = Contest {
            id,
            name,
            match_id,
            entry_fee,
            total_spots,
            filled_spots: 0,
            prize_pool,
            contest_type,
            status: ContestStatus::Open,
            created_at: now,
            start_time,
        };
        self.contests.push(c);
        self.contest_entries.push(ContestEntryIds { contest_id: id, entry_ids: Vec::new() });
        proof {
            assert(self.contests@.drop_last() =~= old(self).contests@);
            assert(self.contest_entries@.drop_last() =~= old(self).contest_entries@);
            let cn = self.contests@;
            let rn = self.contest_entries@;
            assert forall|x: u64| has_contest(old(self).contests@, x) implies has_contest(cn, x) by {
                let w = choose|w: int|
                    0 <= w < old(self).contests@.len() && old(self).contests@[w].id == x;
                assert(cn[w] == old(self).contests@[w]);
            };
            assert forall|x: u64|
                has_contest_row(old(self).contest_entries@, x) implies has_contest_row(rn, x) by {
                let w = choose|w: int|
                    0 <= w < old(self).contest_entries@.len()
                        && old(self).contest_entries@[w].contest_id == x;
                assert(rn[w] == old(self).contest_entries@[w]);
            };
            assert forall|x: u64|
                has_contest_row(old(self).contest_entries@, x) implies contest_row_ids(rn, x)
                    == contest_row_ids(old(self).contest_entries@, x) by {
                let w = contest_row_idx(old(self).contest_entries@, x);
                assert(rn[w] == old(self).contest_entries@[w]);
                assert(contest_row_idx(rn, x) == w);
            };
            assert(cn[cn.len() - 1].id == id);
            assert(has_contest(cn, id));
            assert(rn[rn.len() - 1].contest_id == id);
            assert(has_contest_row(rn, id));
            assert(contest_row_idx(rn, id) == rn.len() - 1);
            assert(contest_row_ids(rn, id).len() == 0);
        }
        id
    }

    /// The position of the contest with this id, if present.
    fn find_contest(&self, id: u64) -> (r: Option<usize>)
        ensures
            match r {
                Some(i) => i < self.contests@.len() && self.contests@[i as int].id == id,
                None => !has_contest(self.contests@, id),
            },
    {
        let mut i: usize = 0;
        #[verifier::loop_isolation(false)]
        while i < self.contests.len()
            invariant
                i <= self.contests@.len(),
                forall|j: int| 0 <= j < i ==> self.contests@[j].id != id,
            decreases self.contests@.len() - i,
        {
            if self.contests[i].id == id {
                return Some(i);
            }
            i += 1;
        }
        None
    }

    /// The position of the entry with this id, if present.
    fn find_entry(&self, id: u64) -> (r: Option<usize>)
        ensures
            match r {
                Some(i) => i < self.entries@.len() && self.entries@[i as int].id == id,
                None => !has_entry(self.entries@, id),
            },
    {
        let mut i: usize = 0;
        #[verifier::loop_isolation(false)]
        while i < self.entries.len()
            invariant
                i <= self.entries@.len(),
                forall|j: int| 0 <= j < i ==> self.entries@[j].id != id,
            decreases self.entries@.len() - i,
        {
            if self.entries[i].id == id {
                return Some(i);
            }
            i += 1;
        }
        None
    }

    /// Look a contest up by id.
    pub fn get_contest(&self, contest_id: u64) -> (r: Option<&Contest>)
        requires
            self.wf(),
        ensures
            match r {
                Some(c) => has_contest(self.contests@, contest_id) && *c
                    == self.contests@[contest_idx(self.contests@, contest_id)],
                None => !has_contest(self.contests@, contest_id),
            },
    {
        match self.find_contest(contest_id) {
            Some(i) => {
                proof {
                    assert(contest_idx(self.contests@, contest_id) == i);
                }
                Some(&self.contests[i])
            },
            None => None,
        }
    }

    /// The contests tied to one match, in creation order.
    pub fn get_contests_by_match(&self, match_id: u64) -> (r: Vec<&Contest>)
        ensures
            r@.map_values(|c: &Contest| *c) == self.contests@.filter(
                |c: Contest| c.match_id == match_id,
            ),
    {
        let ghost pred = |c: Contest| c.match_id == match_id;
        let mut out: Vec<&Contest> = Vec::new();
        let mut i: usize = 0;
        #[verifier::loop_isolation(false)]
        while i < self.contests.len()
            invariant
                i <= self.contests@.len(),
                out@.map_values(|c: &Contest| *c) == self.contests@.take(i as int).filter(pred),
            decreases self.contests@.len() - i,
        {
            proof {
                let s = self.contests@;
                assert(s.take(i + 1) =~= s.take(i as int).push(s[i as int]));
                s.take(i as int).lemma_filter_push(s[i as int], pred);
            }
            let ghost prev = out@.map_values(|c: &Contest| *c);
            if self.contests[i].match_id == match_id {
                out.push(&self.contests[i]);
                proof {
                    assert(out@.map_values(|c: &Contest| *c) =~= prev.push(
                        self.contests@[i as int],
                    ));
                }
            }
            i += 1;
        }
        proof {
            assert(self.contests@.take(self.contests@.len() as int) =~= self.contests@);
        }
        out
    }

    /// The contests still open for entries, in creation order.
    pub fn get_open_contests(&self) -> (r: Vec<&Contest>)
        ensures
            r@.map_values(|c: &Contest| *c) == self.contests@.filter(
                |c: Contest| c.status == ContestStatus::Open,
            ),
    {
        let ghost pred = |c: Contest| c.status == ContestStatus::Open;
        let mut out: Vec<&Contest> = Vec::new();
        let mut i: usize = 0;
        #[verifier::loop_isolation(false)]
        while i < self.contests.len()
            invariant
                i <= self.contests@.len(),
                out@.map_values(|c: &Contest| *c) == self.contests@.take(i as int).filter(pred),
            decreases self.contests@.len() - i,
        {
            proof {
                let s = self.contests@;
                assert(s.take(i + 1) =~= s.take(i as int).push(s[i as int]));
                s.take(i as int).lemma_filter_push(s[i as int], pred);
            }
            let ghost prev = out@.map_values(|c: &Contest| *c);
            if self.contests[i].status == ContestStatus::Open {
                out.push(&self.contests[i]);
                proof {
                    assert(out@.map_values(|c: &Contest| *c) =~= prev.push(
                        self.contests@[i as int],
                    ));
                }
            }
            i += 1;
        }
        proof {
            assert(self.contests@.take(self.contests@.len() as int) =~= self.contests@);
        }
        out
    }

    /// The entries admitted to one contest, in join order; a contest with
    /// no entry-id row has none.
    pub fn get_contest_entries(&self, contest_id: u64) -> (r: Vec<&ContestEntry>)
        requires
            self.wf(),
        ensures
            r@.len() == contest_row_ids(self.contest_entries@, contest_id).len(),
            forall|k: int|
                0 <= k < r@.len() ==> *#[trigger] r@[k] == self.entries@[entry_idx(
                    self.entries@,
                    contest_row_ids(self.contest_entries@, contest_id)[k],
                )],
    {
        let mut row: Option<usize> = None;
        let mut i: usize = 0;
        #[verifier::loop_isolation(false)]
        while i < self.contest_entries.len() && row.is_none()
            invariant
                i <= self.contest_entries@.len(),
                match row {
                    Some(k2) => k2 < self.contest_entries@.len()
                        && self.contest_entries@[k2 as int].contest_id == contest_id,
                    None => forall|j: int|
                        0 <= j < i ==> self.contest_entries@[j].contest_id != contest_id,
                },
            decreases self.contest_entries@.len() - i, (if row is None { 1int } else { 0int }),
        {
            if self.contest_entries[i].contest_id == contest_id {
                row = Some(i);
            } else {
                i += 1;
            }
        }
        let mut out: Vec<&ContestEntry> = Vec::new();
        match row {
            None => {
                proof {
                    assert(!has_contest_row(self.contest_entries@, contest_id));
                }
                out
            },
            Some(u) => {
                proof {
                    assert(has_contest_row(self.contest_entries@, contest_id));
                    assert(contest_row_idx(self.contest_entries@, contest_id) == u);
                }
                let ids = &self.contest_entries[u].entry_ids;
                let mut k: usize = 0;
                #[verifier::loop_isolation(false)]
                while k < ids.len()
                    invariant
                        k <= ids@.len(),
                        out@.len() == k,
                        forall|j: int|
                            0 <= j < k ==> *#[trigger] out@[j] == self.entries@[entry_idx(
                                self.entries@,
                                ids@[j],
                            )],
                    decreases ids@.len() - k,
                {
                    let eid = ids[k];
                    match self.find_entry(eid) {
                        Some(ei) => {
                            proof {
                                assert(entry_idx(self.entries@, eid) == ei);
                            }
                            out.push(&self.entries[ei]);
                        },
                        None => {
                            proof {
                                assert(has_entry(self.entries@, ids@[k as int]));
                                assert(false);
                            }
                        },
                    }
                    k += 1;
                }
                out
            },
        }
    }

    /// The entries one identity holds, in entry-table order.
    pub fn get_user_contest_entries(&self, user_id: u64) -> (r: Vec<&ContestEntry>)
        ensures
            r@.map_values(|e: &ContestEntry| *e) == self.entries@.filter(
                |e: ContestEntry| e.user_id == user_id,
            ),
    {
        let ghost pred = |e: ContestEntry| e.user_id == user_id;
        let mut out: Vec<&ContestEntry> = Vec::new();
        let mut i: usize = 0;
        #[verifier::loop_isolation(false)]
        while i < self.entries.len()
            invariant
                i <= self.entries@.len(),
                out@.map_values(|e: &ContestEntry| *e) == self.entries@.take(i as int).filter(
                    pred,
                ),
            decreases self.entries@.len() - i,
        {
            proof {
                let s = self.entries@;
                assert(s.take(i + 1) =~= s.take(i as int).push(s[i as int]));
                s.take(i as int).lemma_filter_push(s[i as int], pred);
            }
            let ghost prev = out@.map_values(|e: &ContestEntry| *e);
            if self.entries[i].user_id == user_id {
                out.push(&self.entries[i]);
                proof {
                    assert(out@.map_values(|e: &ContestEntry| *e) =~= prev.push(
                        self.entries@[i as int],
                    ));
                }
            }
            i += 1;
        }
        proof {
            assert(self.entries@.take(self.entries@.len() as int) =~= self.entries@);
        }
        out
    }

    /// Set a contest's status explicitly (the authorized status-update
    /// operation). Fails `ContestNotFound` if absent.
    pub fn update_contest_status(&mut self, contest_id: u64, status: ContestStatus) -> (r: Result<
        (),
        FantasyError,
    >)
        requires
            old(self).wf(),
        ensures
            final(self).wf(),
            final(self).entries@ == old(self).entries@,
            final(self).user_contests@ == old(self).user_contests@,
            final(self).contest_entries@ == old(self).contest_entries@,
            final(self).next_contest_id == old(self).next_contest_id,
            final(self).next_entry_id == old(self).next_entry_id,
            !has_contest(old(self).contests@, contest_id) ==> r == Err::<(), FantasyError>(
                FantasyError::ContestNotFound,
            ) && final(self).contests@ == old(self).contests@,
            has_contest(old(self).contests@, contest_id) ==> r == Ok::<(), FantasyError>(()) && {
                let i = contest_idx(old(self).contests@, contest_id);
                final(self).contests@ == old(self).contests@.update(
                    i,
                    (Contest { status: status, ..old(self).contests@[i] }),
                )
            },
    {
        match self.find_contest(contest_id) {
            None => Err(FantasyError::ContestNotFound),
            Some(i) => {
                proof {
                    assert(contest_idx(self.contests@, contest_id) == i);
                }
                let mut c = self.contests.remove(i);
                c.status = status;
                self.contests.insert(i, c);
                proof {
                    assert(self.contests@ =~= old(self).contests@.update(
                        i as int,
                        self.contests@[i as int],
                    ));
                    assert forall|x: u64|
                        has_contest(old(self).contests@, x) implies has_contest(
                        self.contests@,
                        x,
                    ) by {
                        let w = choose|w: int|
                            0 <= w < old(self).contests@.len() && old(self).contests@[w].id == x;
                        assert(self.contests@[w].id == x);
                    };
                }
                Ok(())
            },
        }
    }

    /// Overwrite an entry's points (hundredths of a point) — the explicit
    /// score-sync step. Fails `EntryNotFound` if absent.
    pub fn update_entry_points(&mut self, entry_id: u64, points: i128) -> (r: Result<
        (),
        FantasyError,
    >)
        requires
            old(self).wf(),
        ensures
            final(self).wf(),
            final(self).contests@ == old(self).contests@,
            final(self).user_contests@ == old(self).user_contests@,
            final(self).contest_entries@ == old(self).contest_entries@,
            final(self).next_contest_id == old(self).next_contest_id,
            final(self).next_entry_id == old(self).next_entry_id,
            !has_entry(old(self).entries@, entry_id) ==> r == Err::<(), FantasyError>(
                FantasyError::EntryNotFound,
            ) && final(self).entries@ == old(self).entries@,
            has_entry(old(self).entries@, entry_id) ==> r == Ok::<(), FantasyError>(()) && {
                let i = entry_idx(old(self).entries@, entry_id);
                let e = old(self).entries@[i];
                &&& final(self).entries@.len() == old(self).entries@.len()
                &&& forall|j: int|
                    0 <= j < old(self).entries@.len() && j != i ==> final(self).entries@[j]
                        == old(self).entries@[j]
                &&& final(self).entries@[i].id == e.id
                &&& final(self).entries@[i].contest_id == e.contest_id
                &&& final(self).entries@[i].user_id == e.user_id
                &&& final(self).entries@[i].team == e.team
                &&& final(self).entries@[i].points == points
                &&& final(self).entries@[i].rank == e.rank
                &&& final(self).entries@[i].prize == e.prize
                &&& final(self).entries@[i].created_at == e.created_at
            },
    {
        match self.find_entry(entry_id) {
            None => Err(FantasyError::EntryNotFound),
            Some(i) => {
                proof {
                    assert(entry_idx(self.entries@, entry_id) == i);
                }
                let mut e = self.entries.remove(i);
                e.points = points;
                self.entries.insert(i, e);
                proof {
                    assert(self.entries@ =~= old(self).entries@.update(
                        i as int,
                        self.entries@[i as int],
                    ));
                    lemma_entry_tables_match(old(self).entries@, self.entries@);
                }
                Ok(())
            },
        }
    }

    /// The position of the membership row of this identity, if present.
    fn find_user_row(&self, user_id: u64) -> (r: Option<usize>)
        ensures
            match r {
                Some(i) => i < self.user_contests@.len()
                    && self.user_contests@[i as int].user_id == user_id,
                None => !has_user_row(self.user_contests@, user_id),
            },
    {
        let mut i: usize = 0;
        #[verifier::loop_isolation(false)]
        while i < self.user_contests.len()
            invariant
                i <= self.user_contests@.len(),
                forall|j: int| 0 <= j < i ==> self.user_contests@[j].user_id != user_id,
            decreases self.user_contests@.len() - i,
        {
            if self.user_contests[i].user_id == user_id {
                return Some(i);
            }
            i += 1;
        }
        None
    }

    /// The position of the entry-id row of this contest, if present.
    fn find_contest_row(&self, contest_id: u64) -> (r: Option<usize>)
        ensures
            match r {
                Some(i) => i < self.contest_entries@.len()
                    && self.contest_entries@[i as int].contest_id == contest_id,
                None => !has_contest_row(self.contest_entries@, contest_id),
            },
    {
        let mut i: usize = 0;
        #[verifier::loop_isolation(false)]
        while i < self.contest_entries.len()
            invariant
                i <= self.contest_entries@.len(),
                forall|j: int| 0 <= j < i ==> self.contest_entries@[j].contest_id != contest_id,
            decreases self.contest_entries@.len() - i,
        {
            if self.contest_entries[i].contest_id == contest_id {
                return Some(i);
            }
            i += 1;
        }
        None
    }

    /// Admit the calling identity into a contest with the given fantasy
    /// team; returns the fresh entry id.
    ///
    /// The admission checks run in order: `ContestNotFound`; `ContestFull`
    /// for a contest already marked `Full`; `ContestNotOpen` for any other
    /// status than `Open`; `ContestFull` when no spot is free;
    /// `AlreadyJoined` when the caller holds an entry (read
    /// from the membership index), and only then is the entry fee debited —
    /// capacity is reserved before payment is attempted — failing
    /// `InsufficientBalance` when the caller has no account or too small a
    /// balance. On success, atomically within this call: the fee is
    /// debited, an entry with zero points and the team snapshot is
    /// appended, the contest's filled spot count grows by one — flipping
    /// the status to `Full` exactly when the spots are exhausted — and both
    /// indices are extended. On failure nothing changes.
    #[verifier::rlimit(100)]
    pub fn join_contest(
        &mut self,
        users: &mut UserStore,
        teams: &FantasyTeamStore,
        caller: u64,
        contest_id: u64,
        fantasy_team_id: u64,
        now: u64,
    ) -> (r: Result<u64, FantasyError>)
        requires
            old(self).wf(),
            old(users).wf(),
            teams.wf(),
            old(self).next_entry_id < u64::MAX,
        ensures
            final(self).wf(),
            final(users).wf(),
            final(users).notifications@ == old(users).notifications@,
            final(users).next_notification_id == old(users).next_notification_id,
            final(self).next_contest_id == old(self).next_contest_id,
            r is Err ==> *final(self) == *old(self) && final(users).users@ == old(users).users@,
            !has_contest(old(self).contests@, contest_id) ==> r == Err::<u64, FantasyError>(
                FantasyError::ContestNotFound,
            ),
            ({
                let cs = old(self).contests@;
                let ci = contest_idx(cs, contest_id);
                let c = cs[ci];
                let can_pay = has_user(old(users).users@, caller) && old(users).users@[user_idx(
                    old(users).users@,
                    caller,
                )].balance >= c.entry_fee;
                &&& (has_contest(cs, contest_id) && c.status == ContestStatus::Full ==> r
                    == Err::<u64, FantasyError>(FantasyError::ContestFull))
                &&& (has_contest(cs, contest_id) && c.status != ContestStatus::Full && c.status
                    != ContestStatus::Open ==> r == Err::<u64, FantasyError>(
                    FantasyError::ContestNotOpen,
                ))
                &&& (has_contest(cs, contest_id) && c.status == ContestStatus::Open
                    && c.filled_spots >= c.total_spots ==> r == Err::<u64, FantasyError>(
                    FantasyError::ContestFull,
                ))
                &&& (has_contest(cs, contest_id) && c.status == ContestStatus::Open
                    && c.filled_spots < c.total_spots && has_entry_for(
                    old(self).entries@,
                    caller,
                    contest_id,
                ) ==> r == Err::<u64, FantasyError>(FantasyError::AlreadyJoined))
                &&& (has_contest(cs, contest_id) && c.status == ContestStatus::Open
                    && c.filled_spots < c.total_spots && !has_entry_for(
                    old(self).entries@,
                    caller,
                    contest_id,
                ) && !can_pay ==> r == Err::<u64, FantasyError>(FantasyError::InsufficientBalance))
                &&& (has_contest(cs, contest_id) && c.status == ContestStatus::Open
                    && c.filled_spots < c.total_spots && !has_entry_for(
                    old(self).entries@,
                    caller,
                    contest_id,
                ) && can_pay ==> {
                    let eid = old(self).next_entry_id;
                    let ui = user_idx(old(users).users@, caller);
                    let p = old(users).users@[ui];
                    &&& r == Ok::<u64, FantasyError>(eid)
                    &&& final(self).next_entry_id == eid + 1
                    &&& final(users).users@ == old(users).users@.update(
                        ui,
                        (UserProfile {
                            balance: (p.balance - c.entry_fee) as u64,
                            updated_at: now,
                            ..p
                        }),
                    )
                    &&& final(self).entries@.len() == old(self).entries@.len() + 1
                    &&& final(self).entries@.drop_last() == old(self).entries@
                    &&& ({
                        let e = final(self).entries@.last();
                        e.id == eid && e.contest_id == contest_id && e.user_id == caller
                            && e.points == 0 && e.rank is None && e.prize is None && e.created_at
                            == now && snapshot_matches(
                            teams.fantasy_teams@,
                            fantasy_team_id,
                            e.team,
                        )
                    })
                    &&& final(self).contests@ == cs.update(
                        ci,
                        (Contest {
                            filled_spots: (c.filled_spots + 1) as u32,
                            status: if c.filled_spots + 1 >= c.total_spots {
                                ContestStatus::Full
                            } else {
                                ContestStatus::Open
                            },
                            ..c
                        }),
                    )
                    &&& (!has_user_row(old(self).user_contests@, caller) ==> {
                        &&& final(self).user_contests@.len() == old(self).user_contests@.len() + 1
                        &&& final(self).user_contests@.drop_last() == old(self).user_contests@
                        &&& final(self).user_contests@.last().user_id == caller
                        &&& final(self).user_contests@.last().contest_ids@ == seq![contest_id]
                    })
                    &&& (has_user_row(old(self).user_contests@, caller) ==> {
                        let u = user_row_idx(old(self).user_contests@, caller);
                        &&& final(self).user_contests@.len() == old(self).user_contests@.len()
                        &&& forall|j: int|
                            0 <= j < old(self).user_contests@.len() && j != u ==> final(self).user_contests@[j] == old(self).user_contests@[j]
                        &&& final(self).user_contests@[u].user_id == caller
                        &&& final(self).user_contests@[u].contest_ids@ == old(
                            self,
                        ).user_contests@[u].contest_ids@.push(contest_id)
                    })
                    &&& ({
                        let w = contest_row_idx(old(self).contest_entries@, contest_id);
                        &&& final(self).contest_entries@.len() == old(
                            self,
                        ).contest_entries@.len()
                        &&& forall|j: int|
                            0 <= j < old(self).contest_entries@.len() && j != w ==> final(self).contest_entries@[j] == old(self).contest_entries@[j]
                        &&& final(self).contest_entries@[w].contest_id == contest_id
                        &&& final(self).contest_entries@[w].entry_ids@ == old(
                            self,
                        ).contest_entries@[w].entry_ids@.push(eid)
                    })
                })
            }),
    {
        let ci = match self.find_contest(contest_id) {
            None => {
                return Err(FantasyError::ContestNotFound);
            },
            Some(i) => i,
        };
        proof {
            assert(contest_idx(self.contests@, contest_id) == ci);
        }
        if self.contests[ci].status == ContestStatus::Full {
            return Err(FantasyError::ContestFull);
        }
        if self.contests[ci].status != ContestStatus::Open {
            return Err(FantasyError::ContestNotOpen);
        }
        if self.contests[ci].filled_spots >= self.contests[ci].total_spots {
            return Err(FantasyError::ContestFull);
        }
        let urow = self.find_user_row(caller);
        let joined = match urow {
            Some(u) => contains_id(&self.user_contests[u].contest_ids, contest_id),
            None => false,
        };
        if joined {
            proof {
                let u = urow.unwrap() as int;
                assert(self.user_contests@[u].user_id == caller);
                assert(self.user_contests@[u].contest_ids@.contains(contest_id));
                assert(user_joined(self.user_contests@, caller, contest_id));
                assert(has_entry_for(self.entries@, caller, contest_id));
            }
            return Err(FantasyError::AlreadyJoined);
        }
        proof {
            assert(!user_joined(self.user_contests@, caller, contest_id)) by {
                if user_joined(self.user_contests@, caller, contest_id) {
                    let w = choose|w: int|
                        0 <= w < self.user_contests@.len() && self.user_contests@[w].user_id
                            == caller && self.user_contests@[w].contest_ids@.contains(contest_id);
                    match urow {
                        Some(u) => {
                            assert(w == u as int);
                        },
                        None => {
                            assert(has_user_row(self.user_contests@, caller));
                        },
                    }
                }
            }
            assert(!has_entry_for(self.entries@, caller, contest_id));
        }
        let fee = self.contests[ci].entry_fee;
        match users.deduct_balance(caller, fee, now) {
            Err(_) => {
                return Err(FantasyError::InsufficientBalance);
            },
            Ok(()) => {},
        }
        let team_snapshot = match teams.get_fantasy_team(fantasy_team_id) {
            Some(t) => t.clone(),
            None => FantasyTeam {
                id: fantasy_team_id,
                name: String::new(),
                captain_id: 0,
                vice_captain_id: 0,
                players: Vec::new(),
                total_points: 0,
                total_price: 0,
            },
        };
        proof {
            assert(snapshot_matches(teams.fantasy_teams@, fantasy_team_id, team_snapshot));
        }
        let eid = self.next_entry_id;
        self.next_entry_id = eid + 1;
        let entry = ContestEntry {
            id: eid,
            contest_id,
            user_id: caller,
            team: team_snapshot,
            points: 0,
            rank: None,
            prize: None,
            created_at: now,
        };
        self.entries.push(entry);
        proof {
            assert(self.entries@.drop_last() =~= old(self).entries@);
        }
        let mut c = self.contests.remove(ci);
        c.filled_spots = c.filled_spots + 1;
        if c.filled_spots >= c.total_spots {
            c.status = ContestStatus::Full;
        }
        self.contests.insert(ci, c);
        proof {
            assert(self.contests@ =~= old(self).contests@.update(
                ci as int,
                self.contests@[ci as int],
            ));
        }
        match urow {
            None => {
                let mut ids: Vec<u64> = Vec::new();
                ids.push(contest_id);
                self.user_contests.push(UserContests { user_id: caller, contest_ids: ids });
                proof {
                    assert(self.user_contests@.drop_last() =~= old(self).user_contests@);
                    assert(self.user_contests@.last().contest_ids@ =~= seq![contest_id]);
                }
            },
            Some(u) => {
                proof {
                    assert(has_user_row(self.user_contests@, caller));
                    assert(user_row_idx(self.user_contests@, caller) == u);
                }
                let mut row = self.user_contests.remove(u);
                row.contest_ids.push(contest_id);
                self.user_contests.insert(u, row);
                proof {
                    assert(self.user_contests@ =~= old(self).user_contests@.update(
                        u as int,
                        self.user_contests@[u as int],
                    ));
                }
            },
        }
        let w = match self.find_contest_row(contest_id) {
            Some(w) => w,
            None => {
                proof {
                    assert(has_contest(old(self).contests@, contest_id));
                    assert(has_contest_row(old(self).contest_entries@, contest_id));
                    assert(false);
                }
                0
            },
        };
        proof {
            assert(contest_row_idx(self.contest_entries@, contest_id) == w);
        }
        let mut rw = self.contest_entries.remove(w);
        rw.entry_ids.push(eid);
        self.contest_entries.insert(w, rw);
        proof {
            assert(self.contest_entries@ =~= old(self).contest_entries@.update(
                w as int,
                self.contest_entries@[w as int],
            ));
        }
        proof {
            let co = old(self).contests@;
            let cn = self.contests@;
            let eo = old(self).entries@;
            let en = self.entries@;
            let uo = old(self).user_contests@;
            let un = self.user_contests@;
            let ro = old(self).contest_entries@;
            let rn = self.contest_entries@;
            lemma_contests_update(co, cn, ci as int);
            lemma_entry_push(eo, en, eid);
            lemma_entry_for_after_push(eo, en, caller, contest_id);
            match urow {
                None => {
                    lemma_user_joined_after_push(uo, un, caller, contest_id);
                },
                Some(u) => {
                    lemma_user_joined_after_update(uo, un, u as int, caller, contest_id);
                },
            }
            lemma_contest_rows_update(ro, rn, w as int, contest_id, eid);
            assert(self.contests_ok());
            assert(self.entries_ok()) by {
                assert forall|i: int, j: int|
                    0 <= i < j < en.len() implies !(en[i].user_id == en[j].user_id
                    && en[i].contest_id == en[j].contest_id) by {
                    if j == eo.len() {
                        if en[i].user_id == caller && en[i].contest_id == contest_id {
                            assert(has_entry_for(eo, caller, contest_id));
                        }
                    }
                };
                assert forall|i: int| 0 <= i < en.len() implies has_contest(
                    cn,
                    (#[trigger] en[i]).contest_id,
                ) by {
                    if i < eo.len() {
                        assert(has_contest(co, eo[i].contest_id));
                    } else {
                        assert(cn[ci as int].id == contest_id);
                    }
                };
            }
            assert(self.user_index_ok()) by {
                match urow {
                    None => {
                        assert(forall|j: int|
                            0 <= j < uo.len() ==> uo[j].user_id != caller);
                        assert forall|i: int, j: int|
                            0 <= i < j < un.len() implies un[i].user_id != un[j].user_id by {
                            if j == uo.len() {
                                assert(un[i].user_id == uo[i].user_id);
                            }
                        };
                    },
                    Some(_) => {},
                }
                assert forall|uu: u64, cc: u64|
                    user_joined(un, uu, cc) <==> has_entry_for(en, uu, cc) by {
                    assert(user_joined(un, uu, cc) == (user_joined(uo, uu, cc) || (uu == caller
                        && cc == contest_id)));
                    assert(has_entry_for(en, uu, cc) == (has_entry_for(eo, uu, cc) || (uu
                        == caller && cc == contest_id)));
                    assert(user_joined(uo, uu, cc) == has_entry_for(eo, uu, cc));
                };
            }
            assert(self.contest_index_ok()) by {
                assert(contest_row_ids(ro, contest_id).len() == co[ci as int].filled_spots);
                assert forall|i: int, k: int|
                    0 <= i < rn.len() && 0 <= k < rn[i].entry_ids@.len() implies has_entry(
                    en,
                    #[trigger] rn[i].entry_ids@[k],
                ) && en[entry_idx(en, rn[i].entry_ids@[k])].contest_id == rn[i].contest_id by {
                    if i == w as int && k == rn[i].entry_ids@.len() - 1 {
                        assert(rn[i].entry_ids@[k] == eid);
                        assert(entry_idx(en, eid) == eo.len());
                        assert(en.last().contest_id == contest_id);
                    } else {
                        assert(rn[i].entry_ids@[k] == ro[i].entry_ids@[k]);
                        assert(has_entry(eo, ro[i].entry_ids@[k]));
                        assert(eo[entry_idx(eo, ro[i].entry_ids@[k])].id < eid);
                        assert(entry_idx(en, ro[i].entry_ids@[k]) == entry_idx(
                            eo,
                            ro[i].entry_ids@[k],
                        ));
                        assert(en[entry_idx(eo, ro[i].entry_ids@[k])] == eo[entry_idx(
                            eo,
                            ro[i].entry_ids@[k],
                        )]);
                    }
                };
                assert forall|i: int, k1: int, k2: int|
                    0 <= i < rn.len() && 0 <= k1 < k2 < rn[i].entry_ids@.len() implies #[trigger] rn[
                    i].entry_ids@[k1] != #[trigger] rn[i].entry_ids@[k2] by {
                    if i == w as int && k2 == rn[i].entry_ids@.len() - 1 {
                        assert(rn[i].entry_ids@[k1] == ro[i].entry_ids@[k1]);
                        assert(has_entry(eo, ro[i].entry_ids@[k1]));
                        assert(eo[entry_idx(eo, ro[i].entry_ids@[k1])].id < eid);
                    }
                };
                assert forall|j: int| 0 <= j < en.len() implies has_contest_row(
                    rn,
                    (#[trigger] en[j]).contest_id,
                ) && contest_row_ids(rn, en[j].contest_id).contains(en[j].id) by {
                    if j < eo.len() {
                        assert(has_contest_row(ro, eo[j].contest_id));
                        if eo[j].contest_id == contest_id {
                            let ids_o = contest_row_ids(ro, contest_id);
                            let kk = choose|kk: int|
                                0 <= kk < ids_o.len() && ids_o[kk] == eo[j].id;
                            assert(contest_row_ids(rn, contest_id)[kk] == eo[j].id);
                        } else {
                            assert(contest_row_ids(rn, eo[j].contest_id) == contest_row_ids(
                                ro,
                                eo[j].contest_id,
                            ));
                        }
                    } else {
                        let ids_n = contest_row_ids(rn, contest_id);
                        assert(ids_n[ids_n.len() - 1] == eid);
                    }
                };
                assert forall|i: int| 0 <= i < cn.len() implies has_contest_row(
                    rn,
                    (#[trigger] cn[i]).id,
                ) && contest_row_ids(rn, cn[i].id).len() == cn[i].filled_spots by {
                    assert(cn[i].id == co[i].id);
                    assert(has_contest_row(ro, co[i].id));
                    if i == ci as int {
                        assert(cn[i].filled_spots == co[i].filled_spots + 1);
                        assert(contest_row_ids(rn, contest_id).len() == contest_row_ids(
                            ro,
                            contest_id,
                        ).len() + 1);
                    } else {
                        assert(co[i].id != contest_id);
                        assert(contest_row_ids(rn, co[i].id) == contest_row_ids(ro, co[i].id));
                        assert(cn[i].filled_spots == co[i].filled_spots);
                    }
                };
            }
        }
        Ok(eid)
    }

    /// Rank a contest's entries and complete the contest.
    ///
    /// Fails `NoEntries` when the contest has no entries (in particular for
    /// an unknown contest id), changing nothing. Otherwise the entries are
    /// ordered by points descending — ties keep their join order, the
    /// stable tie-break — every ranked entry gets rank = position + 1, the
    /// contest's status becomes `Completed`, and the entry ids are returned
    /// in rank order. Re-invocation after changed scores re-sorts and
    /// re-ranks; callers sequence it once per contest lifecycle.
    #[verifier::rlimit(100)]
    pub fn finalize_contest(&mut self, contest_id: u64) -> (r: Result<Vec<u64>, FantasyError>)
        requires
            old(self).wf(),
        ensures
            final(self).wf(),
            final(self).user_contests@ == old(self).user_contests@,
            final(self).contest_entries@ == old(self).contest_entries@,
            final(self).next_contest_id == old(self).next_contest_id,
            final(self).next_entry_id == old(self).next_entry_id,
            contest_row_ids(old(self).contest_entries@, contest_id).len() == 0 ==> r == Err::<
                Vec<u64>,
                FantasyError,
            >(FantasyError::NoEntries) && *final(self) == *old(self),
            contest_row_ids(old(self).contest_entries@, contest_id).len() > 0 ==> {
                let eids = contest_row_ids(old(self).contest_entries@, contest_id);
                let sorted = sort_desc(scored_of(old(self).entries@, eids));
                &&& (r matches Ok(ids) && ids@.len() == sorted.len() && (forall|k: int|
                    0 <= k < sorted.len() ==> ids@[k] == sorted[k].id))
                &&& final(self).entries@.len() == old(self).entries@.len()
                &&& (forall|k: int|
                    0 <= k < sorted.len() ==> final(self).entries@[entry_idx(
                        old(self).entries@,
                        (#[trigger] sorted[k]).id,
                    )] == (ContestEntry {
                        rank: Some((k + 1) as u32),
                        ..old(self).entries@[entry_idx(old(self).entries@, sorted[k].id)]
                    }))
                &&& (forall|j: int|
                    0 <= j < old(self).entries@.len() && !scored_has_id(
                        sorted,
                        (#[trigger] old(self).entries@[j]).id,
                    ) ==> final(self).entries@[j] == old(self).entries@[j])
                &&& final(self).contests@ == old(self).contests@.update(
                    contest_idx(old(self).contests@, contest_id),
                    (Contest {
                        status: ContestStatus::Completed,
                        ..old(self).contests@[contest_idx(old(self).contests@, contest_id)]
                    }),
                )
            },
    {
        let ghost eo = self.entries@;
        let rowi = match self.find_contest_row(contest_id) {
            None => {
                proof {
                    assert(contest_row_ids(self.contest_entries@, contest_id)
                        =~= Seq::<u64>::empty());
                }
                return Err(FantasyError::NoEntries);
            },
            Some(w) => w,
        };
        proof {
            assert(contest_row_idx(self.contest_entries@, contest_id) == rowi);
        }
        if self.contest_entries[rowi].entry_ids.len() == 0 {
            return Err(FantasyError::NoEntries);
        }
        let ghost eids = self.contest_entries@[rowi as int].entry_ids@;
        proof {
            assert(has_contest(self.contests@, contest_id));
            let ci = contest_idx(self.contests@, contest_id);
            assert(self.contests@[ci].id == contest_id);
            assert(contest_row_ids(self.contest_entries@, contest_id).len()
                == self.contests@[ci].filled_spots);
            assert(eids.len() <= u32::MAX);
        }
        let mut scored: Vec<Scored> = Vec::new();
        let mut m: usize = 0;
        #[verifier::loop_isolation(false)]
        while m < self.contest_entries[rowi].entry_ids.len()
            invariant
                m <= eids.len(),
                scored@.len() == m,
                forall|q: int|
                    0 <= q < m ==> #[trigger] scored@[q] == (Scored {
                        points: eo[entry_idx(eo, eids[q])].points as i128,
                        id: eids[q],
                    }),
            decreases eids.len() - m,
        {
            let eid = self.contest_entries[rowi].entry_ids[m];
            match self.find_entry(eid) {
                Some(ei) => {
                    proof {
                        assert(has_entry(eo, eids[m as int]));
                        assert(entry_idx(eo, eid) == ei);
                    }
                    let sc = Scored { points: self.entries[ei].points, id: eid };
                    scored.push(sc);
                },
                None => {
                    proof {
                        assert(has_entry(eo, eids[m as int]));
                        assert(false);
                    }
                },
            }
            m += 1;
        }
        proof {
            assert(scored@ =~= scored_of(eo, eids));
            assert(scored_ids_unique(scored@)) by {
                assert forall|q1: int, q2: int|
                    0 <= q1 < q2 < scored@.len() implies scored@[q1].id != scored@[q2].id by {
                    assert(eids[q1] != eids[q2]);
                };
            }
        }
        let sorted = sort_scored_desc(&scored);
        proof {
            lemma_sort_desc_props(scored@);
        }
        let ghost ssorted = sorted@;
        let mut out: Vec<u64> = Vec::new();
        let mut k: usize = 0;
        #[verifier::loop_isolation(false)]
        while k < sorted.len()
            invariant
                k <= ssorted.len(),
                ssorted.len() == eids.len(),
                out@.len() == k,
                forall|q: int| 0 <= q < k ==> out@[q] == ssorted[q].id,
                self.entries@.len() == eo.len(),
                forall|j: int|
                    0 <= j < eo.len() ==> (#[trigger] self.entries@[j]).id == eo[j].id
                        && self.entries@[j].user_id == eo[j].user_id
                        && self.entries@[j].contest_id == eo[j].contest_id,
                forall|q: int|
                    0 <= q < k ==> self.entries@[entry_idx(eo, (#[trigger] ssorted[q]).id)]
                        == (ContestEntry {
                        rank: Some((q + 1) as u32),
                        ..eo[entry_idx(eo, ssorted[q].id)]
                    }),
                forall|j: int|
                    0 <= j < eo.len() && !scored_id_in_prefix(
                        ssorted,
                        k as int,
                        (#[trigger] eo[j]).id,
                    ) ==> self.entries@[j] == eo[j],
                self.contests@ == old(self).contests@,
                self.user_contests@ == old(self).user_contests@,
                self.contest_entries@ == old(self).contest_entries@,
                self.next_contest_id == old(self).next_contest_id,
                self.next_entry_id == old(self).next_entry_id,
            decreases ssorted.len() - k,
        {
            let sid = sorted[k].id;
            proof {
                assert(ssorted[k as int].id == sid);
                assert(scored_has_id(ssorted, sid));
                assert(scored_has_id(scored@, sid));
                let q = choose|q: int| 0 <= q < scored@.len() && scored@[q].id == sid;
                assert(scored@[q].id == eids[q]);
                assert(has_entry(eo, sid));
            }
            match self.find_entry(sid) {
                None => {
                    proof {
                        let w = entry_idx(eo, sid);
                        assert(0 <= w < eo.len() && eo[w].id == sid);
                        assert(self.entries@[w].id == sid);
                        assert(has_entry(self.entries@, sid));
                        assert(false);
                    }
                },
                Some(ei) => {
                    proof {
                        assert(self.entries@[ei as int].id == sid);
                        assert(eo[ei as int].id == sid);
                        assert(entry_idx(eo, sid) == ei);
                    }
                    let ghost prev = self.entries@;
                    let mut e = self.entries.remove(ei);
                    e.rank = Some((k as u32) + 1);
                    self.entries.insert(ei, e);
                    proof {
                        assert(self.entries@ =~= prev.update(
                            ei as int,
                            self.entries@[ei as int],
                        ));
                        assert(!scored_id_in_prefix(ssorted, k as int, sid)) by {
                            if scored_id_in_prefix(ssorted, k as int, sid) {
                                let q2 = choose|q2: int|
                                    0 <= q2 < k && ssorted[q2].id == sid;
                                assert(ssorted[q2].id == ssorted[k as int].id);
                            }
                        }
                        assert(prev[ei as int] == eo[ei as int]);
                        assert forall|q: int|
                            0 <= q < k + 1 implies self.entries@[entry_idx(
                            eo,
                            (#[trigger] ssorted[q]).id,
                        )] == (ContestEntry {
                            rank: Some((q + 1) as u32),
                            ..eo[entry_idx(eo, ssorted[q].id)]
                        }) by {
                            if q < k {
                                assert(ssorted[q].id != sid);
                                assert(scored_has_id(ssorted, ssorted[q].id));
                                assert(scored_has_id(scored@, ssorted[q].id));
                                let qq = choose|qq: int|
                                    0 <= qq < scored@.len() && scored@[qq].id == ssorted[q].id;
                                assert(scored@[qq].id == eids[qq]);
                                assert(has_entry(eo, ssorted[q].id));
                                let wq = entry_idx(eo, ssorted[q].id);
                                assert(0 <= wq < eo.len() && eo[wq].id == ssorted[q].id);
                                assert(wq != ei as int);
                                assert(self.entries@[wq] == prev[wq]);
                            }
                        };
                        assert forall|j: int|
                            0 <= j < eo.len() && !scored_id_in_prefix(
                                ssorted,
                                k + 1,
                                (#[trigger] eo[j]).id,
                            ) implies self.entries@[j] == eo[j] by {
                            assert(!scored_id_in_prefix(ssorted, k as int, eo[j].id)) by {
                                if scored_id_in_prefix(ssorted, k as int, eo[j].id) {
                                    let q2 = choose|q2: int|
                                        0 <= q2 < k && ssorted[q2].id == eo[j].id;
                                    assert(0 <= q2 < k + 1 && ssorted[q2].id == eo[j].id);
                                }
                            }
                            assert(j != ei as int) by {
                                if j == ei as int {
                                    assert(eo[j].id == sid);
                                    assert(ssorted[k as int].id == eo[j].id);
                                    assert(scored_id_in_prefix(ssorted, k + 1, eo[j].id));
                                }
                            }
                            assert(self.entries@[j] == prev[j]);
                        };
                    }
                    out.push(sid);
                },
            }
            k += 1;
        }
        proof {
            lemma_entry_tables_match(eo, self.entries@);
            assert(self.contests_ok());
            assert(self.entries_ok()) by {
                assert forall|i: int, j: int|
                    0 <= i < j < self.entries@.len() implies self.entries@[i].id
                    != self.entries@[j].id by {
                    assert(self.entries@[i].id == eo[i].id && self.entries@[j].id == eo[j].id);
                };
                assert forall|i: int, j: int|
                    0 <= i < j < self.entries@.len() implies !(self.entries@[i].user_id
                    == self.entries@[j].user_id && self.entries@[i].contest_id
                    == self.entries@[j].contest_id) by {
                    assert(self.entries@[i].user_id == eo[i].user_id);
                    assert(self.entries@[j].user_id == eo[j].user_id);
                    assert(self.entries@[i].contest_id == eo[i].contest_id);
                    assert(self.entries@[j].contest_id == eo[j].contest_id);
                };
                assert forall|i: int| 0 <= i < self.entries@.len() implies has_contest(
                    self.contests@,
                    (#[trigger] self.entries@[i]).contest_id,
                ) by {
                    assert(self.entries@[i].contest_id == eo[i].contest_id);
                    assert(has_contest(old(self).contests@, eo[i].contest_id));
                };
            }
            assert(self.user_index_ok());
            assert(self.contest_index_ok()) by {
                assert forall|i: int, kk: int|
                    0 <= i < self.contest_entries@.len() && 0 <= kk
                        < self.contest_entries@[i].entry_ids@.len() implies has_entry(
                    self.entries@,
                    #[trigger] self.contest_entries@[i].entry_ids@[kk],
                ) && self.entries@[entry_idx(
                    self.entries@,
                    self.contest_entries@[i].entry_ids@[kk],
                )].contest_id == self.contest_entries@[i].contest_id by {
                    let idv = self.contest_entries@[i].entry_ids@[kk];
                    assert(has_entry(eo, idv));
                    assert(entry_idx(self.entries@, idv) == entry_idx(eo, idv));
                    assert(self.entries@[entry_idx(eo, idv)].contest_id == eo[entry_idx(
                        eo,
                        idv,
                    )].contest_id);
                };
            }
            assert(self.wf());
        }
        let ghost mid = *self;
        match self.update_contest_status(contest_id, ContestStatus::Completed) {
            Err(_) => {
                proof {
                    assert(has_contest(mid.contests@, contest_id));
                    assert(false);
                }
            },
            Ok(()) => {},
        }
        proof {
            assert(scored_of(eo, eids) == scored@);
            assert forall|j: int|
                0 <= j < eo.len() && !scored_has_id(ssorted, (#[trigger] eo[j]).id) implies self
                .entries@[j] == eo[j] by {
                assert(!scored_id_in_prefix(ssorted, ssorted.len() as int, eo[j].id)) by {
                    if scored_id_in_prefix(ssorted, ssorted.len() as int, eo[j].id) {
                        let q2 = choose|q2: int|
                            0 <= q2 < ssorted.len() && ssorted[q2].id == eo[j].id;
                        assert(scored_has_id(ssorted, eo[j].id));
                    }
                }
            };
        }
        Ok(out)
    }

    /// How many contests exist.
    pub fn get_contest_count(&self) -> (r: u64)
        ensures
            r == self.contests@.len(),
    {
        self.contests.len() as u64
    }

    /// How many entries exist.
    pub fn get_entry_count(&self) -> (r: u64)
        ensures
            r == self.entries@.len(),
    {
        self.entries.len() as u64
    }
}

/// Two entry tables of equal length whose records agree on id, user, and
/// contest — and whose ids are unique — support the same lookups: the same
/// ids at the same positions, and the same (user, contest) pairs.
pub proof fn lemma_entry_tables_match(eo: Seq<ContestEntry>, en: Seq<ContestEntry>)
    requires
        eo.len() == en.len(),
        forall|j: int|
            0 <= j < eo.len() ==> (#[trigger] en[j]).id == eo[j].id && en[j].user_id
                == eo[j].user_id && en[j].contest_id == eo[j].contest_id,
        forall|i: int, j: int| 0 <= i < j < eo.len() ==> eo[i].id != eo[j].id,
    ensures
        forall|id: u64| has_entry(en, id) == has_entry(eo, id),
        forall|id: u64| has_entry(eo, id) ==> entry_idx(en, id) == entry_idx(eo, id),
        forall|u: u64, c: u64| has_entry_for(en, u, c) == has_entry_for(eo, u, c),
{
    assert forall|id: u64| has_entry(en, id) == has_entry(eo, id) by {
        if has_entry(eo, id) {
            let w = choose|w: int| 0 <= w < eo.len() && eo[w].id == id;
            assert(en[w].id == id);
        }
        if has_entry(en, id) {
            let w = choose|w: int| 0 <= w < en.len() && en[w].id == id;
            assert(eo[w].id == id);
        }
    };
    assert forall|id: u64| has_entry(eo, id) implies entry_idx(en, id) == entry_idx(eo, id) by {
        let wo = entry_idx(eo, id);
        assert(0 <= wo < eo.len() && eo[wo].id == id);
        assert(en[wo].id == id);
        assert(has_entry(en, id));
        let wn = entry_idx(en, id);
        assert(0 <= wn < en.len() && en[wn].id == id);
        assert(eo[wn].id == id);
        assert(wn == wo);
    };
    assert forall|u: u64, c: u64| has_entry_for(en, u, c) == has_entry_for(eo, u, c) by {
        if has_entry_for(eo, u, c) {
            let w = choose|w: int| 0 <= w < eo.len() && eo[w].user_id == u && eo[w].contest_id == c;
            assert(en[w].user_id == u && en[w].contest_id == c);
        }
        if has_entry_for(en, u, c) {
            let w = choose|w: int| 0 <= w < en.len() && en[w].user_id == u && en[w].contest_id == c;
            assert(eo[w].user_id == u && eo[w].contest_id == c);
        }
    };
}

/// A (points, entry id) pair used to order a contest's entries.
#[derive(Clone, Copy, PartialEq, Eq, Structural, Debug)]
pub struct Scored {
    pub points: i128,
    pub id: u64,
}

/// Insert one pair into a descending-sorted sequence, after every element
/// whose points are greater than or equal — so earlier elements keep their
/// place ahead of later equal ones (the stable tie-break).
pub open spec fn insert_desc(s: Seq<Scored>, x: Scored) -> Seq<Scored>
    decreases s.len(),
{
    if s.len() == 0 {
        seq![x]
    } else if s.last().points >= x.points {
        s.push(x)
    } else {
        insert_desc(s.drop_last(), x).push(s.last())
    }
}

/// Stable insertion sort by points, descending: ties keep their input
/// order.
pub open spec fn sort_desc(s: Seq<Scored>) -> Seq<Scored>
    decreases s.len(),
{
    if s.len() == 0 {
        Seq::<Scored>::empty()
    } else {
        insert_desc(sort_desc(s.drop_last()), s.last())
    }
}

/// The sequence is ordered by points, descending.
pub open spec fn sorted_desc(s: Seq<Scored>) -> bool {
    forall|i: int, j: int| 0 <= i < j < s.len() ==> s[i].points >= s[j].points
}

/// Some pair carries this entry id.
pub open spec fn scored_has_id(s: Seq<Scored>, id: u64) -> bool {
    exists|i: int| 0 <= i < s.len() && s[i].id == id
}

/// The pairs carry pairwise-distinct entry ids.
pub open spec fn scored_ids_unique(s: Seq<Scored>) -> bool {
    forall|i: int, j: int| 0 <= i < j < s.len() ==> s[i].id != s[j].id
}

/// The id appears among the first `k` pairs.
pub open spec fn scored_id_in_prefix(s: Seq<Scored>, k: int, id: u64) -> bool {
    exists|q: int| 0 <= q < k && s[q].id == id
}

/// The (points, id) pairs of the given entry ids, in the given order.
pub open spec fn scored_of(es: Seq<ContestEntry>, ids: Seq<u64>) -> Seq<Scored> {
    Seq::new(
        ids.len(),
        |k: int| Scored { points: es[entry_idx(es, ids[k])].points as i128, id: ids[k] },
    )
}

/// Pushing adds exactly one element to what a sequence contains.
proof fn lemma_push_contains(s: Seq<Scored>, x: Scored)
    ensures
        forall|y: Scored| #![trigger s.push(x).contains(y)] s.push(x).contains(y) == (s.contains(y)
            || y == x),
{
    assert forall|y: Scored| s.push(x).contains(y) == (s.contains(y) || y == x) by {
        if s.contains(y) {
            let v = choose|v: int| 0 <= v < s.len() && s[v] == y;
            assert(s.push(x)[v] == y);
        }
        if y == x {
            assert(s.push(x)[s.len() as int] == y);
        }
        if s.push(x).contains(y) {
            let v = choose|v: int| 0 <= v < s.push(x).len() && s.push(x)[v] == y;
            if v < s.len() {
                assert(s[v] == y);
            }
        }
    };
}

/// Pushing adds exactly one id to what a sequence carries.
proof fn lemma_push_has_id(s: Seq<Scored>, x: Scored)
    ensures
        forall|id: u64|
            #![trigger scored_has_id(s.push(x), id)]
            scored_has_id(s.push(x), id) == (scored_has_id(s, id) || id == x.id),
{
    assert forall|id: u64|
        scored_has_id(s.push(x), id) == (scored_has_id(s, id) || id == x.id) by {
        if scored_has_id(s, id) {
            let v = choose|v: int| 0 <= v < s.len() && s[v].id == id;
            assert(s.push(x)[v].id == id);
        }
        if id == x.id {
            assert(s.push(x)[s.len() as int].id == id);
        }
        if scored_has_id(s.push(x), id) {
            let v = choose|v: int| 0 <= v < s.push(x).len() && s.push(x)[v].id == id;
            if v < s.len() {
                assert(s[v].id == id);
            }
        }
    };
}

/// Inserting keeps every element and id, adds the new one, preserves the
/// descending order, and keeps ids unique when the new id is fresh.
pub proof fn lemma_insert_desc_props(s: Seq<Scored>, x: Scored)
    ensures
        insert_desc(s, x).len() == s.len() + 1,
        forall|y: Scored|
            #![trigger insert_desc(s, x).contains(y)]
            insert_desc(s, x).contains(y) == (s.contains(y) || y == x),
        forall|id: u64|
            #![trigger scored_has_id(insert_desc(s, x), id)]
            scored_has_id(insert_desc(s, x), id) == (scored_has_id(s, id) || id == x.id),
        sorted_desc(s) ==> sorted_desc(insert_desc(s, x)),
        scored_ids_unique(s) && !scored_has_id(s, x.id) ==> scored_ids_unique(insert_desc(s, x)),
    decreases s.len(),
{
    let t = insert_desc(s, x);
    if s.len() == 0 {
        assert(t =~= Seq::<Scored>::empty().push(x));
        lemma_push_contains(Seq::<Scored>::empty(), x);
        lemma_push_has_id(Seq::<Scored>::empty(), x);
        assert forall|y: Scored| t.contains(y) == (s.contains(y) || y == x) by {
            assert(Seq::<Scored>::empty().push(x).contains(y) == (Seq::<Scored>::empty().contains(
                y,
            ) || y == x));
            assert(!s.contains(y));
        };
        assert forall|id: u64|
            scored_has_id(t, id) == (scored_has_id(s, id) || id == x.id) by {
            assert(scored_has_id(Seq::<Scored>::empty().push(x), id) == (scored_has_id(
                Seq::<Scored>::empty(),
                id,
            ) || id == x.id));
            assert(!scored_has_id(s, id));
        };
    } else if s.last().points >= x.points {
        assert(t == s.push(x));
        lemma_push_contains(s, x);
        lemma_push_has_id(s, x);
        assert forall|y: Scored| t.contains(y) == (s.contains(y) || y == x) by {
            assert(s.push(x).contains(y) == (s.contains(y) || y == x));
        };
        assert forall|id: u64|
            scored_has_id(t, id) == (scored_has_id(s, id) || id == x.id) by {
            assert(scored_has_id(s.push(x), id) == (scored_has_id(s, id) || id == x.id));
        };
        if sorted_desc(s) {
            assert forall|i: int, j: int|
                0 <= i < j < t.len() implies t[i].points >= t[j].points by {
                if j == s.len() {
                    assert(t[i].points == s[i].points);
                    assert(s[i].points >= s.last().points);
                }
            };
        }
        if scored_ids_unique(s) && !scored_has_id(s, x.id) {
            assert forall|i: int, j: int| 0 <= i < j < t.len() implies t[i].id != t[j].id by {
                if j == s.len() {
                    assert(t[i].id == s[i].id);
                    assert(scored_has_id(s, s[i].id));
                }
            };
        }
    } else {
        let dl = s.drop_last();
        let lst = s.last();
        lemma_insert_desc_props(dl, x);
        let u = insert_desc(dl, x);
        assert(t == u.push(lst));
        lemma_push_contains(u, x);
        lemma_push_contains(u, lst);
        lemma_push_has_id(u, lst);
        assert(s =~= dl.push(lst));
        lemma_push_contains(dl, lst);
        lemma_push_has_id(dl, lst);
        assert forall|y: Scored| t.contains(y) == (s.contains(y) || y == x) by {
            assert(u.push(lst).contains(y) == (u.contains(y) || y == lst));
            assert(insert_desc(dl, x).contains(y) == (dl.contains(y) || y == x));
            assert(dl.push(lst).contains(y) == (dl.contains(y) || y == lst));
            assert(s.contains(y) == dl.push(lst).contains(y));
        };
        assert forall|id: u64|
            scored_has_id(t, id) == (scored_has_id(s, id) || id == x.id) by {
            assert(scored_has_id(u.push(lst), id) == (scored_has_id(u, id) || id == lst.id));
            assert(scored_has_id(insert_desc(dl, x), id) == (scored_has_id(dl, id) || id
                == x.id));
            assert(scored_has_id(dl.push(lst), id) == (scored_has_id(dl, id) || id == lst.id));
            assert(scored_has_id(s, id) == scored_has_id(dl.push(lst), id));
        };
        if sorted_desc(s) {
            assert(sorted_desc(dl)) by {
                assert forall|i: int, j: int|
                    0 <= i < j < dl.len() implies dl[i].points >= dl[j].points by {
                    assert(dl[i] == s[i] && dl[j] == s[j]);
                };
            }
            assert forall|i: int, j: int|
                0 <= i < j < t.len() implies t[i].points >= t[j].points by {
                if j == u.len() {
                    assert(t[j] == lst);
                    assert(u.contains(u[i]));
                    if u[i] == x {
                        assert(t[i].points >= lst.points);
                    } else {
                        assert(dl.contains(u[i]));
                        let v = choose|v: int| 0 <= v < dl.len() && dl[v] == u[i];
                        assert(s[v].points >= s.last().points);
                    }
                }
            };
        }
        if scored_ids_unique(s) && !scored_has_id(s, x.id) {
            assert(scored_ids_unique(dl)) by {
                assert forall|i: int, j: int|
                    0 <= i < j < dl.len() implies dl[i].id != dl[j].id by {
                    assert(dl[i] == s[i] && dl[j] == s[j]);
                };
            }
            assert(!scored_has_id(dl, x.id));
            assert(scored_ids_unique(u));
            assert(!scored_has_id(dl, lst.id)) by {
                if scored_has_id(dl, lst.id) {
                    let v = choose|v: int| 0 <= v < dl.len() && dl[v].id == lst.id;
                    assert(s[v].id == s[s.len() - 1].id);
                }
            }
            assert(lst.id != x.id) by {
                assert(s[s.len() - 1].id == lst.id);
                assert(scored_has_id(s, lst.id));
            }
            assert(!scored_has_id(u, lst.id));
            assert forall|i: int, j: int| 0 <= i < j < t.len() implies t[i].id != t[j].id by {
                if j == u.len() {
                    assert(t[i] == u[i]);
                    assert(scored_has_id(u, u[i].id));
                }
            };
        }
    }
}

/// Sorting keeps the length, every element and id (so it permutes its
/// input), orders by points descending, and keeps ids unique.
pub proof fn lemma_sort_desc_props(s: Seq<Scored>)
    ensures
        sort_desc(s).len() == s.len(),
        sorted_desc(sort_desc(s)),
        forall|y: Scored| #![trigger sort_desc(s).contains(y)] sort_desc(s).contains(y)
            == s.contains(y),
        forall|id: u64| #![trigger scored_has_id(sort_desc(s), id)] scored_has_id(sort_desc(s), id)
            == scored_has_id(s, id),
        scored_ids_unique(s) ==> scored_ids_unique(sort_desc(s)),
    decreases s.len(),
{
    if s.len() == 0 {
    } else {
        let dl = s.drop_last();
        let lst = s.last();
        lemma_sort_desc_props(dl);
        lemma_insert_desc_props(sort_desc(dl), lst);
        assert(s =~= dl.push(lst));
        lemma_push_contains(dl, lst);
        lemma_push_has_id(dl, lst);
        assert(sort_desc(s) == insert_desc(sort_desc(dl), lst));
        assert forall|y: Scored| sort_desc(s).contains(y) == s.contains(y) by {
            assert(insert_desc(sort_desc(dl), lst).contains(y) == (sort_desc(dl).contains(y) || y
                == lst));
            assert(sort_desc(dl).contains(y) == dl.contains(y));
            assert(dl.push(lst).contains(y) == (dl.contains(y) || y == lst));
            assert(s.contains(y) == dl.push(lst).contains(y));
        };
        assert forall|id: u64| scored_has_id(sort_desc(s), id) == scored_has_id(s, id) by {
            assert(scored_has_id(insert_desc(sort_desc(dl), lst), id) == (scored_has_id(
                sort_desc(dl),
                id,
            ) || id == lst.id));
            assert(scored_has_id(sort_desc(dl), id) == scored_has_id(dl, id));
            assert(scored_has_id(dl.push(lst), id) == (scored_has_id(dl, id) || id == lst.id));
            assert(scored_has_id(s, id) == scored_has_id(dl.push(lst), id));
        };
        if scored_ids_unique(s) {
            assert(scored_ids_unique(dl)) by {
                assert forall|i: int, j: int|
                    0 <= i < j < dl.len() implies dl[i].id != dl[j].id by {
                    assert(dl[i] == s[i] && dl[j] == s[j]);
                };
            }
            assert(!scored_has_id(dl, lst.id)) by {
                if scored_has_id(dl, lst.id) {
                    let v = choose|v: int| 0 <= v < dl.len() && dl[v].id == lst.id;
                    assert(s[v].id == s[s.len() - 1].id);
                }
            }
            assert(!scored_has_id(sort_desc(dl), lst.id));
        }
    }
}

/// Inserting into a sequence whose tail beyond position `k` scores below
/// `x` (and whose element before `k`, if any, does not) places `x` exactly
/// at position `k`.
proof fn lemma_insert_desc_at(s: Seq<Scored>, x: Scored, k: int)
    requires
        0 <= k <= s.len(),
        forall|j: int| k <= j < s.len() ==> s[j].points < x.points,
        k > 0 ==> s[k - 1].points >= x.points,
    ensures
        insert_desc(s, x) == s.take(k).push(x) + s.skip(k),
    decreases s.len(),
{
    if s.len() == 0 {
        assert(insert_desc(s, x) =~= s.take(k).push(x) + s.skip(k));
    } else if s.last().points >= x.points {
        assert(k == s.len());
        assert(s.take(k) =~= s);
        assert(insert_desc(s, x) =~= s.take(k).push(x) + s.skip(k));
    } else {
        let dl = s.drop_last();
        assert(k < s.len());
        lemma_insert_desc_at(dl, x, k);
        assert(dl.take(k) =~= s.take(k));
        assert(insert_desc(s, x) == insert_desc(dl, x).push(s.last()));
        assert((dl.take(k).push(x) + dl.skip(k)).push(s.last()) =~= s.take(k).push(x) + s.skip(
            k,
        ));
    }
}

/// Stable insertion sort of (points, id) pairs, descending by points.
fn sort_scored_desc(v: &Vec<Scored>) -> (r: Vec<Scored>)
    ensures
        r@ == sort_desc(v@),
{
    let mut out: Vec<Scored> = Vec::new();
    let mut i: usize = 0;
    #[verifier::loop_isolation(false)]
    while i < v.len()
        invariant
            i <= v@.len(),
            out@ == sort_desc(v@.take(i as int)),
            out@.len() == i,
        decreases v@.len() - i,
    {
        let x = v[i];
        let mut k: usize = out.len();
        #[verifier::loop_isolation(false)]
        while k > 0 && out[k - 1].points < x.points
            invariant
                k <= out@.len(),
                forall|j: int| k <= j < out@.len() ==> out@[j].points < x.points,
            decreases k,
        {
            k -= 1;
        }
        let ghost prev = out@;
        proof {
            lemma_insert_desc_at(prev, x, k as int);
            lemma_sort_desc_props(v@.take(i as int));
        }
        out.insert(k, x);
        proof {
            assert(out@ =~= prev.take(k as int).push(x) + prev.skip(k as int));
            assert(out@ == insert_desc(prev, x));
            assert(v@.take(i + 1).drop_last() =~= v@.take(i as int));
            assert(v@.take(i + 1).last() == x);
            assert(out@ == sort_desc(v@.take(i + 1)));
        }
        i += 1;
    }
    proof {
        assert(v@.take(v@.len() as int) =~= v@);
    }
    out
}

/// After one entry with a fresh id is pushed, id lookups are unchanged for
/// old ids, stable in position, and the fresh id resolves to the new last
/// slot.
proof fn lemma_entry_push(eo: Seq<ContestEntry>, en: Seq<ContestEntry>, eid: u64)
    requires
        en.len() == eo.len() + 1,
        en.drop_last() == eo,
        en.last().id == eid,
        forall|i: int| 0 <= i < eo.len() ==> (#[trigger] eo[i]).id < eid,
        forall|i: int, j: int| 0 <= i < j < eo.len() ==> eo[i].id != eo[j].id,
    ensures
        forall|i: int| 0 <= i < eo.len() ==> en[i] == eo[i],
        forall|i: int, j: int| 0 <= i < j < en.len() ==> en[i].id != en[j].id,
        forall|id: u64| id != eid ==> has_entry(en, id) == has_entry(eo, id),
        forall|id: u64| has_entry(eo, id) ==> entry_idx(en, id) == entry_idx(eo, id),
        has_entry(en, eid),
        entry_idx(en, eid) == eo.len(),
{
    assert forall|i: int| 0 <= i < eo.len() implies en[i] == eo[i] by {
        assert(en.drop_last()[i] == eo[i]);
    };
    assert forall|i: int, j: int| 0 <= i < j < en.len() implies en[i].id != en[j].id by {
        if j == eo.len() {
            assert(en[i].id == eo[i].id);
        }
    };
    assert forall|id: u64| id != eid implies has_entry(en, id) == has_entry(eo, id) by {
        if has_entry(eo, id) {
            let v = choose|v: int| 0 <= v < eo.len() && eo[v].id == id;
            assert(en[v].id == id);
        }
        if has_entry(en, id) {
            let v = choose|v: int| 0 <= v < en.len() && en[v].id == id;
            assert(v < eo.len());
            assert(eo[v].id == id);
        }
    };
    assert forall|id: u64| has_entry(eo, id) implies entry_idx(en, id) == entry_idx(eo, id) by {
        let vo = entry_idx(eo, id);
        assert(0 <= vo < eo.len() && eo[vo].id == id);
        assert(eo[vo].id < eid);
        assert(en[vo].id == id);
        assert(has_entry(en, id));
        let vn = entry_idx(en, id);
        assert(0 <= vn < en.len() && en[vn].id == id);
        assert(vn < eo.len());
        assert(eo[vn].id == id);
        assert(vn == vo);
    };
    assert(en[en.len() - 1].id == eid);
    assert(has_entry(en, eid));
    let vn = entry_idx(en, eid);
    assert(0 <= vn < en.len() && en[vn].id == eid);
    if vn < eo.len() {
        assert(eo[vn].id == eid);
        assert(false);
    }
}

/// After one entry is pushed, the (identity, contest) pairs holding an
/// entry are the old pairs plus the pushed one.
proof fn lemma_entry_for_after_push(
    eo: Seq<ContestEntry>,
    en: Seq<ContestEntry>,
    caller: u64,
    contest_id: u64,
)
    requires
        en.len() == eo.len() + 1,
        en.drop_last() == eo,
        en.last().user_id == caller,
        en.last().contest_id == contest_id,
    ensures
        forall|u: u64, c: u64|
            has_entry_for(en, u, c) == (has_entry_for(eo, u, c) || (u == caller && c
                == contest_id)),
{
    assert forall|u: u64, c: u64|
        has_entry_for(en, u, c) == (has_entry_for(eo, u, c) || (u == caller && c
            == contest_id)) by {
        if has_entry_for(eo, u, c) {
            let v = choose|v: int| 0 <= v < eo.len() && eo[v].user_id == u && eo[v].contest_id == c;
            assert(en.drop_last()[v] == eo[v]);
            assert(en[v].user_id == u && en[v].contest_id == c);
        }
        if u == caller && c == contest_id {
            assert(en[en.len() - 1].user_id == u && en[en.len() - 1].contest_id == c);
        }
        if has_entry_for(en, u, c) {
            let v = choose|v: int| 0 <= v < en.len() && en[v].user_id == u && en[v].contest_id == c;
            if v < eo.len() {
                assert(en.drop_last()[v] == eo[v]);
                assert(eo[v].user_id == u && eo[v].contest_id == c);
            }
        }
    };
}

/// After a fresh membership row for the caller is pushed, the listed
/// (identity, contest) pairs are the old ones plus the caller's new pair.
proof fn lemma_user_joined_after_push(
    uo: Seq<UserContests>,
    un: Seq<UserContests>,
    caller: u64,
    contest_id: u64,
)
    requires
        un.len() == uo.len() + 1,
        un.drop_last() == uo,
        un.last().user_id == caller,
        un.last().contest_ids@ == seq![contest_id],
        forall|j: int| 0 <= j < uo.len() ==> (#[trigger] uo[j]).user_id != caller,
    ensures
        forall|u: u64, c: u64|
            user_joined(un, u, c) == (user_joined(uo, u, c) || (u == caller && c == contest_id)),
{
    assert forall|u: u64, c: u64|
        user_joined(un, u, c) == (user_joined(uo, u, c) || (u == caller && c == contest_id)) by {
        if user_joined(uo, u, c) {
            let v = choose|v: int|
                0 <= v < uo.len() && uo[v].user_id == u && uo[v].contest_ids@.contains(c);
            assert(un.drop_last()[v] == uo[v]);
            assert(un[v].user_id == u && un[v].contest_ids@.contains(c));
        }
        if u == caller && c == contest_id {
            assert(un[un.len() - 1].contest_ids@[0] == contest_id);
            assert(un[un.len() - 1].contest_ids@.contains(c));
        }
        if user_joined(un, u, c) {
            let v = choose|v: int|
                0 <= v < un.len() && un[v].user_id == u && un[v].contest_ids@.contains(c);
            if v < uo.len() {
                assert(un.drop_last()[v] == uo[v]);
                assert(uo[v].user_id == u && uo[v].contest_ids@.contains(c));
            } else {
                assert(u == caller);
                let k = choose|k: int|
                    0 <= k < un[v].contest_ids@.len() && un[v].contest_ids@[k] == c;
                assert(c == contest_id);
            }
        }
    };
}

/// After the caller's membership row gains one contest id, the listed
/// (identity, contest) pairs are the old ones plus the caller's new pair.
proof fn lemma_user_joined_after_update(
    uo: Seq<UserContests>,
    un: Seq<UserContests>,
    u_at: int,
    caller: u64,
    contest_id: u64,
)
    requires
        0 <= u_at < uo.len(),
        uo[u_at].user_id == caller,
        un.len() == uo.len(),
        forall|j: int| 0 <= j < uo.len() && j != u_at ==> un[j] == uo[j],
        un[u_at].user_id == caller,
        un[u_at].contest_ids@ == uo[u_at].contest_ids@.push(contest_id),
        forall|i: int, j: int| 0 <= i < j < uo.len() ==> uo[i].user_id != uo[j].user_id,
    ensures
        forall|i: int, j: int| 0 <= i < j < un.len() ==> un[i].user_id != un[j].user_id,
        forall|u: u64, c: u64|
            user_joined(un, u, c) == (user_joined(uo, u, c) || (u == caller && c == contest_id)),
{
    assert forall|i: int, j: int| 0 <= i < j < un.len() implies un[i].user_id != un[j].user_id by {
        assert(un[i].user_id == uo[i].user_id);
        assert(un[j].user_id == uo[j].user_id);
    };
    assert forall|u: u64, c: u64|
        user_joined(un, u, c) == (user_joined(uo, u, c) || (u == caller && c == contest_id)) by {
        if user_joined(uo, u, c) {
            let v = choose|v: int|
                0 <= v < uo.len() && uo[v].user_id == u && uo[v].contest_ids@.contains(c);
            if v == u_at {
                let k = choose|k: int|
                    0 <= k < uo[u_at].contest_ids@.len() && uo[u_at].contest_ids@[k] == c;
                assert(un[u_at].contest_ids@[k] == c);
                assert(un[u_at].contest_ids@.contains(c));
            } else {
                assert(un[v] == uo[v]);
            }
        }
        if u == caller && c == contest_id {
            let n = un[u_at].contest_ids@.len();
            assert(un[u_at].contest_ids@[n - 1] == contest_id);
            assert(un[u_at].contest_ids@.contains(c));
        }
        if user_joined(un, u, c) {
            let v = choose|v: int|
                0 <= v < un.len() && un[v].user_id == u && un[v].contest_ids@.contains(c);
            if v == u_at {
                assert(u == caller);
                let k = choose|k: int|
                    0 <= k < un[u_at].contest_ids@.len() && un[u_at].contest_ids@[k] == c;
                if k < uo[u_at].contest_ids@.len() {
                    assert(uo[u_at].contest_ids@[k] == c);
                    assert(uo[u_at].contest_ids@.contains(c));
                    assert(user_joined(uo, u, c));
                } else {
                    assert(c == contest_id);
                }
            } else {
                assert(un[v] == uo[v]);
                assert(user_joined(uo, u, c));
            }
        }
    };
}

/// After one contest is replaced by a record with the same id, contest
/// lookups are unchanged in position and existence.
proof fn lemma_contests_update(co: Seq<Contest>, cn: Seq<Contest>, ci: int)
    requires
        0 <= ci < co.len(),
        cn.len() == co.len(),
        forall|j: int| 0 <= j < co.len() && j != ci ==> cn[j] == co[j],
        cn[ci].id == co[ci].id,
        forall|i: int, j: int| 0 <= i < j < co.len() ==> co[i].id != co[j].id,
    ensures
        forall|i: int| 0 <= i < cn.len() ==> (#[trigger] cn[i]).id == co[i].id,
        forall|i: int, j: int| 0 <= i < j < cn.len() ==> cn[i].id != cn[j].id,
        forall|x: u64| has_contest(cn, x) == has_contest(co, x),
        forall|x: u64| has_contest(co, x) ==> contest_idx(cn, x) == contest_idx(co, x),
    {
    assert forall|i: int| 0 <= i < cn.len() implies (#[trigger] cn[i]).id == co[i].id by {};
    assert forall|x: u64| has_contest(cn, x) == has_contest(co, x) by {
        if has_contest(co, x) {
            let v = choose|v: int| 0 <= v < co.len() && co[v].id == x;
            assert(cn[v].id == x);
        }
        if has_contest(cn, x) {
            let v = choose|v: int| 0 <= v < cn.len() && cn[v].id == x;
            assert(co[v].id == x);
        }
    };
    assert forall|x: u64| has_contest(co, x) implies contest_idx(cn, x) == contest_idx(co, x) by {
        let vo = contest_idx(co, x);
        assert(0 <= vo < co.len() && co[vo].id == x);
        assert(cn[vo].id == x);
        assert(has_contest(cn, x));
        let vn = contest_idx(cn, x);
        assert(0 <= vn < cn.len() && cn[vn].id == x);
        assert(co[vn].id == x);
        assert(vn == vo);
    };
}

/// After one entry-id row gains one fresh entry id, row lookups keep their
/// positions, the updated contest's id list grows by that id, and every
/// other contest's list is unchanged.
proof fn lemma_contest_rows_update(
    ro: Seq<ContestEntryIds>,
    rn: Seq<ContestEntryIds>,
    w: int,
    contest_id: u64,
    eid: u64,
)
    requires
        0 <= w < ro.len(),
        ro[w].contest_id == contest_id,
        rn.len() == ro.len(),
        forall|j: int| 0 <= j < ro.len() && j != w ==> rn[j] == ro[j],
        rn[w].contest_id == contest_id,
        rn[w].entry_ids@ == ro[w].entry_ids@.push(eid),
        forall|i: int, j: int| 0 <= i < j < ro.len() ==> ro[i].contest_id != ro[j].contest_id,
    ensures
        forall|i: int, j: int| 0 <= i < j < rn.len() ==> rn[i].contest_id != rn[j].contest_id,
        forall|x: u64| has_contest_row(rn, x) == has_contest_row(ro, x),
        forall|x: u64|
            has_contest_row(ro, x) ==> contest_row_idx(rn, x) == contest_row_idx(ro, x),
        contest_row_ids(rn, contest_id) == contest_row_ids(ro, contest_id).push(eid),
        forall|x: u64|
            x != contest_id ==> contest_row_ids(rn, x) == contest_row_ids(ro, x),
{
    assert forall|i: int, j: int|
        0 <= i < j < rn.len() implies rn[i].contest_id != rn[j].contest_id by {
        assert(rn[i].contest_id == ro[i].contest_id);
        assert(rn[j].contest_id == ro[j].contest_id);
    };
    assert forall|x: u64| has_contest_row(rn, x) == has_contest_row(ro, x) by {
        if has_contest_row(ro, x) {
            let v = choose|v: int| 0 <= v < ro.len() && ro[v].contest_id == x;
            assert(rn[v].contest_id == x);
        }
        if has_contest_row(rn, x) {
            let v = choose|v: int| 0 <= v < rn.len() && rn[v].contest_id == x;
            assert(ro[v].contest_id == x);
        }
    };
    assert forall|x: u64|
        has_contest_row(ro, x) implies contest_row_idx(rn, x) == contest_row_idx(ro, x) by {
        let vo = contest_row_idx(ro, x);
        assert(0 <= vo < ro.len() && ro[vo].contest_id == x);
        assert(rn[vo].contest_id == x);
        assert(has_contest_row(rn, x));
        let vn = contest_row_idx(rn, x);
        assert(0 <= vn < rn.len() && rn[vn].contest_id == x);
        assert(ro[vn].contest_id == x);
        assert(vn == vo);
    };
    assert(contest_row_idx(ro, contest_id) == w);
    assert(contest_row_idx(rn, contest_id) == w);
    assert forall|x: u64| x != contest_id implies contest_row_ids(rn, x) == contest_row_ids(
        ro,
        x,
    ) by {
        if has_contest_row(ro, x) {
            let v = contest_row_idx(ro, x);
            assert(v != w);
            assert(rn[v] == ro[v]);
        }
    };
}

/// In a well-formed store no contest's filled spot count exceeds its total
/// spot count.
pub proof fn lemma_capacity_never_exceeded(s: ContestStore)
    requires
        s.wf(),
    ensures
        forall|i: int|
            0 <= i < s.contests@.len() ==> (#[trigger] s.contests@[i]).filled_spots
                <= s.contests@[i].total_spots,
{
}

/// In a well-formed store no identity holds two entries in the same
/// contest.
pub proof fn lemma_one_entry_per_user_per_contest(s: ContestStore)
    requires
        s.wf(),
    ensures
        forall|i: int, j: int|
            0 <= i < j < s.entries@.len() ==> !(s.entries@[i].user_id == s.entries@[j].user_id
                && s.entries@[i].contest_id == s.entries@[j].contest_id),
{
}

} // verus!
