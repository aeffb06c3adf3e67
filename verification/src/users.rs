//! User profiles, token balances, and notifications.
//!
//! `UserStore` is the identity side of the platform: it owns the registered
//! profiles (keyed by a `u64` identity), their token balances, and the
//! notification table. The contest and reward stores debit and credit
//! balances exclusively through the operations here.

use vstd::prelude::*;
use vstd::pervasive::VecAdditionalExecFns;
use crate::errors::FantasyError;

verus! {

/// Know-your-customer verification state of a profile.
#[derive(Clone, Copy, PartialEq, Eq, Structural, Debug)]
pub enum KYCStatus {
    Pending,
    Verified,
    Rejected,
}

/// Kind of a notification.
#[derive(Clone, Copy, PartialEq, Eq, Structural, Debug)]
pub enum NotificationType {
    ContestResult,
    PrizeWon,
    ContestReminder,
    SystemUpdate,
}

/// A registered user: identity, profile data, and token balance.
pub struct UserProfile {
    pub id: u64,
    pub username: String,
    pub email: Option<String>,
    pub phone: Option<String>,
    pub kyc_status: KYCStatus,
    pub balance: u64,
    pub created_at: u64,
    pub updated_at: u64,
}

/// A message delivered to one user.
pub struct Notification {
    pub id: u64,
    pub user_id: u64,
    pub title: String,
    pub message: String,
    pub notification_type: NotificationType,
    pub read: bool,
    pub created_at: u64,
}

/// Balance granted to a profile at registration.
pub const STARTING_BALANCE: u64 = 1000;

/// There is a user with this identity.
pub open spec fn has_user(users: Seq<UserProfile>, id: u64) -> bool {
    exists|i: int| 0 <= i < users.len() && users[i].id == id
}

/// The index of the user with this identity (meaningful when `has_user`
/// holds and identities are unique).
pub open spec fn user_idx(users: Seq<UserProfile>, id: u64) -> int {
    choose|i: int| 0 <= i < users.len() && users[i].id == id
}

/// Some profile already uses this username (compared by text).
pub open spec fn username_taken(users: Seq<UserProfile>, name: Seq<char>) -> bool {
    exists|i: int| 0 <= i < users.len() && users[i].username@ == name
}

/// There is a notification with this id.
pub open spec fn has_notification(ns: Seq<Notification>, id: u64) -> bool {
    exists|i: int| 0 <= i < ns.len() && ns[i].id == id
}

/// The index of the notification with this id.
pub open spec fn notification_idx(ns: Seq<Notification>, id: u64) -> int {
    choose|i: int| 0 <= i < ns.len() && ns[i].id == id
}

/// The identity and balance side of the platform.
pub struct UserStore {
    pub users: Vec<UserProfile>,
    pub notifications: Vec<Notification>,
    pub next_notification_id: u64,
}

impl UserStore {
    /// Table invariant: identities and usernames are unique, notification ids
    /// are unique and below the notification counter.
    pub open spec fn wf(self) -> bool {
        &&& forall|i: int, j: int|
            0 <= i < j < self.users@.len() ==> self.users@[i].id != self.users@[j].id
        &&& forall|i: int, j: int|
            0 <= i < j < self.users@.len() ==> self.users@[i].username@ != self.users@[j].username@
        &&& forall|i: int, j: int|
            0 <= i < j < self.notifications@.len() ==> self.notifications@[i].id
                != self.notifications@[j].id
        &&& forall|i: int|
            0 <= i < self.notifications@.len() ==> self.notifications@[i].id
                < self.next_notification_id
    }

    /// An empty store.
    pub fn new() -> (r: Self)
        ensures
            r.wf(),
            r.users@ =~= Seq::<UserProfile>::empty(),
            r.notifications@ =~= Seq::<Notification>::empty(),
            r.next_notification_id == 0,
    {
        UserStore { users: Vec::new(), notifications: Vec::new(), next_notification_id: 0 }
    }

    /// The position of the user with identity `id`, if registered.
    fn find_user(&self, id: u64) -> (r: Option<usize>)
        ensures
            match r {
                Some(i) => i < self.users@.len() && self.users@[i as int].id == id,
                None => !has_user(self.users@, id),
            },
    {
        let mut i: usize = 0;
        #[verifier::loop_isolation(false)]
        while i < self.users.len()
            invariant
                i <= self.users@.len(),
                forall|j: int| 0 <= j < i ==> self.users@[j].id != id,
            decreases self.users@.len() - i,
        {
            if self.users[i].id == id {
                return Some(i);
            }
            i += 1;
        }
        None
    }

    /// Register the calling identity with a fresh profile holding the
    /// starting balance. Fails if the identity or the username is already
    /// registered; on failure nothing changes.
    pub fn register_user(
        &mut self,
        caller: u64,
        username: String,
        email: Option<String>,
        phone: Option<String>,
        now: u64,
    ) -> (r: Result<(), FantasyError>)
        requires
            old(self).wf(),
        ensures
            final(self).wf(),
            final(self).notifications@ == old(self).notifications@,
            final(self).next_notification_id == old(self).next_notification_id,
            has_user(old(self).users@, caller) ==> r == Err::<(), FantasyError>(
                FantasyError::UserAlreadyRegistered,
            ) && final(self).users@ == old(self).users@,
            !has_user(old(self).users@, caller) && username_taken(old(self).users@, username@)
                ==> r == Err::<(), FantasyError>(FantasyError::UsernameTaken) && final(self).users@
                == old(self).users@,
            !has_user(old(self).users@, caller) && !username_taken(old(self).users@, username@)
                ==> r == Ok::<(), FantasyError>(()) && final(self).users@ == old(
                self,
            ).users@.push(
                (UserProfile {
                    id: caller,
                    username: username,
                    email: email,
                    phone: phone,
                    kyc_status: KYCStatus::Pending,
                    balance: STARTING_BALANCE,
                    created_at: now,
                    updated_at: now,
                }),
            ),
    {
        if self.find_user(caller).is_some() {
            return Err(FantasyError::UserAlreadyRegistered);
        }
        let mut i: usize = 0;
        #[verifier::loop_isolation(false)]
        while i < self.users.len()
            invariant
                i <= self.users@.len(),
                forall|j: int| 0 <= j < i ==> self.users@[j].username@ != username@,
            decreases self.users@.len() - i,
        {
            if self.users[i].username == username {
                return Err(FantasyError::UsernameTaken);
            }
            i += 1;
        }
        let profile = UserProfile {
            id: caller,
            username,
            email,
            phone,
            kyc_status: KYCStatus::Pending,
            balance: STARTING_BALANCE,
            created_at: now,
            updated_at: now,
        };
        self.users.push(profile);
        Ok(())
    }

    /// Look a profile up by identity.
    pub fn get_user_profile(&self, user_id: u64) -> (r: Option<&UserProfile>)
        requires
            self.wf(),
        ensures
            match r {
                Some(p) => has_user(self.users@, user_id) && *p == self.users@[user_idx(
                    self.users@,
                    user_id,
                )],
                None => !has_user(self.users@, user_id),
            },
    {
        match self.find_user(user_id) {
            Some(i) => {
                proof {
                    assert(self.users@[user_idx(self.users@, user_id)].id == user_id);
                }
                Some(&self.users[i])
            },
            None => None,
        }
    }

    /// Update the caller's contact data: a `Some` replaces the stored field,
    /// a `None` leaves it. Fails `UserNotFound` for an unregistered caller.
    pub fn update_user_profile(
        &mut self,
        caller: u64,
        email: Option<String>,
        phone: Option<String>,
        now: u64,
    ) -> (r: Result<(), FantasyError>)
        requires
            old(self).wf(),
        ensures
            final(self).wf(),
            final(self).notifications@ == old(self).notifications@,
            final(self).next_notification_id == old(self).next_notification_id,
            !has_user(old(self).users@, caller) ==> r == Err::<(), FantasyError>(
                FantasyError::UserNotFound,
            ) && final(self).users@ == old(self).users@,
            has_user(old(self).users@, caller) ==> r == Ok::<(), FantasyError>(()) && {
                let i = user_idx(old(self).users@, caller);
                let p = old(self).users@[i];
                final(self).users@ == old(self).users@.update(
                    i,
                    (UserProfile {
                        id: p.id,
                        username: p.username,
                        email: if email is Some {
                            email
                        } else {
                            p.email
                        },
                        phone: if phone is Some {
                            phone
                        } else {
                            p.phone
                        },
                        kyc_status: p.kyc_status,
                        balance: p.balance,
                        created_at: p.created_at,
                        updated_at: now,
                    }),
                )
            },
    {
        match self.find_user(caller) {
            None => Err(FantasyError::UserNotFound),
            Some(i) => {
                proof {
                    assert(user_idx(self.users@, caller) == i);
                }
                let p = &self.users[i];
                let updated = UserProfile {
                    id: p.id,
                    username: p.username.clone(),
                    email: if email.is_some() {
                        email
                    } else {
                        p.email.clone()
                    },
                    phone: if phone.is_some() {
                        phone
                    } else {
                        p.phone.clone()
                    },
                    kyc_status: p.kyc_status,
                    balance: p.balance,
                    created_at: p.created_at,
                    updated_at: now,
                };
                self.users.set(i, updated);
                Ok(())
            },
        }
    }

    /// Set a user's verification state. Fails `UserNotFound` if absent.
    pub fn update_kyc_status(&mut self, user_id: u64, status: KYCStatus, now: u64) -> (r: Result<
        (),
        FantasyError,
    >)
        requires
            old(self).wf(),
        ensures
            final(self).wf(),
            final(self).notifications@ == old(self).notifications@,
            final(self).next_notification_id == old(self).next_notification_id,
            !has_user(old(self).users@, user_id) ==> r == Err::<(), FantasyError>(
                FantasyError::UserNotFound,
            ) && final(self).users@ == old(self).users@,
            has_user(old(self).users@, user_id) ==> r == Ok::<(), FantasyError>(()) && {
                let i = user_idx(old(self).users@, user_id);
                let p = old(self).users@[i];
                final(self).users@ == old(self).users@.update(
                    i,
                    (UserProfile { kyc_status: status, updated_at: now, ..p }),
                )
            },
    {
        match self.find_user(user_id) {
            None => Err(FantasyError::UserNotFound),
            Some(i) => {
                proof {
                    assert(user_idx(self.users@, user_id) == i);
                }
                let p = &self.users[i];
                let updated = UserProfile {
                    id: p.id,
                    username: p.username.clone(),
                    email: p.email.clone(),
                    phone: p.phone.clone(),
                    kyc_status: status,
                    balance: p.balance,
                    created_at: p.created_at,
                    updated_at: now,
                };
                self.users.set(i, updated);
                Ok(())
            },
        }
    }

    /// Credit a balance. Fails `UserNotFound` if absent; otherwise adds
    /// `amount` to the stored balance.
    pub fn add_balance(&mut self, user_id: u64, amount: u64, now: u64) -> (r: Result<
        (),
        FantasyError,
    >)
        requires
            old(self).wf(),
            has_user(old(self).users@, user_id) ==> old(self).users@[user_idx(
                old(self).users@,
                user_id,
            )].balance + amount <= u64::MAX,
        ensures
            final(self).wf(),
            final(self).notifications@ == old(self).notifications@,
            final(self).next_notification_id == old(self).next_notification_id,
            !has_user(old(self).users@, user_id) ==> r == Err::<(), FantasyError>(
                FantasyError::UserNotFound,
            ) && final(self).users@ == old(self).users@,
            has_user(old(self).users@, user_id) ==> r == Ok::<(), FantasyError>(()) && {
                let i = user_idx(old(self).users@, user_id);
                let p = old(self).users@[i];
                final(self).users@ == old(self).users@.update(
                    i,
                    (UserProfile { balance: (p.balance + amount) as u64, updated_at: now, ..p }),
                )
            },
    {
        match self.find_user(user_id) {
            None => Err(FantasyError::UserNotFound),
            Some(i) => {
                proof {
                    assert(user_idx(self.users@, user_id) == i);
                }
                let p = &self.users[i];
                let updated = UserProfile {
                    id: p.id,
                    username: p.username.clone(),
                    email: p.email.clone(),
                    phone: p.phone.clone(),
                    kyc_status: p.kyc_status,
                    balance: p.balance + amount,
                    created_at: p.created_at,
                    updated_at: now,
                };
                self.users.set(i, updated);
                Ok(())
            },
        }
    }

    /// Debit a balance. Fails `UserNotFound` if absent and
    /// `InsufficientBalance` if the stored balance is below `amount`; on
    /// failure nothing changes.
    pub fn deduct_balance(&mut self, user_id: u64, amount: u64, now: u64) -> (r: Result<
        (),
        FantasyError,
    >)
        requires
            old(self).wf(),
        ensures
            final(self).wf(),
            final(self).notifications@ == old(self).notifications@,
            final(self).next_notification_id == old(self).next_notification_id,
            !has_user(old(self).users@, user_id) ==> r == Err::<(), FantasyError>(
                FantasyError::UserNotFound,
            ) && final(self).users@ == old(self).users@,
            has_user(old(self).users@, user_id) && old(self).users@[user_idx(
                old(self).users@,
                user_id,
            )].balance < amount ==> r == Err::<(), FantasyError>(FantasyError::InsufficientBalance)
                && final(self).users@ == old(self).users@,
            has_user(old(self).users@, user_id) && old(self).users@[user_idx(
                old(self).users@,
                user_id,
            )].balance >= amount ==> r == Ok::<(), FantasyError>(()) && {
                let i = user_idx(old(self).users@, user_id);
                let p = old(self).users@[i];
                final(self).users@ == old(self).users@.update(
                    i,
                    (UserProfile { balance: (p.balance - amount) as u64, updated_at: now, ..p }),
                )
            },
    {
        match self.find_user(user_id) {
            None => Err(FantasyError::UserNotFound),
            Some(i) => {
                proof {
                    assert(user_idx(self.users@, user_id) == i);
                }
                if self.users[i].balance < amount {
                    return Err(FantasyError::InsufficientBalance);
                }
                let p = &self.users[i];
                let updated = UserProfile {
                    id: p.id,
                    username: p.username.clone(),
                    email: p.email.clone(),
                    phone: p.phone.clone(),
                    kyc_status: p.kyc_status,
                    balance: p.balance - amount,
                    created_at: p.created_at,
                    updated_at: now,
                };
                self.users.set(i, updated);
                Ok(())
            },
        }
    }

    /// Record a notification for a user and return its fresh id.
    pub fn create_notification(
        &mut self,
        user_id: u64,
        title: String,
        message: String,
        notification_type: NotificationType,
        now: u64,
    ) -> (r: u64)
        requires
            old(self).wf(),
            old(self).next_notification_id < u64::MAX,
        ensures
            final(self).wf(),
            final(self).users@ == old(self).users@,
            r == old(self).next_notification_id,
            final(self).next_notification_id == old(self).next_notification_id + 1,
            final(self).notifications@ == old(self).notifications@.push(
                (Notification {
                    id: r,
                    user_id: user_id,
                    title: title,
                    message: message,
                    notification_type: notification_type,
                    read: false,
                    created_at: now,
                }),
            ),
    {
        let id = self.next_notification_id;
        self.next_notification_id = id + 1;
        let n = Notification {
            id,
            user_id,
            title,
            message,
            notification_type,
            read: false,
            created_at: now,
        };
        self.notifications.push(n);
        id
    }

    /// All notifications addressed to a user, in creation order.
    pub fn get_user_notifications(&self, user_id: u64) -> (r: Vec<&Notification>)
        ensures
            r@.map_values(|n: &Notification| *n) == self.notifications@.filter(
                |n: Notification| n.user_id == user_id,
            ),
    {
        let ghost pred = |n: Notification| n.user_id == user_id;
        let mut out: Vec<&Notification> = Vec::new();
        let mut i: usize = 0;
        #[verifier::loop_isolation(false)]
        while i < self.notifications.len()
            invariant
                i <= self.notifications@.len(),
                out@.map_values(|n: &Notification| *n) == self.notifications@.take(
                    i as int,
                ).filter(pred),
            decreases self.notifications@.len() - i,
        {
            proof {
                let s = self.notifications@;
                assert(s.take(i + 1) =~= s.take(i as int).push(s[i as int]));
                s.take(i as int).lemma_filter_push(s[i as int], pred);
            }
            let ghost prev = out@.map_values(|n: &Notification| *n);
            if self.notifications[i].user_id == user_id {
                out.push(&self.notifications[i]);
                proof {
                    assert(out@.map_values(|n: &Notification| *n) =~= prev.push(
                        self.notifications@[i as int],
                    ));
                }
            }
            i += 1;
        }
        proof {
            assert(self.notifications@.take(self.notifications@.len() as int)
                =~= self.notifications@);
        }
        out
    }

    /// Mark one notification as read. Fails `NotificationNotFound` if absent.
    pub fn mark_notification_read(&mut self, notification_id: u64) -> (r: Result<
        (),
        FantasyError,
    >)
        requires
            old(self).wf(),
        ensures
            final(self).wf(),
            final(self).users@ == old(self).users@,
            final(self).next_notification_id == old(self).next_notification_id,
            !has_notification(old(self).notifications@, notification_id) ==> r == Err::<
                (),
                FantasyError,
            >(FantasyError::NotificationNotFound) && final(self).notifications@ == old(
                self,
            ).notifications@,
            has_notification(old(self).notifications@, notification_id) ==> r == Ok::<
                (),
                FantasyError,
            >(()) && {
                let i = notification_idx(old(self).notifications@, notification_id);
                let n = old(self).notifications@[i];
                final(self).notifications@ == old(self).notifications@.update(
                    i,
                    (Notification { read: true, ..n }),
                )
            },
    {
        let mut i: usize = 0;
        let mut found: Option<usize> = None;
        #[verifier::loop_isolation(false)]
        while i < self.notifications.len() && found.is_none()
            invariant
                i <= self.notifications@.len(),
                match found {
                    Some(k) => k < self.notifications@.len() && self.notifications@[k as int].id
                        == notification_id,
                    None => forall|j: int|
                        0 <= j < i ==> self.notifications@[j].id != notification_id,
                },
            decreases self.notifications@.len() - i, (if found is None { 1int } else { 0int }),
        {
            if self.notifications[i].id == notification_id {
                found = Some(i);
            } else {
                i += 1;
            }
        }
        match found {
            None => Err(FantasyError::NotificationNotFound),
            Some(i) => {
                proof {
                    assert(self.notifications@[i as int].id == notification_id);
                    assert(has_notification(self.notifications@, notification_id));
                    assert(notification_idx(self.notifications@, notification_id) == i);
                }
                let n = &self.notifications[i];
                let updated = Notification {
                    id: n.id,
                    user_id: n.user_id,
                    title: n.title.clone(),
                    message: n.message.clone(),
                    notification_type: n.notification_type,
                    read: true,
                    created_at: n.created_at,
                };
                self.notifications.set(i, updated);
                Ok(())
            },
        }
    }

    /// Every registered profile, in registration order.
    pub fn get_all_users(&self) -> (r: &Vec<UserProfile>)
        ensures
            r@ == self.users@,
    {
        &self.users
    }

    /// How many profiles are registered.
    pub fn get_user_count(&self) -> (r: u64)
        ensures
            r == self.users@.len(),
    {
        self.users.len() as u64
    }
}

} // verus!
