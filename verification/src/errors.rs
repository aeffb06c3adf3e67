//! The error taxonomy and the uniform response envelope.
//!
//! Every mutating operation reports failure in-band: a `FantasyError` names
//! the exact reason, and `ApiResponse` is the `{success, data, error}`
//! envelope that an application boundary hands out.

use vstd::prelude::*;

verus! {

/// Why an operation was refused. Each operation's contract states exactly
/// which variant comes back on which inputs.
#[derive(Clone, Copy, PartialEq, Eq, Structural, Debug)]
pub enum FantasyError {
    UserNotFound,
    UserAlreadyRegistered,
    UsernameTaken,
    NotificationNotFound,
    TournamentNotFound,
    TeamNotFound,
    PlayerNotFound,
    MatchNotFound,
    ContestNotFound,
    ContestNotOpen,
    ContestFull,
    AlreadyJoined,
    EntryNotFound,
    NoEntries,
    InsufficientBalance,
    RosterSizeInvalid,
    CaptainNotInRoster,
    SalaryCapViolation,
    RewardNotFound,
    AlreadyClaimedOrFailed,
    InvalidTeam,
    ContestAlreadyStarted,
    ContestCompleted,
    Unauthorized,
    InvalidOperation,
    SystemError,
}

impl FantasyError {
    /// The human-readable text for this error, as the envelope carries it.
    pub open spec fn message_spec(self) -> Seq<char> {
        match self {
            FantasyError::UserNotFound => "User not found"@,
            FantasyError::UserAlreadyRegistered => "User already registered"@,
            FantasyError::UsernameTaken => "Username already taken"@,
            FantasyError::NotificationNotFound => "Notification not found"@,
            FantasyError::TournamentNotFound => "Tournament not found"@,
            FantasyError::TeamNotFound => "Team not found"@,
            FantasyError::PlayerNotFound => "Player not found"@,
            FantasyError::MatchNotFound => "Match not found"@,
            FantasyError::ContestNotFound => "Contest not found"@,
            FantasyError::ContestNotOpen => "Contest is not open for entries"@,
            FantasyError::ContestFull => "Contest is full"@,
            FantasyError::AlreadyJoined => "User already joined this contest"@,
            FantasyError::EntryNotFound => "Entry not found"@,
            FantasyError::NoEntries => "No entries found for contest"@,
            FantasyError::InsufficientBalance => "Insufficient balance"@,
            FantasyError::RosterSizeInvalid => "Team roster size is invalid"@,
            FantasyError::CaptainNotInRoster => "Captain and vice-captain must be in the team"@,
            FantasyError::SalaryCapViolation => "Team price is outside the salary cap"@,
            FantasyError::RewardNotFound => "Reward not found"@,
            FantasyError::AlreadyClaimedOrFailed => "Reward already claimed or failed"@,
            FantasyError::InvalidTeam => "Invalid team"@,
            FantasyError::ContestAlreadyStarted => "Contest already started"@,
            FantasyError::ContestCompleted => "Contest completed"@,
            FantasyError::Unauthorized => "Unauthorized"@,
            FantasyError::InvalidOperation => "Invalid operation"@,
            FantasyError::SystemError => "System error"@,
        }
    }

    /// The human-readable text for this error.
    pub fn message(&self) -> (r: String)
        ensures
            r@ == self.message_spec(),
    {
        match self {
            FantasyError::UserNotFound => "User not found".to_owned(),
            FantasyError::UserAlreadyRegistered => "User already registered".to_owned(),
            FantasyError::UsernameTaken => "Username already taken".to_owned(),
            FantasyError::NotificationNotFound => "Notification not found".to_owned(),
            FantasyError::TournamentNotFound => "Tournament not found".to_owned(),
            FantasyError::TeamNotFound => "Team not found".to_owned(),
            FantasyError::PlayerNotFound => "Player not found".to_owned(),
            FantasyError::MatchNotFound => "Match not found".to_owned(),
            FantasyError::ContestNotFound => "Contest not found".to_owned(),
            FantasyError::ContestNotOpen => "Contest is not open for entries".to_owned(),
            FantasyError::ContestFull => "Contest is full".to_owned(),
            FantasyError::AlreadyJoined => "User already joined this contest".to_owned(),
            FantasyError::EntryNotFound => "Entry not found".to_owned(),
            FantasyError::NoEntries => "No entries found for contest".to_owned(),
            FantasyError::InsufficientBalance => "Insufficient balance".to_owned(),
            FantasyError::RosterSizeInvalid => "Team roster size is invalid".to_owned(),
            FantasyError::CaptainNotInRoster => "Captain and vice-captain must be in the team".to_owned(),
            FantasyError::SalaryCapViolation => "Team price is outside the salary cap".to_owned(),
            FantasyError::RewardNotFound => "Reward not found".to_owned(),
            FantasyError::AlreadyClaimedOrFailed => "Reward already claimed or failed".to_owned(),
            FantasyError::InvalidTeam => "Invalid team".to_owned(),
            FantasyError::ContestAlreadyStarted => "Contest already started".to_owned(),
            FantasyError::ContestCompleted => "Contest completed".to_owned(),
            FantasyError::Unauthorized => "Unauthorized".to_owned(),
            FantasyError::InvalidOperation => "Invalid operation".to_owned(),
            FantasyError::SystemError => "System error".to_owned(),
        }
    }
}

/// The uniform response envelope: `success` tells whether `data` or `error`
/// is filled; failures never escape as panics.
#[derive(Debug)]
pub struct ApiResponse<T> {
    pub success: bool,
    pub data: Option<T>,
    pub error: Option<String>,
}

impl<T> ApiResponse<T> {
    /// Wrap a successful result.
    pub fn ok(data: T) -> (r: Self)
        ensures
            r.success,
            r.data == Some(data),
            r.error is None,
    {
        ApiResponse { success: true, data: Some(data), error: None }
    }

    /// Wrap a failure; the envelope carries the error's message text.
    pub fn fail(e: FantasyError) -> (r: Self)
        ensures
            !r.success,
            r.data is None,
            r.error matches Some(m) && m@ == e.message_spec(),
    {
        ApiResponse { success: false, data: None, error: Some(e.message()) }
    }

    /// Fold a `Result` into the envelope.
    pub fn from_result(res: Result<T, FantasyError>) -> (r: Self)
        ensures
            r.success == res is Ok,
            res matches Ok(v) ==> r.data == Some(v) && r.error is None,
            res matches Err(e) ==> r.data is None && (r.error matches Some(m) && m@
                == e.message_spec()),
    {
        match res {
            Ok(v) => Self::ok(v),
            Err(e) => Self::fail(e),
        }
    }
}

} // verus!
