use vstd::prelude::*;

verus! {

/// How serious a catalogued infraction is.
#[derive(Clone, Copy, Debug, PartialEq, Eq, PartialOrd, Structural)]
pub enum Severity {
    Low,
    Mid,
    High,
}

/// What is done to a user for an infraction.
#[derive(Clone, Copy, Debug, PartialEq, Eq, PartialOrd, Structural)]
pub enum Punishment {
    Strike,
    Timeout,
    Ban,
    Kick,
}

/// The kinds of failure a store operation reports.
#[derive(Clone, Copy, Debug, PartialEq, Eq, Structural)]
pub enum StoreError {
    /// No row matched.
    NotFound,
    /// A unique key is already taken.
    AlreadyExists,
    /// The backend could not be reached or timed out.
    BackendUnavailable,
    /// A stored or computed value is outside what its column may hold.
    Integrity,
}

/// What the backend driver reported, before it is classified.
#[derive(Clone, Copy, Debug, PartialEq, Eq, Structural)]
pub enum BackendFailure {
    /// A query that must return one row returned none.
    RowNotFound,
    /// An insert or update hit a unique constraint.
    UniqueViolation,
    /// Connecting, the pool, or the transport failed or timed out.
    Transport,
    /// A returned value could not be decoded into its type.
    Decode,
    /// A value left the range of its column or sequence.
    OutOfRange,
}

pub open spec fn classify_spec(f: BackendFailure) -> StoreError {
    match f {
        BackendFailure::RowNotFound => StoreError::NotFound,
        BackendFailure::UniqueViolation => StoreError::AlreadyExists,
        BackendFailure::Transport => StoreError::BackendUnavailable,
        BackendFailure::Decode => StoreError::Integrity,
        BackendFailure::OutOfRange => StoreError::Integrity,
    }
}

/// How the SQLSTATE code of a statement the backend refused is read: a
/// unique-key violation, a value out of its column's or sequence's range, or
/// else a backend that cannot serve the request.
pub open spec fn sqlstate_failure(code: Seq<char>) -> BackendFailure {
    if code == "23505"@ {
        BackendFailure::UniqueViolation
    } else if code == "22003"@ || code == "2200H"@ {
        BackendFailure::OutOfRange
    } else {
        BackendFailure::Transport
    }
}

impl BackendFailure {
    /// Reads the SQLSTATE code of a statement the backend refused.
    pub fn from_sqlstate(code: &str) -> (r: BackendFailure)
        ensures
            r == sqlstate_failure(code@),
    {
        if same_text(code, "23505") {
            BackendFailure::UniqueViolation
        } else if same_text(code, "22003") || same_text(code, "2200H") {
            BackendFailure::OutOfRange
        } else {
            BackendFailure::Transport
        }
    }
}

impl StoreError {
    /// Sorts a backend failure into exactly one of the store's error kinds.
    pub fn classify(f: BackendFailure) -> (r: StoreError)
        ensures
            r == classify_spec(f),
    {
        match f {
            BackendFailure::RowNotFound => StoreError::NotFound,
            BackendFailure::UniqueViolation => StoreError::AlreadyExists,
            BackendFailure::Transport => StoreError::BackendUnavailable,
            BackendFailure::Decode => StoreError::Integrity,
            BackendFailure::OutOfRange => StoreError::Integrity,
        }
    }
}

/// Compares two strings by their characters.
pub fn same_text(a: &str, b: &str) -> (r: bool)
    ensures
        r == (a@ == b@),
{
    a.to_owned() == b.to_owned()
}

impl Severity {
    /// The lowercase name under which the value is stored.
    pub open spec fn spec_name(self) -> Seq<char> {
        match self {
            Severity::Low => "low"@,
            Severity::Mid => "mid"@,
            Severity::High => "high"@,
        }
    }

    /// The name under which the value is shown to users.
    pub open spec fn spec_label(self) -> Seq<char> {
        match self {
            Severity::Low => "Low"@,
            Severity::Mid => "Mid"@,
            Severity::High => "High"@,
        }
    }

    pub fn name(&self) -> (r: &'static str)
        ensures
            r@ == self.spec_name(),
    {
        match self {
            Severity::Low => "low",
            Severity::Mid => "mid",
            Severity::High => "high",
        }
    }

    pub fn label(&self) -> (r: &'static str)
        ensures
            r@ == self.spec_label(),
    {
        match self {
            Severity::Low => "Low",
            Severity::Mid => "Mid",
            Severity::High => "High",
        }
    }

    /// Reads a stored name back; a name outside the closed set is a
    /// data-integrity failure.
    pub fn from_name(s: &str) -> (r: Result<Severity, StoreError>)
        ensures
            match r {
                Ok(v) => v.spec_name() == s@,
                Err(e) => e == StoreError::Integrity && forall|v: Severity| v.spec_name() != s@,
            },
    {
        if same_text(s, "low") {
            Ok(Severity::Low)
        } else if same_text(s, "mid") {
            Ok(Severity::Mid)
        } else if same_text(s, "high") {
            Ok(Severity::High)
        } else {
            Err(StoreError::Integrity)
        }
    }
}

impl Punishment {
    /// The lowercase name under which the value is stored.
    pub open spec fn spec_name(self) -> Seq<char> {
        match self {
            Punishment::Strike => "strike"@,
            Punishment::Timeout => "timeout"@,
            Punishment::Ban => "ban"@,
            Punishment::Kick => "kick"@,
        }
    }

    /// The name under which the value is shown to users.
    pub open spec fn spec_label(self) -> Seq<char> {
        match self {
            Punishment::Strike => "Strike"@,
            Punishment::Timeout => "Timeout"@,
            Punishment::Ban => "Ban"@,
            Punishment::Kick => "Kick"@,
        }
    }

    pub fn name(&self) -> (r: &'static str)
        ensures
            r@ == self.spec_name(),
    {
        match self {
            Punishment::Strike => "strike",
            Punishment::Timeout => "timeout",
            Punishment::Ban => "ban",
            Punishment::Kick => "kick",
        }
    }

    pub fn label(&self) -> (r: &'static str)
        ensures
            r@ == self.spec_label(),
    {
        match self {
            Punishment::Strike => "Strike",
            Punishment::Timeout => "Timeout",
            Punishment::Ban => "Ban",
            Punishment::Kick => "Kick",
        }
    }

    /// Reads a stored name back; a name outside the closed set is a
    /// data-integrity failure.
    pub fn from_name(s: &str) -> (r: Result<Punishment, StoreError>)
        ensures
            match r {
                Ok(v) => v.spec_name() == s@,
                Err(e) => e == StoreError::Integrity && forall|v: Punishment| v.spec_name() != s@,
            },
    {
        if same_text(s, "strike") {
            Ok(Punishment::Strike)
        } else if same_text(s, "timeout") {
            Ok(Punishment::Timeout)
        } else if same_text(s, "ban") {
            Ok(Punishment::Ban)
        } else if same_text(s, "kick") {
            Ok(Punishment::Kick)
        } else {
            Err(StoreError::Integrity)
        }
    }
}

/// A catalog entry: a reusable severity, punishment and duration under a
/// caller-chosen id.
#[derive(Clone, Copy, Debug, PartialEq, Eq, Structural)]
pub struct InfractionModel {
    pub id: i32,
    pub severity: Severity,
    pub punishment: Punishment,
    pub duration: i64,
}

/// A record that a punishment was applied to a user.
#[derive(Debug)]
pub struct PunishmentModel {
    pub id: i32,
    pub user_id: String,
    pub punishment: Punishment,
    pub duration: i64,
}

/// One application of a catalog entry to a user. `created_at` is in
/// microseconds since the Unix epoch, UTC.
#[derive(Debug)]
pub struct UserInfractionModel {
    pub id: i32,
    pub user_id: String,
    pub infraction_id: i32,
    pub created_at: Option<i64>,
}

/// A named text snippet with a single owner.
#[derive(Debug)]
pub struct TagModel {
    pub id: i32,
    pub user_id: String,
    pub name: String,
    pub content: String,
}

/// An animal with its emoji and the points it is worth.
#[derive(Debug)]
pub struct AnimalModel {
    pub id: i32,
    pub animal: String,
    pub emoji: String,
    pub points: i32,
}

/// A user's running point tally.
#[derive(Debug)]
pub struct BangPointModel {
    pub id: i32,
    pub user_id: String,
    pub points: i32,
}

impl PunishmentModel {
    pub fn duplicate(&self) -> (r: PunishmentModel)
        ensures
            r == *self,
    {
        PunishmentModel {
            id: self.id,
            user_id: self.user_id.clone(),
            punishment: self.punishment,
            duration: self.duration,
        }
    }
}

impl UserInfractionModel {
    pub fn duplicate(&self) -> (r: UserInfractionModel)
        ensures
            r == *self,
    {
        UserInfractionModel {
            id: self.id,
            user_id: self.user_id.clone(),
            infraction_id: self.infraction_id,
            created_at: self.created_at,
        }
    }
}

impl TagModel {
    pub fn duplicate(&self) -> (r: TagModel)
        ensures
            r == *self,
    {
        TagModel {
            id: self.id,
            user_id: self.user_id.clone(),
            name: self.name.clone(),
            content: self.content.clone(),
        }
    }
}

impl BangPointModel {
    pub fn duplicate(&self) -> (r: BangPointModel)
        ensures
            r == *self,
    {
        BangPointModel { id: self.id, user_id: self.user_id.clone(), points: self.points }
    }
}

} // verus!
