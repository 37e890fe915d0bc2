use vstd::prelude::*;

verus! {

/// Every error the library and its front end can report.
#[derive(Debug, Clone, PartialEq, Eq, Default)]
pub enum AppError {
    #[default]
    Internal,
    SetLocalStorage,
    Connection,
    Authentication,
    MissingToken,
    InvalidToken,
    InvalidSecrets,
    InvalidPassword,
    InvalidUsername,
    UserNotFound,
    LockMutex(String),
    DbConnection(String),
    Extraction(String),
    DatabaseError(String),
    ActixError(String),
    MissingSession,
    InvalidSession(String),
    AnyConversion,
    ConnectionError,
    ServerError(String),
    WindowSize(String),
    UrlPayload,
    CannotContainChildren(String),
    CountableNotFound,
    RequiresChild,
    InvalidColor,
    Unauthorized,
    Environment(String),
    MissingPreferences(String, String),
}

impl AppError {
    /// Whether this is the error for an id that the store does not hold.
    pub open spec fn is_not_found(self) -> bool {
        self is CountableNotFound
    }

    pub fn is_countable_not_found(&self) -> (r: bool)
        ensures
            r == self.is_not_found(),
    {
        match self {
            AppError::CountableNotFound => true,
            _ => false,
        }
    }
}

} // verus!
