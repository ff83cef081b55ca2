use vstd::prelude::*;

verus! {

/// Application error kinds.
#[derive(Debug)]
pub enum AppError {
    /// Database operation failed
    Database(String),
    /// File system operation failed
    FileSystem(String),
    /// Git operation failed
    Git(String),
    /// Resource not found: the entity kind and its id
    NotFound(&'static str, String),
    /// Invalid input provided
    InvalidInput(String),
    /// Permission denied (reserved for future permission handling)
    PermissionDenied(String),
    /// Operation conflict
    Conflict(String),
    /// Internal error
    Internal(String),
    /// Serialization error
    Serialization(String),
    /// System error
    System(String),
}

/// The kind of an [`AppError`], without its message.
#[derive(Debug, Clone, Copy, PartialEq, Eq, Structural)]
pub enum ErrorKind {
    Database,
    FileSystem,
    Git,
    NotFound,
    InvalidInput,
    PermissionDenied,
    Conflict,
    Internal,
    Serialization,
    System,
}

/// The kind of an error.
pub open spec fn kind_of(e: AppError) -> ErrorKind {
    match e {
        AppError::Database(_) => ErrorKind::Database,
        AppError::FileSystem(_) => ErrorKind::FileSystem,
        AppError::Git(_) => ErrorKind::Git,
        AppError::NotFound(_, _) => ErrorKind::NotFound,
        AppError::InvalidInput(_) => ErrorKind::InvalidInput,
        AppError::PermissionDenied(_) => ErrorKind::PermissionDenied,
        AppError::Conflict(_) => ErrorKind::Conflict,
        AppError::Internal(_) => ErrorKind::Internal,
        AppError::Serialization(_) => ErrorKind::Serialization,
        AppError::System(_) => ErrorKind::System,
    }
}

/// The result failed with an error of the given kind.
pub open spec fn fails_with<T>(r: AppResult<T>, k: ErrorKind) -> bool {
    r is Err && kind_of(r->Err_0) == k
}

/// The result failed with NotFound, naming the entity kind and the id.
pub open spec fn not_found<T>(r: AppResult<T>, kind: Seq<char>, id: Seq<char>) -> bool {
    match r {
        Err(AppError::NotFound(k, i)) => k@ == kind && i@ == id,
        _ => false,
    }
}

/// The error is of the given kind.
pub open spec fn kind_of_is(e: AppError, k: ErrorKind) -> bool {
    kind_of(e) == k
}

impl AppError {
    /// The kind of this error.
    pub fn kind(&self) -> (r: ErrorKind)
        ensures
            r == kind_of(*self),
    {
        match self {
            AppError::Database(_) => ErrorKind::Database,
            AppError::FileSystem(_) => ErrorKind::FileSystem,
            AppError::Git(_) => ErrorKind::Git,
            AppError::NotFound(_, _) => ErrorKind::NotFound,
            AppError::InvalidInput(_) => ErrorKind::InvalidInput,
            AppError::PermissionDenied(_) => ErrorKind::PermissionDenied,
            AppError::Conflict(_) => ErrorKind::Conflict,
            AppError::Internal(_) => ErrorKind::Internal,
            AppError::Serialization(_) => ErrorKind::Serialization,
            AppError::System(_) => ErrorKind::System,
        }
    }
}

/// Result type for application operations.
pub type AppResult<T> = Result<T, AppError>;

} // verus!
