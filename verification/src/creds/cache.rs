//! The credential cache: one record at a well-known file path, with an
//! age-based staleness rule. The filesystem itself is observed at the edge;
//! this module makes every decision about what an observation means: when
//! the record is stale, when a miss is clean, and which error each failed
//! observation becomes.

use crate::creds::record::{parse_record, spec_parse_record};
use crate::creds::{PairView, UsernamePasswordPair};
use vstd::prelude::*;

verus! {

/// How long a cached token is trusted, in seconds. The platform issues
/// tokens that live a full hour; trusting them for only three quarters of
/// that leaves a margin so a token never expires mid-use.
pub const MAX_TOKEN_AGE_SECS: u64 = 45 * 60;

/// What the filesystem said when the cache file was examined: the file is
/// absent, or present with its modification age and contents, or one of the
/// three observation steps failed (reported with the underlying cause).
pub enum CacheFileState {
    Absent,
    Present { age_secs: u64, content: ContentOutcome },
    StatFailed { cause: String },
    ModifiedFailed { cause: String },
    ElapsedFailed { cause: String },
}

/// What reading the present file's bytes gave.
pub enum ContentOutcome {
    Data(String),
    Failed { cause: String },
}

/// A failed staleness check, each observation step reported distinctly,
/// with the file path involved.
pub enum StatError {
    StatFailed { path: String, cause: String },
    ModifiedFailed { path: String, cause: String },
    ElapsedFailed { path: String, cause: String },
}

/// A failed cache read: the staleness check failed, the file's bytes could
/// not be read, or its contents were not a credential record.
pub enum ReadError {
    StatFailed(StatError),
    ReadFailed { path: String, cause: String },
    DeserializeFailed { path: String },
}

/// A failed write of the cache file, each step reported distinctly.
pub enum WriteError {
    CreateDirFailed { path: String, cause: String },
    SerializeFailed { cause: String },
    WriteFailed { path: String, cause: String },
}

/// A failed removal of the cache file.
pub struct DeleteError {
    pub path: String,
    pub cause: String,
}

/// The mathematical outcome of a cache read: a clean miss (absent or
/// stale), a fresh pair, or a failure of one of the observation steps.
pub ghost enum ReadModel {
    Miss,
    Hit(PairView),
    Failed(ReadErrModel),
}

pub ghost enum ReadErrModel {
    Stat(Seq<char>),
    Modified(Seq<char>),
    Elapsed(Seq<char>),
    Read(Seq<char>),
    Deserialize,
}

/// What a cache observation means: absence and staleness are both a clean
/// miss; a fresh file is a hit exactly when its contents parse as a record.
pub open spec fn read_model(state: CacheFileState) -> ReadModel {
    match state {
        CacheFileState::Absent => ReadModel::Miss,
        CacheFileState::Present { age_secs, content } => if age_secs >= MAX_TOKEN_AGE_SECS {
            ReadModel::Miss
        } else {
            match content {
                ContentOutcome::Data(text) => match spec_parse_record(text@) {
                    Some(pv) => ReadModel::Hit(pv),
                    None => ReadModel::Failed(ReadErrModel::Deserialize),
                },
                ContentOutcome::Failed { cause } => ReadModel::Failed(ReadErrModel::Read(cause@)),
            }
        },
        CacheFileState::StatFailed { cause } => ReadModel::Failed(ReadErrModel::Stat(cause@)),
        CacheFileState::ModifiedFailed { cause } => ReadModel::Failed(
            ReadErrModel::Modified(cause@),
        ),
        CacheFileState::ElapsedFailed { cause } => ReadModel::Failed(ReadErrModel::Elapsed(cause@)),
    }
}

/// Whether a read error value reports the given failure at the given path.
pub open spec fn read_err_matches(e: ReadError, m: ReadErrModel, path: Seq<char>) -> bool {
    match m {
        ReadErrModel::Stat(cause) => e matches ReadError::StatFailed(StatError::StatFailed {
            path: p,
            cause: c,
        }) && p@ == path && c@ == cause,
        ReadErrModel::Modified(cause) => e matches ReadError::StatFailed(
            StatError::ModifiedFailed { path: p, cause: c },
        ) && p@ == path && c@ == cause,
        ReadErrModel::Elapsed(cause) => e matches ReadError::StatFailed(StatError::ElapsedFailed {
            path: p,
            cause: c,
        }) && p@ == path && c@ == cause,
        ReadErrModel::Read(cause) => e matches ReadError::ReadFailed { path: p, cause: c } && p@
            == path && c@ == cause,
        ReadErrModel::Deserialize => e matches ReadError::DeserializeFailed { path: p } && p@
            == path,
    }
}

pub open spec fn dir_suffix() -> Seq<char> {
    "/com.brainium.gh_credential_helper"@
}

pub open spec fn file_suffix() -> Seq<char> {
    "/creds.json"@
}

/// The cache: a handle on one well-known file path, injected rather than
/// ambient so every operation is explicit about the file it concerns.
pub struct Cache {
    pub dir: String,
    pub file: String,
}

impl Cache {
    pub open spec fn wf(&self) -> bool {
        self.file@ == self.dir@ + file_suffix()
    }

    /// The cache under the given temporary directory, in a directory
    /// namespaced to this helper, under the fixed record file name.
    pub fn new(temp_dir: String) -> (r: Cache)
        ensures
            r.wf(),
            r.dir@ == temp_dir@ + dir_suffix(),
    {
        let dir = temp_dir.concat("/com.brainium.gh_credential_helper");
        let file = dir.clone().concat("/creds.json");
        Cache { dir, file }
    }

    /// The path of the record file.
    pub fn path(&self) -> (r: &str)
        ensures
            r@ == self.file@,
    {
        self.file.as_str()
    }

    /// The path of the directory holding the record file.
    pub fn dir_path(&self) -> (r: &str)
        ensures
            r@ == self.dir@,
    {
        self.dir.as_str()
    }

    /// Whether the cached record may no longer be trusted: an absent file
    /// is stale; a present one is stale once its age reaches the threshold;
    /// failed observations are errors naming the path.
    pub fn stale(&self, state: &CacheFileState) -> (r: Result<bool, StatError>)
        ensures
            match *state {
                CacheFileState::Absent => r == Result::<bool, StatError>::Ok(true),
                CacheFileState::Present { age_secs, .. } => r matches Ok(b) && b == (age_secs
                    >= MAX_TOKEN_AGE_SECS),
                CacheFileState::StatFailed { cause } => r matches Err(StatError::StatFailed {
                    path,
                    cause: c,
                }) && path@ == self.file@ && c@ == cause@,
                CacheFileState::ModifiedFailed { cause } => r matches Err(
                    StatError::ModifiedFailed { path, cause: c },
                ) && path@ == self.file@ && c@ == cause@,
                CacheFileState::ElapsedFailed { cause } => r matches Err(StatError::ElapsedFailed {
                    path,
                    cause: c,
                }) && path@ == self.file@ && c@ == cause@,
            },
    {
        match state {
            CacheFileState::Absent => Ok(true),
            CacheFileState::Present { age_secs, .. } => Ok(*age_secs >= MAX_TOKEN_AGE_SECS),
            CacheFileState::StatFailed { cause } => Err(StatError::StatFailed {
                path: self.file.clone(),
                cause: cause.clone(),
            }),
            CacheFileState::ModifiedFailed { cause } => Err(StatError::ModifiedFailed {
                path: self.file.clone(),
                cause: cause.clone(),
            }),
            CacheFileState::ElapsedFailed { cause } => Err(StatError::ElapsedFailed {
                path: self.file.clone(),
                cause: cause.clone(),
            }),
        }
    }

    /// What a cache read returns for the given result and observation.
    pub open spec fn read_post(&self, state: &CacheFileState, r: Result<
        Option<UsernamePasswordPair>,
        ReadError,
    >) -> bool {
        match read_model(*state) {
            ReadModel::Miss => r == Result::<Option<UsernamePasswordPair>, ReadError>::Ok(None),
            ReadModel::Hit(pv) => r matches Ok(Some(p)) && p@ == pv,
            ReadModel::Failed(m) => r matches Err(e) && read_err_matches(e, m, self.file@),
        }
    }

    /// Reads the cached pair out of an observation: a stale or absent file
    /// is a clean miss, never an error; a fresh file must parse as a
    /// record.
    pub fn read(&self, state: &CacheFileState) -> (r: Result<
        Option<UsernamePasswordPair>,
        ReadError,
    >)
        ensures
            self.read_post(state, r),
    {
        match state {
            CacheFileState::Absent => Ok(None),
            CacheFileState::Present { age_secs, content } => {
                if *age_secs >= MAX_TOKEN_AGE_SECS {
                    Ok(None)
                } else {
                    match content {
                        ContentOutcome::Data(text) => match parse_record(text.as_str()) {
                            Some(p) => Ok(Some(p)),
                            None => Err(ReadError::DeserializeFailed { path: self.file.clone() }),
                        },
                        ContentOutcome::Failed { cause } => Err(ReadError::ReadFailed {
                            path: self.file.clone(),
                            cause: cause.clone(),
                        }),
                    }
                }
            },
            CacheFileState::StatFailed { cause } => Err(ReadError::StatFailed(
                StatError::StatFailed { path: self.file.clone(), cause: cause.clone() },
            )),
            CacheFileState::ModifiedFailed { cause } => Err(ReadError::StatFailed(
                StatError::ModifiedFailed { path: self.file.clone(), cause: cause.clone() },
            )),
            CacheFileState::ElapsedFailed { cause } => Err(ReadError::StatFailed(
                StatError::ElapsedFailed { path: self.file.clone(), cause: cause.clone() },
            )),
        }
    }
}

} // verus!
