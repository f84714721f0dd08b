//! Storage contract, domain entities and plugin composition for a
//! competition platform.
pub mod challenges;
pub mod database;
pub mod entities;
pub mod plugin;

pub use challenges::{
    challenge_with_category, check_submission, find_category, find_challenge, submit_flag,
    SubmitChallenge,
    SubmitOutcome,
};
pub use database::{Database, MemoryDatabase, StoreError};
pub use entities::{
    authors_resolve, categories_resolve, snapshot_consistent, Author, Category, Challenge, ChallengeData, ChallengeSolve, TeamInner,
    TeamMetaInner, TeamUser, User,
};
pub use plugin::{
    assemble, negotiate_upload_provider, run_plugins, AssemblyError, Plugin, Registry,
    RunContext, Router, Settings, UploadProvider, UploadProviderContext,
};
