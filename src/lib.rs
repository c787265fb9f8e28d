//! A point-to-point file relay: an uploader and a downloader meet under a
//! shared file name, and the bytes of the upload are piped to the download
//! through a small bounded channel.
//!
//! The library holds the stateful core: the registry of pending transfers,
//! the per-transfer relay state machine, the capability-token ledger and the
//! static credential checks. Networking and the async runtime live around it.

pub mod credentials;
pub mod registry;
pub mod relay;
pub mod responses;
pub mod token_text;
pub mod tokens;

pub use credentials::{
    authenticate_header, authenticate_user, credentials_from_decoded, extract_basic_auth,
    judge_credentials, AuthConfig, AuthError, BasicCredentials,
};
pub use registry::{RegistryError, StreamRegistry};
pub use relay::{
    step, RelayAction, RelayEvent, RelayFailure, RelayPhase, TransferOutcome, CHANNEL_CAPACITY,
    RENDEZVOUS_TIMEOUT_SECS,
};
pub use responses::{
    auth_status, content_disposition, failure_reason, registry_message, registry_status,
    upload_status,
};
pub use token_text::{parse_token, token_text, TOKEN_TEXT_LEN};
pub use tokens::{
    TokenError, TokenId, TokenLedger, TokenState, SWEEP_INTERVAL_SECS, TOKEN_EXTENSION_SECS,
    TOKEN_LIFETIME_SECS,
};
