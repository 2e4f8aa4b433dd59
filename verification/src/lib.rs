//! A verified typing-proof library: a deterministic replay-scoring engine,
//! a canonical fixed-width journal codec, a proof-issuance pipeline tail,
//! and a bounded best-score leaderboard state machine.

pub mod board;
pub mod bytes;
pub mod codec;
pub mod errors;
pub mod events;
pub mod hashing;
pub mod pipeline;
pub mod prompt;
pub mod rank;
pub mod replay;

pub use board::Leaderboard;
pub use board::ScoreEntry;
pub use codec::decode_journal;
pub use codec::encode_journal;
pub use codec::journal_hash;
pub use codec::Journal;
pub use codec::JOURNAL_LEN;
pub use errors::Error;
pub use errors::PipelineError;
pub use errors::ReplayError;
pub use events::encode_events;
pub use events::parse_events;
pub use events::ReplayEvent;
pub use events::KEY_A_MAX;
pub use events::KEY_BACKSPACE;
pub use events::KEY_ENTER;
pub use events::KEY_SPACE;
pub use hashing::sha256;
pub use pipeline::finish_prove;
pub use pipeline::receipt_seal_bytes;
pub use pipeline::select_receipt_kind;
pub use pipeline::ProveResult;
pub use pipeline::ReceiptKind;
pub use pipeline::SealSource;
pub use prompt::normalize_prompt;
pub use rank::LeaderboardRow;
pub use rank::TOP_N;
pub use replay::compute_journal;
