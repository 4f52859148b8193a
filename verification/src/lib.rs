//! A minimal error-report formatter: it renders a chain of causally linked
//! error messages as a single line, the outermost message first, a fixed
//! separator between consecutive messages, together with a write-once
//! installation slot that holds at most one such formatter for the life of
//! the process.

mod hook;
mod line;

pub use hook::InstallError;
pub use hook::InstallSlot;
pub use hook::claim_succeeds;
pub use hook::install;
pub use hook::install_custom;
pub use hook::lemma_install_once;
pub use hook::slot_after_claim;
pub use line::Handler;
pub use line::lemma_message_at;
pub use line::lemma_render_two_separators;
pub use line::lemma_rendered_idempotent;
pub use line::lemma_rendered_len;
pub use line::lemma_rendered_push;
pub use line::lemma_rendered_single;
pub use line::lemma_separator_at;
pub use line::message_start;
pub use line::rendered;
