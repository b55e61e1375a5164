//! Core coordinator for an anonymous Secret Santa gift exchange.
//!
//! Participants are known only by opaque session tokens. Each participant
//! may submit one wish note (three desired presents and a place they have
//! never visited) and may later draw exactly one other participant's note,
//! becoming that person's anonymous gift giver.
//!
//! This crate holds the verified core: the session registry with its
//! one-shot flash signals, the wish-note store with its validation and
//! uniqueness rules, and the draw-assignment engine. Transport, rendering
//! and durable storage live outside and talk to the core through plain
//! values.

mod exchange;
mod flash;
mod note;
mod registry;
mod rng;
mod store;

pub use exchange::Exchange;
pub use exchange::ExchangeError;
pub use exchange::VisitData;
pub use exchange::submit_outcome;

pub use flash::Flash;
pub use registry::SessionEntry;
pub use registry::SessionRegistry;
pub use registry::author_baseline;
pub use registry::authors_of;
pub use registry::flash_set;
pub use registry::flash_take;
pub use registry::flash_value;
pub use registry::lemma_flash_one_shot;
pub use registry::registered;
pub use rng::alphanumeric;
pub use note::NoteField;
pub use note::NoteView;
pub use note::WishNote;
pub use note::first_missing_field;
pub use store::NoteStore;
pub use store::author_available;
pub use store::author_index;
pub use store::authors_distinct;
pub use store::avail_of;
pub use store::lemma_avail_props;
pub use store::lemma_single_assignment;
pub use store::notes_valid;
pub use store::santas_distinct;
pub use store::spec_assign;
pub use store::spec_has_author;
pub use store::spec_is_santa;
pub use store::store_authors;
pub use store::store_wf;
pub use store::token_views;
pub use store::views_of;
