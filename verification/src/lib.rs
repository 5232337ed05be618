//! Header-only flow capture, bounded spooling and idempotent ingest.
//!
//! Frames become packets ([`packet`]), packets become buckets ([`aggregate`]), and a capture run
//! ([`capture`]) seals buckets as batches ([`batch`]) and keeps them in a bounded spool
//! ([`spool`], [`retention`], [`history`]) until the control plane has them ([`upload`]); what a
//! run counted is accounted for ([`accounting`]). The control plane
//! ([`control`]) takes every batch once and answers queries per node and capture point
//! ([`series`], [`inventory`], [`http`]).
//!
//! What each part owes the others is stated as laws over bytes, fields and results: of frames
//! ([`framing`]), of counts and of the turns of a run ([`counting`], [`turns`]), of sealed batches
//! ([`sealing`]), of what a spool gives up and records ([`evictions`], [`provenance`]), of what the
//! control plane takes and answers ([`ingestion`], [`reports`]), and of texts and values
//! ([`naming`], [`values`], [`wording`]).

pub mod accounting;
pub mod addr;
pub mod aggregate;
pub mod batch;
pub mod capture;
pub mod clock;
pub mod control;
pub mod counting;
pub mod encoding;
pub mod evictions;
pub mod framing;
pub mod history;
pub mod http;
pub mod ingestion;
pub mod inventory;
pub mod limits;
pub mod model;
pub mod naming;
pub mod packet;
pub mod provenance;
pub mod reports;
pub mod retention;
pub mod sealing;
pub mod series;
pub mod spool;
pub mod sqlite;
pub mod synthetic;
pub mod text;
pub mod turns;
pub mod upload;
pub mod values;
pub mod wording;
