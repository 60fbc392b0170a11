//! A verified engine for tracking job postings discovered from external
//! sources: a total, rule-based classifier that reads structured role
//! attributes out of a free-text job title, a scorer over those attributes,
//! a reconciler that merges freshly scraped postings into the known store
//! while tracking appearance and disappearance, and a ranker that orders the
//! store for display.

pub mod job;
pub mod rank;
pub mod store;
pub mod text;
