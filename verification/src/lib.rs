//! Persistence and aggregation core of a clinical-laboratory record keeper.
//!
//! The crate stores patients, diagnostic attendances ("exams") and their line
//! items, and exposes query views combining them: a filterable work queue, a
//! per-patient historical record, and a fixed exam-price catalog.  Every
//! operation is specified and verified against an abstract model of the
//! stored rows; the storage backend is abstracted behind the
//! `PatientRepository` port so the same verified use cases run against the
//! verified in-memory store or an external database adapter.

pub mod aggregate;
pub mod catalog;
pub mod dto;
pub mod entity;
pub mod errors;
pub mod laws;
pub mod ports;
pub mod query;
pub mod store;
pub mod text;
pub mod usecases;
