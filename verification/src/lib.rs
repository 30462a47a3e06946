//! A verified reconciliation and migration pipeline for CRM exports: typed
//! CSV readers, prefix-based routing, deduplicating groupers, batched id
//! resolution, idempotent per-unit execution decisions, and an audited
//! result log.  All I/O — files, the network, credential storage — lives in
//! the surrounding application; everything here is a function from plain
//! values to plain values, with its behaviour stated in its contract.

pub mod auth;
pub mod b64;
pub mod csvtext;
pub mod executor;
pub mod note_html;
pub mod object_types;
pub mod processor;
pub mod records;
pub mod report;
pub mod resolver;
pub mod sorting;
pub mod strmap;
pub mod strutil;
