//! Verified core of a reverse-proxy gateway for an OpenAI-compatible
//! completion backend.
//!
//! Two transformations are specified and proved here: the incremental
//! `<think>`-tag extraction state machine that splits chain-of-thought text
//! out of a streaming response, and the token-budget truncation that trims
//! oversized prompts and conversations before they reach the backend.
//! The surrounding HTTP plumbing is unverified and lives outside this crate.

pub mod budget;
pub mod chunk;
pub mod gateway;
pub mod text;
pub mod think;
