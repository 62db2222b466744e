//! Publication pipeline for a recurring stream-schedule announcement: time
//! resolution, announcement compilation, rate-limit-aware bulk deletion,
//! the webhook upsert protocol and the webhook-token cipher.

pub mod cipher;
pub mod delete;
pub mod digits;
pub mod resolver;
pub mod schedule;
pub mod snowflake;
pub mod upsert;
pub mod webhook;
