//! Gathers upcoming programming contests from several providers, keeps those
//! that start within the coming week, and renders them as a block message.
//!
//! - `contest`: the contest model and its providers.
//! - `atcoder`, `codeforces`: turn each provider's response into contests.
//! - `order`, `window`: stable ordering by start time and the one-week window.
//! - `render`: the block message, grouped by provider.
//! - `tokyo`: reading and showing Tokyo wall-clock times.

pub mod contest;
pub mod error;
pub mod tokyo;
pub mod order;
pub mod window;
pub mod atcoder;
pub mod codeforces;
pub mod render;
