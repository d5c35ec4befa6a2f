//! Decision logic of the SimpleClaw agent framework.
//!
//! Texts are modelled as sequences of characters, JSON documents as [`json::JsonView`]
//! trees.  Every module states what its functions return over those models.
use vstd::prelude::*;

pub mod channels;
pub mod config;
pub mod dispatch;
pub mod error;
pub mod json;
pub mod order;
pub mod paths;
pub mod patterns;
pub mod providers;
pub mod react;
pub mod reply_policy;
pub mod round_trip;
pub mod run;
pub mod sandbox;
pub mod secrets;
pub mod telemetry;
pub mod testing;
pub mod text;
pub mod time;
pub mod tools;

verus! {

} // verus!
