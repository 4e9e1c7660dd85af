use vstd::prelude::*;

pub mod text;
pub mod taint;
pub mod lanes;
pub mod capability;
pub mod wire;
pub mod dom;
pub mod a11y;
pub mod parse;
pub mod digest;
pub mod cid;
pub mod escalation;
pub mod semantic;
pub mod pulse;
pub mod layout;
pub mod api;
pub mod braid;
pub mod net;
pub mod transpile;
pub mod search;

verus! {
}
