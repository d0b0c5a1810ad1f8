//! Verified core logic of a collection of FRAME pallets and traits: referenda tracks,
//! pitches, passes (device filters and considerations), payments, memberships, gas tanks,
//! listings and authentication helpers.

pub mod authn;
pub mod composite_names;
pub mod dispatch;
pub mod gas_tank;
pub mod listings;
pub mod memberships;
pub mod nonfungibles_helpers;
pub mod pass;
pub mod payments;
pub mod pitch;
pub mod proof_verifier;
pub mod referenda_tracks;
pub mod scale;
pub mod sorted_ids;
pub mod split_id;
pub mod weight;
pub mod weights;
