//! One-shot repairs of an adopted or upgraded database.

pub mod boot;
pub mod duplicates;
pub mod extras;
pub mod fold;
pub mod fold_laws;
pub mod grouping;
pub mod membership;
pub mod membership_laws;
pub mod owners;
pub mod ranking;
pub mod repair;
pub mod request;
pub mod request_laws;
pub mod tables;
pub mod transaction;
pub mod versions;
