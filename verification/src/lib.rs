//! Verified core of the pg_ripple triple store: Datalog rule parsing,
//! stratification, `owl:sameAs` canonicalisation, inline literal encoding,
//! the rule-plan cache and the text serialisers.

pub mod builtins;
pub mod datalog;
pub mod dictionary;
pub mod error;
pub mod export;
pub mod inline;
pub mod resolution;
pub mod text;
