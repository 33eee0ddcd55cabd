//! Verified cores of a handful of small command-line text utilities.
//!
//! Every module holds the decisions of one utility as functions from plain
//! values to plain values, each with a contract over a mathematical model.

pub mod catr;
pub mod cutr;
pub mod decimal;
pub mod echor;
pub mod findr;
pub mod gcd;
pub mod grepr;
pub mod headr;
pub mod lines;
pub mod pattern;
pub mod report;
pub mod text;
pub mod uniqr;
pub mod wcr;
