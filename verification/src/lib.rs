//! Risk scoring: a verified fixed-point scoring engine, the request and
//! result model it works on, and the conversions around it.

pub mod fixed_point;
pub mod entity;
pub mod model;
pub mod score_math;
pub mod scoring;
pub mod engine;
pub mod chain;
pub mod routes;
pub mod storage;
pub mod agreement;
pub mod client;
