//! Discovery of live hosts on the local /24 segment: gateway detection from
//! route-table text, selection of live hosts from decoded scan records, and
//! the consumer-side state of one background scan at a time.


pub mod address;
pub mod gateway;
pub mod scan;
pub mod session;
pub mod text;
