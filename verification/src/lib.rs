//! Verified core of a BLE tag presence gateway.
//!
//! A scanner remembers which advertising tags it has recently seen and
//! reports them over a serial link; a gateway reassembles those reports from
//! the byte stream, combines them with its last GNSS fix and publishes
//! periodic status updates to a backend.

pub mod extern_types;
pub mod entries;
pub mod types;
pub mod tag_map;
pub mod tag_store;
pub mod advert;
pub mod std_calls;
pub mod address_map;
pub mod address_tracker;
pub mod packet;
pub mod gnss;
pub mod gateway;
pub mod report;
