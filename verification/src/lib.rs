//! Reader for a small XML configuration of railway-crossing endpoints and
//! diagnostic-network addresses.
//!
//! A document is walked as a stream of events. Self-closing `rjs` and `dlsip`
//! elements become typed records; any failure inside them is reported with the
//! chain of elements that were open at that point.

pub mod model;
pub mod values;
pub mod records;
pub mod path;
pub mod walker;
pub mod laws;

pub use model::{
    Attribute, ConfigError, Connection, DlsIP, IpAddress, ReadError, Rjs, XmlData, XmlEvent,
};


pub use path::PathTracker;
pub use walker::{add_location_data, Walker};
pub use records::find_attribute;
