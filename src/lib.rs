//! Reading kernel records from the structured `/dev/kmsg` format, and the
//! batching decisions of an emitter that posts events to a remote service.

pub mod dev_kmsg_reader;
pub mod kmsg;
pub mod params;
pub mod polycorder;
pub mod text;
