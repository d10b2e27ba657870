//! Tick storage: the TVC tick stream, decoded ticks and bars.

pub mod bar_aggregation;
pub mod bar_builder;
pub mod bar_building;
pub mod bar_spec;
pub mod buffer_set;
pub mod ring_buffer;
pub mod tick_buffer;
pub mod tvc;
