//! Verified core of a Lumatone MIDI visualizer: the hexagonal board layout
//! geometry, the layout-file parser, the MIDI connection state machine, the
//! passthrough listener step, and the pressed-key tracker.

pub mod events;
pub mod geom;
pub mod lumatone;
pub mod midi;
pub mod tracker;
