//! A push-based dataflow library: live graphs of stream operators, periodic
//! batch buffers, and the scheduling decisions of an engine that drives
//! sources and timers.
//!
//! A live graph is owned by its source. Every node owns its state and the
//! nodes wired below it; pushing an item into a node runs its step and pushes
//! what it forwards further down before returning, so `Source::emit` runs the
//! whole chain. Each node records, as ghost state, the items it received and
//! its timeline of outputs, and its wiring invariant relates the two. The
//! same operators are also offered on recorded timelines (`Stream`), where the
//! laws about them are stated. The engine is a state machine: its caller runs
//! the sources, sleeps until the next deadline and listens for the interrupt,
//! then reports each event and carries out the decision.

pub mod engine;
pub mod node;
pub mod sources;
pub mod stream;

pub use engine::{Engine, EngineBuilder, EngineState, Outcome, TimerEntry};
pub use node::{
    AccumulateNode, Collect, Fanout, FilterMapNode, FilterNode, MapNode, Node, Side, Sink,
    TapNode, ZipNode,
};
pub use stream::{Accumulator, Source, Stream, TimedBuffer, TimedEmitter, Zipper};
