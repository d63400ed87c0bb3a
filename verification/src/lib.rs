//! A versioned client/server rendering protocol.
//!
//! A game engine (the client) loads a rendering module (the server) as a
//! dynamically linked component and exchanges per-frame world state, user
//! input, and display events with it. This crate holds the protocol itself:
//! the attribute annotation scheme, the hierarchical frame snapshot, the
//! versioned handshake, the loader lifecycle, and the sentinel conventions
//! by which errors cross the boundary. The platform-specific loading of the
//! module and the raw foreign calls live outside the library; they hand the
//! protocol plain values and take plain values back.

pub mod attr;
pub mod events;
pub mod handshake;
pub mod lifecycle;
pub mod menu;
pub mod state;
pub mod stub;

pub use attr::Attribute;
pub use attr::AttributeSet;
pub use events::RenderEvent;
pub use events::RenderResult;
pub use events::UserEvent;
pub use handshake::IncomingMetadata;
pub use handshake::InitResult;
pub use lifecycle::ClientContext;
pub use menu::MenuContext;
pub use menu::MenuState;
pub use menu::Section;
pub use menu::Summary;
pub use state::Actor;
pub use state::ActorState;
pub use state::Drawable;
pub use state::RenderContext;
pub use state::State;
pub use state::Terrain;
pub use state::WorldState;
