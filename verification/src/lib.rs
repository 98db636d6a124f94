//! Input-state bridge and deferred-command queue.
//!
//! The library converts a per-frame stream of input events (keyboard, mouse
//! buttons, cursor and window changes) into a point-in-time-queryable
//! snapshot with edge-triggered press/release semantics, and offers a
//! location-keyed queue for deferred render objects that may be filled from
//! any thread.

pub mod button;
pub mod input;
pub mod render;

pub use button::ButtonMap;
pub use button::ButtonState;
pub use button::Transition;
pub use input::Config;
pub use input::CycleActions;
pub use input::CycleEvents;
pub use input::InputContext;
pub use input::KeyAction;
pub use input::KeyEvent;
pub use input::ButtonEvent;
pub use input::Vec2;
pub use render::DeferredQueue;
pub use render::DeferredRender;
pub use render::RenderId;
pub use render::RenderObject;
