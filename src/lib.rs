// A per-frame presenter for a retained-mode UI: it keeps the rendered content
// of each view in one registry keyed by view identity, lays out, paints and
// routes events through it top-down (checking each entry out while it is
// visited), and reconciles it against invalidations from the view model.

pub mod geometry;
pub mod element;
pub mod phases;
pub mod app;
pub mod presenter;
pub mod laws;

pub use app::{AppContext, WindowInvalidation};
pub use element::{ChildView, ElementBox, Event, EventHandler, Quad, Scene};
pub use geometry::{Axis, SizeConstraint, Vector2I, UNBOUNDED};
pub use phases::{DebugContent, DebugContext, DebugNode, DispatchDirective, EventContext, LayoutContext, PaintContext};
pub use presenter::Presenter;
