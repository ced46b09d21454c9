//! A fixed-capacity sliding window: it retains the last `capacity` values
//! pushed into it, discards the oldest on overflow, and presents the retained
//! values in newest-to-oldest order.

pub mod model;
pub mod window;
pub mod laws;

pub use window::exact_eq;
pub use window::SlidingWindow;
pub use window::WindowIter;
