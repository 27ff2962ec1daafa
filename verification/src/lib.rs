//! A singly-linked chain of values with three insertion policies:
//! last-in-first-out, first-in-first-out and ascending order.

pub mod comparison;
pub mod element;
pub mod fifo;
pub mod iterator;
pub mod laws;
pub mod lifo;
pub mod list;
pub mod methods;
pub mod node;
pub mod ordered;
pub mod render;

pub use fifo::Fifo;
pub use iterator::ListIterator;
pub use lifo::Lifo;
pub use list::List;
pub use methods::Methods;
pub use node::Node;
pub use ordered::Ordered;
