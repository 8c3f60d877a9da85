pub mod laws;
pub mod model;
pub mod power;
pub mod relational;
pub mod ringbuf;
pub mod show;
pub mod storage;

pub use crate::ringbuf::iter::{Items, MoveItems, MutItems, SafeMoveItems};
pub use crate::ringbuf::reflow::{reset_plan, ResetPlan};
pub use crate::ringbuf::slices::{Run, RunMut};
pub use crate::ringbuf::{RingBuf, Span, MINIMUM_CAPACITY};
