//! Spawn subprocesses, with control over their streams, environment, descriptors, users,
//! capabilities and privileges.
//!
//! A [`Spawner`] gathers what is wanted of a child and works out how to start it, a [`Handle`]
//! looks after a child that runs, and a [`Stream`] holds what a child has written until it is
//! read. None of them calls the system: each says what is to be done, and is told what came of
//! it.

pub mod cache;
pub mod capability;
pub mod handle;
pub mod launch;
pub mod spawn;
pub mod store;
pub mod stream;
pub mod system;
pub mod text;
pub mod which;

pub use capability::Capability;
pub use handle::{Error as HandleError, Handle};
pub use launch::{Launch, Pipes};
pub use spawn::{Error as SpawnError, Filter, Refused, Spawner, StreamMode};
pub use stream::Stream;
pub use system::{Errno, Method, Mode, Progress, Signal, StdStream, WaitStatus};
pub use which::{Error as WhichError, SpawnWhich, Which};
