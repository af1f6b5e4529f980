//! The core of a small shared todo list: the record store of the service, the
//! generation counter that lets clients poll for changes, the versioned
//! snapshot envelope that the store is saved under, and the list as a client
//! keeps it.

pub mod error;
pub mod todo;
pub mod store;
pub mod snapshot;
pub mod state;
pub mod client;

pub use error::Error;
pub use todo::{Timestamp, Todo, TodoStatus, TodoView};
pub use store::Store;
pub use snapshot::{DataV1, Source};
pub use state::AppState;
pub use client::{Data, PushTodo, TodoState, UpdateTodos, Watch};
