//! Reflective, command-driven state synchronisation.
//!
//! A tree of ordinary values becomes remotely addressable through a small
//! textual command language. Every value that implements [`Reflect`] can
//! interpret a [`Command`] on itself; servers and clients built on top of that
//! keep independent copies of a tree consistent by exchanging commands.

pub mod client;
pub mod command;
pub mod context;
pub mod dictionary;
pub mod error;
pub mod hidden;
pub mod json;
pub mod list;
pub mod map;
pub mod option;
pub mod primitive;
pub mod private_server;
pub mod record;
pub mod reflect;
pub mod remote;
pub mod reply;
pub mod shared_server;
pub mod tuple;

pub use crate::client::{Async, Client, Connect};
pub use crate::command::{Command, CommandView};
pub use crate::context::{command, conclude, local_command, Context, Entries};
pub use crate::dictionary::Dictionary;
pub use crate::error::{Error, ErrorKind, Outcome};
pub use crate::hidden::Hidden;
pub use crate::json::{FromJson, Json, JsonView, Numeric, StreamItem, ToJson};
pub use crate::map::Key;
pub use crate::primitive::Primitive;
pub use crate::private_server::{PrivateClient, PrivateServer};
pub use crate::record::{
    dispatch, Bindings, Callable, Names, Place, Record, Route, Schema, Values,
};
pub use crate::reflect::Reflect;
pub use crate::remote::{Iter, Remote};
pub use crate::reply::Reply;
pub use crate::shared_server::SharedServer;
pub use vstd::view::DeepView;
