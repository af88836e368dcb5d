//! Streams of data that are produced, transformed and consumed one piece at a
//! time.
//!
//! A conduit is a suspended program: it either has finished with a result, or
//! it waits for one of five things to happen (to be resumed, to be flushed, to
//! receive input, to have its output taken, to have its leftover input taken)
//! and holds a continuation that says what it does next. The continuation is a
//! plain value of a type that implements [`Resume`]; every combinator of this
//! crate is such a type, and its behaviour is given by a model that the
//! specifications reason about.
//!
//! - A source produces a stream of values without consuming any
//!   (`ConduitM<Void, O, (), K>`).
//! - A sink consumes a stream of values and produces a final result
//!   (`ConduitM<I, Void, A, K>`).
//! - A conduit consumes values from upstream and produces values downstream.
//!
//! `connect` feeds a source into a sink and returns the sink's result;
//! `fuse` joins two components into one.

pub mod chunk;

pub mod conduit;

pub mod prim;

pub mod bind;

pub mod connect;

pub mod fuse;

pub mod sink;

pub mod extra;

pub mod kleisli;

pub mod instr;

pub mod io;

pub mod laws;

pub use bind::{AndThen, MapResult, Then, Zip};
pub use chunk::Chunk;
pub use conduit::{Action, ConduitM, Done, Resume, Void};
pub use connect::ToProducer;
pub use extra::{ExtendIter, SourceIter, source_iter, source_null};
pub use fuse::Fuse;
pub use io::{TakeAction, WriteAction, after_read, after_receive, after_send, after_write, take_action, write_action};
pub use instr::{Coproduct, Identity, Instr};
pub use kleisli::{Append, Arrow, Id, Kleisli};
pub use prim::{Consume, Ret, TakeChunk, consume, consume_chunk, defer, leftover, leftover_chunk, produce, produce_chunk};
pub use sink::{Combine, Folding, SinkK, ToConsumer, Transform};
