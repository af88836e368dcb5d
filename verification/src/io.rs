use vstd::prelude::*;
use crate::chunk::Chunk;
use crate::conduit::{ConduitM, Void};
use crate::prim::Consume;

verus! {

/// What a reading source does with the outcome of one read: a failure ends
/// it with the error, an empty read ends it successfully, and any bytes read
/// are yielded before it continues with `next`.
pub fn after_read<E, K>(outcome: Result<Vec<u8>, E>, next: K) -> (r: ConduitM<Void, u8, Result<(), E>, K>)
    ensures
        match outcome {
            Err(e) => r == ConduitM::<Void, u8, Result<(), E>, K>::Pure(Err(e)),
            Ok(v) => if v@.len() == 0 {
                r == ConduitM::<Void, u8, Result<(), E>, K>::Pure(Ok(()))
            } else {
                r == ConduitM::<Void, u8, Result<(), E>, K>::Yield(v, next)
            },
        },
{
    match outcome {
        Err(e) => ConduitM::Pure(Err(e)),
        Ok(v) => if v.len() == 0 {
            ConduitM::Pure(Ok(()))
        } else {
            ConduitM::Yield(v, next)
        },
    }
}

/// What a writing sink does with the outcome of one write or flush: a
/// failure ends it with the error; otherwise it awaits the next chunk with
/// `next`.
pub fn after_write<E, K>(outcome: Result<(), E>, next: K) -> (r: ConduitM<u8, Void, Result<(), E>, K>)
    ensures
        match outcome {
            Err(e) => r == ConduitM::<u8, Void, Result<(), E>, K>::Pure(Err(e)),
            Ok(_) => r == ConduitM::<u8, Void, Result<(), E>, K>::Await(next),
        },
{
    match outcome {
        Err(e) => ConduitM::Pure(Err(e)),
        Ok(_) => ConduitM::Await(next),
    }
}

/// What a writing sink does with a chunk it is fed.
pub enum WriteAction {
    /// The stream ended: finish successfully.
    Finish,
    /// Flush the output.
    Flush,
    /// Write these bytes.
    Write(Vec<u8>),
}

/// Decides what a writing sink does with the chunk `input`: the end of the
/// stream finishes it, a flush flushes the output, and a chunk of bytes is
/// written.
pub fn write_action(input: Chunk<Vec<u8>>) -> (r: WriteAction)
    ensures
        match input {
            Chunk::End => r == WriteAction::Finish,
            Chunk::Flush => r == WriteAction::Flush,
            Chunk::Chunk(v) => r == WriteAction::Write(v),
        },
{
    match input {
        Chunk::End => WriteAction::Finish,
        Chunk::Flush => WriteAction::Flush,
        Chunk::Chunk(v) => WriteAction::Write(v),
    }
}

/// What a receiving source does with the outcome of one receive: a failure
/// (the channel is closed) ends it; a value is yielded before it continues
/// with `next`.
pub fn after_receive<T, E, K>(outcome: Result<T, E>, next: K) -> (r: ConduitM<Void, T, (), K>)
    ensures
        match outcome {
            Err(_) => r == ConduitM::<Void, T, (), K>::Pure(()),
            Ok(x) => r matches ConduitM::Yield(v, k) && v@ == seq![x] && k == next,
        },
{
    match outcome {
        Err(_) => ConduitM::Pure(()),
        Ok(x) => {
            let mut v = Vec::with_capacity(1);
            v.push(x);
            ConduitM::Yield(v, next)
        },
    }
}

/// What a sending sink does with the outcome of one send: when the value
/// could not be sent, it is handed back upstream and the sink finishes
/// (through `finished`); otherwise the sink awaits the next value with
/// `next`.
pub fn after_send<T, K>(outcome: Result<(), T>, next: K, finished: K) -> (r: ConduitM<T, Void, (), K>)
    ensures
        match outcome {
            Err(x) => r matches ConduitM::Leftover(v, k) && v@ == seq![x] && k == finished,
            Ok(_) => r == ConduitM::<T, Void, (), K>::Await(next),
        },
{
    match outcome {
        Err(x) => {
            let mut v = Vec::with_capacity(1);
            v.push(x);
            ConduitM::Leftover(v, finished)
        },
        Ok(_) => ConduitM::Await(next),
    }
}

/// What a sending sink does after a step of the `consume` that takes its
/// next value.
pub enum TakeAction<T> {
    /// The stream ended: finish.
    Finish,
    /// Send this value.
    Send(T),
    /// Go on taking: the step, with the sink's own (empty) result type.
    Continue(ConduitM<T, Void, (), Consume<T>>),
}

/// Decides what a sending sink does with a step of its `consume`: when it
/// finished with no value the sink finishes, when it finished with a value
/// that value is sent, and any other step is passed on as it is.
pub fn take_action<T>(c: ConduitM<T, Void, Option<T>, Consume<T>>) -> (r: TakeAction<T>)
    ensures
        match c {
            ConduitM::Pure(None) => r == TakeAction::<T>::Finish,
            ConduitM::Pure(Some(x)) => r == TakeAction::<T>::Send(x),
            ConduitM::Defer(k) => r == TakeAction::Continue(ConduitM::Defer(k)),
            ConduitM::Flush(k) => r == TakeAction::Continue(ConduitM::Flush(k)),
            ConduitM::Await(k) => r == TakeAction::Continue(ConduitM::Await(k)),
            ConduitM::Yield(v, k) => r == TakeAction::Continue(ConduitM::Yield(v, k)),
            ConduitM::Leftover(v, k) => r == TakeAction::Continue(ConduitM::Leftover(v, k)),
        },
{
    match c {
        ConduitM::Pure(None) => TakeAction::Finish,
        ConduitM::Pure(Some(x)) => TakeAction::Send(x),
        ConduitM::Defer(k) => TakeAction::Continue(ConduitM::Defer(k)),
        ConduitM::Flush(k) => TakeAction::Continue(ConduitM::Flush(k)),
        ConduitM::Await(k) => TakeAction::Continue(ConduitM::Await(k)),
        ConduitM::Yield(v, k) => TakeAction::Continue(ConduitM::Yield(v, k)),
        ConduitM::Leftover(v, k) => TakeAction::Continue(ConduitM::Leftover(v, k)),
    }
}

} // verus!
