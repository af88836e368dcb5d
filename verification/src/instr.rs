use vstd::prelude::*;

verus! {

/// An instruction set, with the type of value its instructions return.
pub trait Instr {
    type Return;
}

/// The instruction that does nothing but return its value.
pub struct Identity<A>(pub A);

impl<A> Instr for Identity<A> {
    type Return = A;
}

/// The union of two instruction sets that return the same type.
pub enum Coproduct<I, J> {
    Left(I),
    Right(J),
}

impl<A, I: Instr<Return = A>, J: Instr<Return = A>> Instr for Coproduct<I, J> {
    type Return = A;
}

} // verus!
