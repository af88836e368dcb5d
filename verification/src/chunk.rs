use vstd::prelude::*;

verus! {

/// A piece of input: some values, a request to flush, or the end of the stream.
pub enum Chunk<O> {
    Chunk(O),
    Flush,
    End,
}

/// The view of a chunk of values.
pub open spec fn chunk_view<I>(c: Chunk<Vec<I>>) -> Chunk<Seq<I>> {
    match c {
        Chunk::Chunk(v) => Chunk::Chunk(v@),
        Chunk::Flush => Chunk::Flush,
        Chunk::End => Chunk::End,
    }
}

impl<O> Chunk<O> {
    /// Applies `f` to the values of a chunk; flushes and ends stay as they are.
    pub fn map<P, F: FnOnce(O) -> P>(self, f: F) -> (r: Chunk<P>)
        requires
            self matches Chunk::Chunk(o) ==> f.requires((o,)),
        ensures
            match self {
                Chunk::Chunk(o) => r matches Chunk::Chunk(p) && f.ensures((o,), p),
                Chunk::Flush => r is Flush,
                Chunk::End => r is End,
            },
    {
        match self {
            Chunk::Chunk(o) => Chunk::Chunk(f(o)),
            Chunk::Flush => Chunk::Flush,
            Chunk::End => Chunk::End,
        }
    }

    /// The values of a chunk, or `alternative` for a flush or the end.
    pub fn unwrap_or(self, alternative: O) -> (r: O)
        ensures
            r == match self {
                Chunk::Chunk(o) => o,
                _ => alternative,
            },
    {
        match self {
            Chunk::Chunk(o) => o,
            _ => alternative,
        }
    }
}

impl<O> From<O> for Chunk<O> {
    fn from(o: O) -> (r: Chunk<O>) {
        Chunk::Chunk(o)
    }
}

impl<O> vstd::std_specs::convert::FromSpecImpl<O> for Chunk<O> {
    open spec fn obeys_from_spec() -> bool {
        true
    }

    open spec fn from_spec(o: O) -> Chunk<O> {
        Chunk::Chunk(o)
    }
}

} // verus!
