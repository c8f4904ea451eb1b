use vstd::prelude::*;

verus! {

/// One pending write: the caller's payload, whether it asks for a flush, and
/// the slot where the leader of its group leaves the result.
pub struct Writer<P, O> {
    payload: P,
    sync: bool,
    output: Option<O>,
}

impl<P, O> Writer<P, O> {
    /// The payload handed over at construction.
    pub closed spec fn spec_payload(&self) -> P {
        self.payload
    }

    /// Whether the write must be made durable.
    pub closed spec fn spec_sync(&self) -> bool {
        self.sync
    }

    /// The result slot: `None` until a leader sets it.
    pub closed spec fn spec_output(&self) -> Option<O> {
        self.output
    }

    pub fn new(payload: P, sync: bool) -> (r: Self)
        ensures
            r.spec_payload() == payload,
            r.spec_sync() == sync,
            r.spec_output() is None,
    {
        Writer { payload, sync, output: None }
    }

    pub fn get_payload(&self) -> (r: &P)
        ensures
            *r == self.spec_payload(),
    {
        &self.payload
    }

    pub fn is_sync(&self) -> (r: bool)
        ensures
            r == self.spec_sync(),
    {
        self.sync
    }

    /// Whether a result has been set.
    pub fn has_output(&self) -> (r: bool)
        ensures
            r == self.spec_output() is Some,
    {
        self.output.is_some()
    }

    /// Records the result; only the leader of the writer's group does this.
    pub fn set_output(&mut self, output: O)
        ensures
            final(self).spec_output() == Some(output),
            final(self).spec_payload() == old(self).spec_payload(),
            final(self).spec_sync() == old(self).spec_sync(),
    {
        self.output = Some(output);
    }

    /// Consumes the writer and hands back its result, or `None` when no
    /// leader set one (its group was abandoned before reaching it).
    pub fn try_finish(self) -> (r: Option<O>)
        ensures
            r == self.spec_output(),
    {
        self.output
    }

    /// Consumes the writer and hands back its result. Reading the result
    /// before a leader has set it is outside the contract; consuming the
    /// writer makes a second read impossible.
    pub fn finish(self) -> (r: O)
        requires
            self.spec_output() is Some,
        ensures
            self.spec_output() == Some(r),
    {
        self.output.unwrap()
    }
}

} // verus!
