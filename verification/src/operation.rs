use vstd::prelude::*;

verus! {

/// A single pending edit, recorded verbatim.
///
/// Storage never interprets an operation: it only preserves the payload's
/// value and its position in the log, for an external interpreter to replay.
#[derive(Clone, Debug)]
pub struct Operation {
    payload: String,
}

impl View for Operation {
    type V = Seq<char>;

    closed spec fn view(&self) -> Seq<char> {
        self.payload@
    }
}

impl Operation {
    pub fn new(payload: String) -> (r: Operation)
        ensures
            r@ == payload@,
    {
        Operation { payload }
    }

    pub fn payload(&self) -> (r: &String)
        ensures
            r@ == self@,
    {
        &self.payload
    }
}

} // verus!
