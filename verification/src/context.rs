//! The execution context: the ordered input segments that a guest may read,
//! assembled by the host before execution starts.
//!
//! A context is built once and never changed afterwards. The builder is
//! told how many segments the guest will read; it refuses to build a
//! context that holds fewer.

use vstd::prelude::*;
use vstd::slice::slice_to_vec;

verus! {

/// Why an execution context could not be built.
#[derive(Clone, Copy, Debug, PartialEq, Eq)]
pub enum ConfigurationError {
    /// The guest needs `required` input segments and only `supplied` were
    /// given.
    MissingInput { required: usize, supplied: usize },
}

/// The byte sequences that a list of segments holds, in order.
pub open spec fn segment_views(segments: Seq<Vec<u8>>) -> Seq<Seq<u8>> {
    Seq::new(segments.len(), |i: int| segments[i]@)
}

/// The inputs of one execution: opaque segments, in the order in which the
/// guest reads them.
#[derive(Clone, Debug, PartialEq, Eq)]
pub struct ExecutionContext {
    inputs: Vec<Vec<u8>>,
}

impl View for ExecutionContext {
    type V = Seq<Seq<u8>>;

    closed spec fn view(&self) -> Seq<Seq<u8>> {
        segment_views(self.inputs@)
    }
}

impl ExecutionContext {
    /// The number of input segments.
    pub fn segment_count(&self) -> (count: usize)
        ensures
            count == self@.len(),
    {
        self.inputs.len()
    }

    /// A copy of the segments, in order.
    pub fn segments(&self) -> (segments: Vec<Vec<u8>>)
        ensures
            segment_views(segments@) == self@,
    {
        let mut segments: Vec<Vec<u8>> = Vec::new();
        let mut i: usize = 0;
        while i < self.inputs.len()
            invariant
                i <= self.inputs.len(),
                segments@.len() == i,
                forall|j: int| 0 <= j < i ==> (#[trigger] segments@[j])@ == self.inputs@[j]@,
            decreases self.inputs.len() - i,
        {
            segments.push(slice_to_vec(self.inputs[i].as_slice()));
            i = i + 1;
        }
        assert(segment_views(segments@) =~= segment_views(self.inputs@));
        segments
    }

    /// Segment `index`, or nothing where the context holds no such segment.
    pub fn segment(&self, index: usize) -> (segment: Option<&[u8]>)
        ensures
            index < self@.len() ==> (segment matches Some(bytes) && bytes@ == self@[index as int]),
            index >= self@.len() ==> segment is None,
            self@.len() <= usize::MAX,
    {
        if index < self.inputs.len() {
            Some(self.inputs[index].as_slice())
        } else {
            None
        }
    }
}

/// Assembles an execution context segment by segment.
#[derive(Clone, Debug, PartialEq, Eq)]
pub struct ContextBuilder {
    required: usize,
    inputs: Vec<Vec<u8>>,
}

impl ContextBuilder {
    /// The number of segments that the guest is declared to read.
    pub closed spec fn required(&self) -> nat {
        self.required as nat
    }

    /// The segments supplied so far, in order.
    pub closed spec fn inputs(&self) -> Seq<Seq<u8>> {
        segment_views(self.inputs@)
    }

    /// A builder for a guest that reads nothing and is given nothing.
    pub fn new() -> (builder: ContextBuilder)
        ensures
            builder.required() == 0,
            builder.inputs() == Seq::<Seq<u8>>::empty(),
    {
        let builder = ContextBuilder { required: 0, inputs: Vec::new() };
        assert(segment_views(builder.inputs@) =~= Seq::<Seq<u8>>::empty());
        builder
    }

    /// Declares how many input segments the guest reads.
    pub fn require_inputs(self, count: usize) -> (builder: ContextBuilder)
        ensures
            builder.required() == count,
            builder.inputs() == self.inputs(),
    {
        ContextBuilder { required: count, inputs: self.inputs }
    }

    /// Supplies the next input segment.
    pub fn add_input(self, segment: Vec<u8>) -> (builder: ContextBuilder)
        ensures
            builder.required() == self.required(),
            builder.inputs() == self.inputs().push(segment@),
    {
        let mut inputs = self.inputs;
        inputs.push(segment);
        assert(segment_views(inputs@) =~= segment_views(self.inputs@).push(segment@));
        ContextBuilder { required: self.required, inputs }
    }

    /// Builds the context. Fails if and only if fewer segments were
    /// supplied than the guest reads; otherwise the context holds the
    /// supplied segments, unchanged and in order.
    pub fn build(self) -> (result: Result<ExecutionContext, ConfigurationError>)
        ensures
            self.inputs().len() < self.required() ==> result == Err::<
                ExecutionContext,
                ConfigurationError,
            >(
                ConfigurationError::MissingInput {
                    required: self.required() as usize,
                    supplied: self.inputs().len() as usize,
                },
            ),
            self.inputs().len() >= self.required() ==> (result matches Ok(context) && context@
                == self.inputs()),
    {
        if self.inputs.len() < self.required {
            Err(
                ConfigurationError::MissingInput {
                    required: self.required,
                    supplied: self.inputs.len(),
                },
            )
        } else {
            Ok(ExecutionContext { inputs: self.inputs })
        }
    }
}

} // verus!
