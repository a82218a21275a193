//! The guest computation engine: one entry point for every guest program.
//!
//! A program is a list of stages. Each stage is an algorithm with its
//! parameters, either a hash chain or a recurrence, and commits its values
//! when it runs. Stages run in order, in a bounded number of steps, and the
//! journal is a function of the program and the execution context alone.

use vstd::prelude::*;
use crate::context::ExecutionContext;
use crate::digest::apply_mask;
use crate::digest::digest;
use crate::digest::digest_of;
use crate::digest::digest_words;
use crate::digest::masked;
use crate::digest::words_of;
use crate::digest::HashFunction;
use crate::guest::Guest;
use crate::guest::GuestExecutionFault;
use crate::journal::all_representable;
use crate::journal::decode_values;
use crate::journal::encode_values;
use crate::journal::layout_of;
use crate::journal::layout_width;
use crate::journal::lemma_encoding_concat;
use crate::journal::lemma_encoding_single;
use crate::journal::lemma_layout_concat;
use crate::journal::lemma_round_trip;
use crate::journal::word_values;
use crate::journal::ValueType;
use crate::journal::ValueView;
use crate::recurrence::recurrence_u32;
use crate::recurrence::recurrence_u64;
use crate::recurrence::term_u32;
use crate::recurrence::term_u64;

verus! {

/// Where a hash chain takes its first message from.
#[derive(Clone, Debug, PartialEq, Eq)]
pub enum MessageSource {
    /// The message is part of the program.
    Fixed(Vec<u8>),
    /// The message is the next input segment of the execution context.
    Input,
}

/// How a digest is committed.
#[derive(Clone, Copy, Debug, PartialEq, Eq)]
pub enum DigestForm {
    /// As one 32-byte array.
    Raw,
    /// As eight 32-bit words.
    Words,
}

/// The parameters of a hash chain.
#[derive(Clone, Debug, PartialEq, Eq)]
pub struct HashChain {
    /// The hash function applied in every round.
    pub function: HashFunction,
    /// The message of the first round.
    pub message: MessageSource,
    /// The number of rounds. Each round commits one digest.
    pub rounds: u32,
    /// Whether a round hashes the digest that the round before it
    /// committed. Without feedback every round hashes the first message.
    pub feedback: bool,
    /// The truncation applied to every digest before it is committed, if
    /// any.
    pub mask: Option<u8>,
    /// How every digest is committed.
    pub form: DigestForm,
}

/// One stage of a guest program: the algorithm and its parameters.
#[derive(Clone, Debug, PartialEq, Eq)]
pub enum Algorithm {
    /// Commits one digest per round.
    HashChain(HashChain),
    /// Advances `(x0, x1)` `steps` times in 32-bit wraparound arithmetic
    /// and commits the second component.
    Recurrence32 { x0: u32, x1: u32, steps: u32 },
    /// Advances `(x0, x1)` `steps` times in 64-bit wraparound arithmetic
    /// and commits the second component.
    Recurrence64 { x0: u64, x1: u64, steps: u32 },
}

impl HashChain {
    /// The message of the first round, given the segment that the chain
    /// would read.
    pub open spec fn first_message(self, input: Seq<u8>) -> Seq<u8> {
        match self.message {
            MessageSource::Fixed(bytes) => bytes@,
            MessageSource::Input => input,
        }
    }

    /// The digest that round `round` commits, counting from zero: the hash
    /// of the round's message, truncated where the chain has a mask.
    pub open spec fn round_digest(self, first: Seq<u8>, round: nat) -> Seq<u8>
        decreases round,
    {
        if round == 0 || !self.feedback {
            masked(digest_of(self.function, first), self.mask)
        } else {
            masked(
                digest_of(self.function, self.round_digest(first, (round - 1) as nat)),
                self.mask,
            )
        }
    }

    /// The values that the first `rounds` rounds commit, in order.
    pub open spec fn values(self, first: Seq<u8>, rounds: nat) -> Seq<ValueView>
        decreases rounds,
    {
        if rounds == 0 {
            Seq::empty()
        } else {
            self.values(first, (rounds - 1) as nat) + digest_values(
                self.round_digest(first, (rounds - 1) as nat),
                self.form,
            )
        }
    }

    /// The layout of what the first `rounds` rounds commit.
    pub open spec fn layout(self, rounds: nat) -> Seq<ValueType>
        decreases rounds,
    {
        if rounds == 0 {
            Seq::empty()
        } else {
            self.layout((rounds - 1) as nat) + digest_layout(self.form)
        }
    }
}

/// The values that committing a digest in a form produces.
pub open spec fn digest_values(digest: Seq<u8>, form: DigestForm) -> Seq<ValueView> {
    match form {
        DigestForm::Raw => seq![ValueView::Bytes(digest)],
        DigestForm::Words => word_values(words_of(digest)),
    }
}

/// The layout of one committed digest: one 32-byte array, or eight words.
pub open spec fn digest_layout(form: DigestForm) -> Seq<ValueType> {
    match form {
        DigestForm::Raw => seq![ValueType::Bytes(32)],
        DigestForm::Words => Seq::new(8, |i: int| ValueType::Word32),
    }
}

/// The number of input segments that a stage reads: one for a hash chain
/// that takes its message from the input, none otherwise.
pub open spec fn stage_reads(stage: Algorithm) -> nat {
    match stage {
        Algorithm::HashChain(chain) => match chain.message {
            MessageSource::Input => 1,
            MessageSource::Fixed(_) => 0,
        },
        _ => 0,
    }
}

/// The values that a stage commits, given the segment that it would read.
pub open spec fn stage_values(stage: Algorithm, input: Seq<u8>) -> Seq<ValueView> {
    match stage {
        Algorithm::HashChain(chain) => chain.values(
            chain.first_message(input),
            chain.rounds as nat,
        ),
        Algorithm::Recurrence32 { x0, x1, steps } => seq![
            ValueView::Word32(term_u32(x0, x1, steps as nat + 1)),
        ],
        Algorithm::Recurrence64 { x0, x1, steps } => seq![
            ValueView::Word64(term_u64(x0, x1, steps as nat + 1)),
        ],
    }
}

/// The layout of what a stage commits.
pub open spec fn stage_layout(stage: Algorithm) -> Seq<ValueType> {
    match stage {
        Algorithm::HashChain(chain) => chain.layout(chain.rounds as nat),
        Algorithm::Recurrence32 { .. } => seq![ValueType::Word32],
        Algorithm::Recurrence64 { .. } => seq![ValueType::Word64],
    }
}

/// The number of input segments that a program reads.
pub open spec fn required_inputs(program: Seq<Algorithm>) -> nat
    decreases program.len(),
{
    if program.len() == 0 {
        0
    } else {
        required_inputs(program.drop_last()) + stage_reads(program.last())
    }
}

/// The values that a program commits on the given input segments, in commit
/// order. Each stage that reads takes the segment after those that the
/// stages before it have read.
pub open spec fn program_values(program: Seq<Algorithm>, inputs: Seq<Seq<u8>>) -> Seq<ValueView>
    decreases program.len(),
{
    if program.len() == 0 {
        Seq::empty()
    } else {
        program_values(program.drop_last(), inputs) + stage_values(
            program.last(),
            inputs[required_inputs(program.drop_last()) as int],
        )
    }
}

/// The layout under which the journal of a program decodes.
pub open spec fn program_layout(program: Seq<Algorithm>) -> Seq<ValueType>
    decreases program.len(),
{
    if program.len() == 0 {
        Seq::empty()
    } else {
        program_layout(program.drop_last()) + stage_layout(program.last())
    }
}

/// What executing a program on the given input segments results in: a
/// fault where the program reads more segments than there are, and
/// otherwise the journal of the values that it commits.
pub open spec fn execution_result(program: Seq<Algorithm>, inputs: Seq<Seq<u8>>) -> Result<
    Seq<u8>,
    GuestExecutionFault,
> {
    if inputs.len() < required_inputs(program) {
        Err(GuestExecutionFault::ReadPastInput)
    } else {
        Ok(encode_values(program_values(program, inputs)))
    }
}

/// Whether the values can exist in memory and have exactly the layout.
pub open spec fn well_typed(values: Seq<ValueView>, layout: Seq<ValueType>) -> bool {
    all_representable(values) && layout_of(values) == layout
}

/// Runs the rounds of a hash chain on its first message, committing one
/// digest per round.
fn run_chain(guest: &mut Guest<'_>, chain: &HashChain, first: &[u8])
    ensures
        final(guest).inputs() == old(guest).inputs(),
        final(guest).cursor() == old(guest).cursor(),
        final(guest).journal() == old(guest).journal() + encode_values(
            chain.values(first@, chain.rounds as nat),
        ),
        well_typed(chain.values(first@, chain.rounds as nat), chain.layout(chain.rounds as nat)),
{
    let mut previous: [u8; 32] = [0u8; 32];
    let mut round: u32 = 0;
    proof {
        assert(guest.journal() =~= old(guest).journal() + encode_values(chain.values(first@, 0)));
        assert(layout_of(chain.values(first@, 0)) =~= chain.layout(0));
    }
    while round < chain.rounds
        invariant
            round <= chain.rounds,
            guest.inputs() == old(guest).inputs(),
            guest.cursor() == old(guest).cursor(),
            guest.journal() == old(guest).journal() + encode_values(
                chain.values(first@, round as nat),
            ),
            well_typed(chain.values(first@, round as nat), chain.layout(round as nat)),
            round > 0 ==> previous@ == chain.round_digest(first@, (round - 1) as nat),
        decreases chain.rounds - round,
    {
        let hashed = if round == 0 || !chain.feedback {
            digest(chain.function, first)
        } else {
            digest(chain.function, previous.as_slice())
        };
        let committed = apply_mask(hashed, chain.mask);
        assert(committed@ == chain.round_digest(first@, round as nat));
        let ghost before = chain.values(first@, round as nat);
        let ghost added = digest_values(committed@, chain.form);
        match chain.form {
            DigestForm::Raw => {
                guest.commit_bytes(committed.as_slice());
                proof {
                    lemma_encoding_single(ValueView::Bytes(committed@));
                    assert(layout_of(added) =~= digest_layout(chain.form));
                }
            },
            DigestForm::Words => {
                let words = digest_words(&committed);
                guest.commit_words(words.as_slice());
                proof {
                    assert(layout_of(added) =~= digest_layout(chain.form));
                }
            },
        }
        proof {
            lemma_encoding_concat(before, added);
            lemma_layout_concat(before, added);
            assert(guest.journal() =~= old(guest).journal() + encode_values(before + added));
        }
        previous = committed;
        round = round + 1;
    }
}

/// Whether a stage faults when the guest has read `cursor` of the input
/// segments: it reads, and none is left.
pub open spec fn stage_faults(stage: Algorithm, inputs: Seq<Seq<u8>>, cursor: nat) -> bool {
    stage_reads(stage) > 0 && cursor >= inputs.len()
}

/// Runs one stage. A stage that reads takes the next input segment first;
/// where none is left the stage faults and commits nothing. Otherwise it
/// commits its values, in order.
pub fn run_stage(guest: &mut Guest<'_>, stage: &Algorithm) -> (result: Result<
    (),
    GuestExecutionFault,
>)
    ensures
        final(guest).inputs() == old(guest).inputs(),
        stage_faults(*stage, old(guest).inputs(), old(guest).cursor()) <==> result is Err,
        result matches Err(fault) ==> fault == GuestExecutionFault::ReadPastInput,
        result is Err ==> final(guest).cursor() == old(guest).cursor(),
        result is Err ==> final(guest).journal() == old(guest).journal(),
        result is Ok ==> final(guest).cursor() == old(guest).cursor() + stage_reads(*stage),
        result is Ok ==> final(guest).journal() == old(guest).journal() + encode_values(
            stage_values(*stage, old(guest).inputs()[old(guest).cursor() as int]),
        ),
        result is Ok ==> well_typed(
            stage_values(*stage, old(guest).inputs()[old(guest).cursor() as int]),
            stage_layout(*stage),
        ),
{
    match stage {
        Algorithm::HashChain(chain) => {
            match &chain.message {
                MessageSource::Fixed(bytes) => {
                    run_chain(guest, chain, bytes.as_slice());
                },
                MessageSource::Input => {
                    match guest.read() {
                        Ok(segment) => {
                            run_chain(guest, chain, segment);
                        },
                        Err(fault) => {
                            return Err(fault);
                        },
                    }
                },
            }
        },
        Algorithm::Recurrence32 { x0, x1, steps } => {
            let term = recurrence_u32(*x0, *x1, *steps);
            guest.commit_u32(term);
            proof {
                lemma_encoding_single(ValueView::Word32(term));
                assert(layout_of(seq![ValueView::Word32(term)]) =~= seq![ValueType::Word32]);
            }
        },
        Algorithm::Recurrence64 { x0, x1, steps } => {
            let term = recurrence_u64(*x0, *x1, *steps);
            guest.commit_u64(term);
            proof {
                lemma_encoding_single(ValueView::Word64(term));
                assert(layout_of(seq![ValueView::Word64(term)]) =~= seq![ValueType::Word64]);
            }
        },
    }
    Ok(())
}

/// Executes a program on a context and hands out the bytes of its journal.
///
/// The execution faults if and only if the program reads more input
/// segments than the context holds, and then no journal is handed out.
/// Otherwise the journal is the encoding of the values that the program
/// commits, it is exactly as long as the program's layout is wide, and it
/// decodes under that layout to those values.
pub fn execute(program: &[Algorithm], context: &ExecutionContext) -> (result: Result<
    Vec<u8>,
    GuestExecutionFault,
>)
    ensures
        context@.len() < required_inputs(program@) <==> result is Err,
        result matches Err(fault) ==> execution_result(program@, context@) == Err::<
            Seq<u8>,
            GuestExecutionFault,
        >(fault),
        result matches Ok(journal) ==> execution_result(program@, context@) == Ok::<
            Seq<u8>,
            GuestExecutionFault,
        >(journal@),
        result matches Ok(journal) ==> journal@.len() == layout_width(program_layout(program@))
            && decode_values(journal@, program_layout(program@)) == program_values(
            program@,
            context@,
        ),
{
    let mut guest = Guest::new(context);
    let mut i: usize = 0;
    proof {
        assert(program@.take(0) =~= Seq::<Algorithm>::empty());
        assert(layout_of(program_values(program@.take(0), context@)) =~= program_layout(
            program@.take(0),
        ));
    }
    while i < program.len()
        invariant
            i <= program.len(),
            guest.inputs() == context@,
            guest.cursor() == required_inputs(program@.take(i as int)),
            guest.cursor() <= context@.len(),
            guest.journal() == encode_values(program_values(program@.take(i as int), context@)),
            well_typed(
                program_values(program@.take(i as int), context@),
                program_layout(program@.take(i as int)),
            ),
        decreases program.len() - i,
    {
        let ghost before = program_values(program@.take(i as int), context@);
        let ghost added = stage_values(program@[i as int], context@[guest.cursor() as int]);
        proof {
            assert(program@.take(i + 1).drop_last() =~= program@.take(i as int));
            lemma_required_inputs_monotonic(program@, i + 1);
        }
        match run_stage(&mut guest, &program[i]) {
            Ok(()) => {},
            Err(fault) => {
                return Err(fault);
            },
        }
        proof {
            lemma_encoding_concat(before, added);
            lemma_layout_concat(before, added);
        }
        i = i + 1;
    }
    proof {
        assert(program@.take(i as int) =~= program@);
        lemma_round_trip(program_values(program@, context@));
    }
    Ok(guest.finish())
}

/// The layout under which the host decodes the journal of a program.
pub fn expected_layout(program: &[Algorithm]) -> (layout: Vec<ValueType>)
    ensures
        layout@ == program_layout(program@),
{
    let mut layout: Vec<ValueType> = Vec::new();
    let mut i: usize = 0;
    assert(program@.take(0) =~= Seq::<Algorithm>::empty());
    while i < program.len()
        invariant
            i <= program.len(),
            layout@ == program_layout(program@.take(i as int)),
        decreases program.len() - i,
    {
        proof {
            assert(program@.take(i + 1).drop_last() =~= program@.take(i as int));
        }
        match &program[i] {
            Algorithm::HashChain(chain) => {
                let mut round: u32 = 0;
                let ghost base = layout@;
                assert(layout@ =~= base + chain.layout(0));
                while round < chain.rounds
                    invariant
                        round <= chain.rounds,
                        layout@ == base + chain.layout(round as nat),
                    decreases chain.rounds - round,
                {
                    match chain.form {
                        DigestForm::Raw => {
                            layout.push(ValueType::Bytes(32));
                        },
                        DigestForm::Words => {
                            let mut word: usize = 0;
                            let ghost start = layout@;
                            while word < 8
                                invariant
                                    word <= 8,
                                    layout@ == start + Seq::new(
                                        word as nat,
                                        |k: int| ValueType::Word32,
                                    ),
                                decreases 8 - word,
                            {
                                layout.push(ValueType::Word32);
                                word = word + 1;
                                assert(layout@ =~= start + Seq::new(
                                    word as nat,
                                    |k: int| ValueType::Word32,
                                ));
                            }
                        },
                    }
                    round = round + 1;
                    assert(layout@ =~= base + chain.layout(round as nat));
                }
            },
            Algorithm::Recurrence32 { .. } => {
                layout.push(ValueType::Word32);
                assert(layout@ =~= program_layout(program@.take(i + 1)));
            },
            Algorithm::Recurrence64 { .. } => {
                layout.push(ValueType::Word64);
                assert(layout@ =~= program_layout(program@.take(i + 1)));
            },
        }
        i = i + 1;
    }
    assert(program@.take(i as int) =~= program@);
    layout
}

/// The number of input segments that a program reads.
pub fn input_count(program: &[Algorithm]) -> (count: usize)
    ensures
        count == required_inputs(program@),
{
    let mut count: usize = 0;
    let mut i: usize = 0;
    assert(program@.take(0) =~= Seq::<Algorithm>::empty());
    while i < program.len()
        invariant
            i <= program.len(),
            count <= i,
            count == required_inputs(program@.take(i as int)),
        decreases program.len() - i,
    {
        proof {
            assert(program@.take(i + 1).drop_last() =~= program@.take(i as int));
        }
        match &program[i] {
            Algorithm::HashChain(chain) => {
                match &chain.message {
                    MessageSource::Input => {
                        count = count + 1;
                    },
                    MessageSource::Fixed(_) => {},
                }
            },
            _ => {},
        }
        i = i + 1;
    }
    assert(program@.take(i as int) =~= program@);
    count
}

/// The empty program reads nothing and commits nothing.
pub proof fn lemma_empty_program(inputs: Seq<Seq<u8>>)
    ensures
        required_inputs(Seq::<Algorithm>::empty()) == 0,
        program_layout(Seq::<Algorithm>::empty()) == Seq::<ValueType>::empty(),
        program_values(Seq::<Algorithm>::empty(), inputs) == Seq::<ValueView>::empty(),
{
}

/// A program with one more stage at its end reads, commits and lays out
/// what the program before did, followed by what the new stage does. The
/// new stage reads the segment after those that the program before read.
pub proof fn lemma_push_stage(program: Seq<Algorithm>, stage: Algorithm, inputs: Seq<Seq<u8>>)
    ensures
        required_inputs(program.push(stage)) == required_inputs(program) + stage_reads(stage),
        program_layout(program.push(stage)) == program_layout(program) + stage_layout(stage),
        program_values(program.push(stage), inputs) == program_values(program, inputs)
            + stage_values(stage, inputs[required_inputs(program) as int]),
{
    assert(program.push(stage).drop_last() =~= program);
    assert(program.push(stage).last() == stage);
}

/// A program reads at least as many segments as any of its prefixes.
pub proof fn lemma_required_inputs_monotonic(program: Seq<Algorithm>, count: int)
    requires
        0 <= count <= program.len(),
    ensures
        required_inputs(program.take(count)) <= required_inputs(program),
    decreases program.len(),
{
    if count == program.len() {
        assert(program.take(count) =~= program);
    } else {
        lemma_required_inputs_monotonic(program.drop_last(), count);
        assert(program.drop_last().take(count) =~= program.take(count));
    }
}

/// What a program commits depends on the input segments only through
/// those that it reads: two lists of segments that agree on them give the
/// same values.
pub proof fn lemma_values_depend_on_read_inputs(
    program: Seq<Algorithm>,
    first: Seq<Seq<u8>>,
    second: Seq<Seq<u8>>,
)
    requires
        forall|i: int| 0 <= i < required_inputs(program) ==> first[i] == second[i],
    ensures
        program_values(program, first) == program_values(program, second),
    decreases program.len(),
{
    if program.len() > 0 {
        let before = program.drop_last();
        lemma_values_depend_on_read_inputs(before, first, second);
        let index = required_inputs(before) as int;
        if stage_reads(program.last()) > 0 {
            assert(first[index] == second[index]);
        }
        assert(stage_values(program.last(), first[index]) == stage_values(
            program.last(),
            second[index],
        ));
    }
}

/// Determinism: the journal of an execution is a function of the program
/// and the input segments. Two executions of one program on one context
/// end alike, and where they hand out journals these are byte for byte the
/// same.
pub proof fn lemma_execution_deterministic(
    program: Seq<Algorithm>,
    inputs: Seq<Seq<u8>>,
    first: Result<Seq<u8>, GuestExecutionFault>,
    second: Result<Seq<u8>, GuestExecutionFault>,
)
    requires
        first == execution_result(program, inputs),
        second == execution_result(program, inputs),
    ensures
        first == second,
{
}

} // verus!
