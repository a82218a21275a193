//! The guest programs that ship with the library, each a list of stages
//! for the engine.

use vstd::prelude::*;
use crate::digest::blake2s256;
use crate::digest::keccak256;
use crate::digest::words_of;
use crate::digest::HashFunction;
use crate::engine::digest_layout;
use crate::engine::digest_values;
use crate::engine::lemma_empty_program;
use crate::engine::lemma_push_stage;
use crate::engine::program_layout;
use crate::engine::program_values;
use crate::engine::required_inputs;
use crate::engine::stage_values;
use crate::engine::Algorithm;
use crate::engine::DigestForm;
use crate::engine::HashChain;
use crate::engine::MessageSource;
use crate::journal::word_values;
use crate::journal::ValueType;
use crate::journal::ValueView;
use crate::recurrence::fib;
use crate::recurrence::lemma_fibonacci_terms;
use crate::recurrence::term_u32;

verus! {

/// The bytes of the text `hello world`.
pub open spec fn hello_world() -> Seq<u8> {
    seq![104u8, 101u8, 108u8, 108u8, 111u8, 32u8, 119u8, 111u8, 114u8, 108u8, 100u8]
}

/// The program that advances the pair (0, 1) ten times in 32-bit
/// arithmetic and commits the second component, 89, as one 32-bit word.
pub fn fibonacci_u32() -> (program: Vec<Algorithm>)
    ensures
        required_inputs(program@) == 0,
        program_layout(program@) == seq![ValueType::Word32],
        forall|inputs: Seq<Seq<u8>>| #[trigger]
            program_values(program@, inputs) == seq![ValueView::Word32(89)],
{
    let mut program: Vec<Algorithm> = Vec::new();
    let stage = Algorithm::Recurrence32 { x0: 0, x1: 1, steps: 10 };
    program.push(stage);
    proof {
        let empty = Seq::<Algorithm>::empty();
        assert(program@ =~= empty.push(stage));
        assert(term_u32(0, 1, 11) == 89) by {
            reveal_with_fuel(term_u32, 12);
        }
        lemma_empty_program(Seq::empty());
        lemma_push_stage(empty, stage, Seq::empty());
        assert(program_layout(program@) =~= seq![ValueType::Word32]);
        assert forall|inputs: Seq<Seq<u8>>| #[trigger]
            program_values(program@, inputs) == seq![ValueView::Word32(89)] by {
            lemma_empty_program(inputs);
            lemma_push_stage(empty, stage, inputs);
            assert(program_values(program@, inputs) =~= seq![ValueView::Word32(89)]);
        }
    }
    program
}

/// The program that commits the `n`-th Fibonacci number, reduced modulo
/// two to the 64, as one 64-bit word.
pub fn fibonacci_u64(n: u32) -> (program: Vec<Algorithm>)
    ensures
        required_inputs(program@) == 0,
        program_layout(program@) == seq![ValueType::Word64],
        forall|inputs: Seq<Seq<u8>>| #[trigger]
            program_values(program@, inputs) == seq![
                ValueView::Word64((fib(n as nat) % 0x1_0000_0000_0000_0000) as u64),
            ],
{
    let mut program: Vec<Algorithm> = Vec::new();
    let stage = Algorithm::Recurrence64 { x0: 1, x1: 0, steps: n };
    program.push(stage);
    proof {
        let empty = Seq::<Algorithm>::empty();
        assert(program@ =~= empty.push(stage));
        lemma_fibonacci_terms(n as nat);
        lemma_empty_program(Seq::empty());
        lemma_push_stage(empty, stage, Seq::empty());
        assert(program_layout(program@) =~= seq![ValueType::Word64]);
        assert forall|inputs: Seq<Seq<u8>>| #[trigger]
            program_values(program@, inputs) == seq![
                ValueView::Word64((fib(n as nat) % 0x1_0000_0000_0000_0000) as u64),
            ] by {
            lemma_empty_program(inputs);
            lemma_push_stage(empty, stage, inputs);
            assert(program_values(program@, inputs) =~= seq![
                ValueView::Word64((fib(n as nat) % 0x1_0000_0000_0000_0000) as u64),
            ]);
        }
    }
    program
}

/// The values that the Fibonacci series of `count` entries commits: entry
/// `i` is the Fibonacci number of index `stride * i`, reduced modulo two to
/// the 64.
pub open spec fn series_values(stride: u32, count: nat) -> Seq<ValueView> {
    Seq::new(
        count,
        |i: int| ValueView::Word64((fib((stride * i) as nat) % 0x1_0000_0000_0000_0000) as u64),
    )
}

/// The program that commits `count` Fibonacci numbers as 64-bit words:
/// those of index 0, `stride`, twice `stride`, and so on. The largest
/// index must fit in 32 bits.
pub fn fibonacci_series(stride: u32, count: u32) -> (program: Vec<Algorithm>)
    requires
        count > 0 ==> stride * (count - 1) <= u32::MAX,
    ensures
        required_inputs(program@) == 0,
        program_layout(program@) == Seq::new(count as nat, |i: int| ValueType::Word64),
        forall|inputs: Seq<Seq<u8>>| #[trigger]
            program_values(program@, inputs) == series_values(stride, count as nat),
{
    let mut program: Vec<Algorithm> = Vec::new();
    let mut i: u32 = 0;
    let mut n: u32 = 0;
    proof {
        assert(program@ =~= Seq::<Algorithm>::empty());
        lemma_empty_program(Seq::empty());
        assert(program_layout(program@) =~= Seq::new(0, |k: int| ValueType::Word64));
        assert forall|inputs: Seq<Seq<u8>>| #[trigger]
            program_values(program@, inputs) == series_values(stride, 0) by {
            lemma_empty_program(inputs);
            assert(program_values(program@, inputs) =~= series_values(stride, 0));
        }
    }
    while i < count
        invariant
            i <= count,
            count > 0 ==> stride * (count - 1) <= u32::MAX,
            i < count ==> n == stride * i,
            program@.len() == i,
            required_inputs(program@) == 0,
            program_layout(program@) == Seq::new(i as nat, |k: int| ValueType::Word64),
            forall|inputs: Seq<Seq<u8>>| #[trigger]
                program_values(program@, inputs) == series_values(stride, i as nat),
        decreases count - i,
    {
        let ghost before = program@;
        let stage = Algorithm::Recurrence64 { x0: 1, x1: 0, steps: n };
        program.push(stage);
        proof {
            assert(program@ =~= before.push(stage));
            lemma_fibonacci_terms(n as nat);
            lemma_push_stage(before, stage, Seq::empty());
            assert(program_layout(program@) =~= Seq::new(
                (i + 1) as nat,
                |k: int| ValueType::Word64,
            ));
            assert forall|inputs: Seq<Seq<u8>>| #[trigger]
                program_values(program@, inputs) == series_values(stride, (i + 1) as nat) by {
                lemma_push_stage(before, stage, inputs);
                assert(program_values(before, inputs) == series_values(stride, i as nat));
                assert(program_values(program@, inputs) =~= series_values(
                    stride,
                    (i + 1) as nat,
                ));
            }
        }
        i = i + 1;
        if i < count {
            assert(stride * i <= stride * (count - 1)) by (nonlinear_arith)
                requires
                    i <= count - 1,
            ;
            assert(stride * i == stride * (i - 1) + stride) by (nonlinear_arith);
            n = n + stride;
        }
    }
    program
}

/// The program that hashes the one-byte messages `A`, `B` and `C` with
/// BLAKE2s-256 and commits the first digest as eight words and the other
/// two as byte arrays.
pub fn blake2_digests() -> (program: Vec<Algorithm>)
    ensures
        required_inputs(program@) == 0,
        program_layout(program@) == digest_layout(DigestForm::Words) + digest_layout(
            DigestForm::Raw,
        ) + digest_layout(DigestForm::Raw),
        forall|inputs: Seq<Seq<u8>>| #[trigger]
            program_values(program@, inputs) == word_values(words_of(blake2s256(seq![0x41u8])))
                + seq![ValueView::Bytes(blake2s256(seq![0x42u8]))] + seq![
                ValueView::Bytes(blake2s256(seq![0x43u8])),
            ],
{
    let first = single_digest(HashFunction::Blake2s256, one_byte(0x41), DigestForm::Words);
    let second = single_digest(HashFunction::Blake2s256, one_byte(0x42), DigestForm::Raw);
    let third = single_digest(HashFunction::Blake2s256, one_byte(0x43), DigestForm::Raw);
    let ghost stages = (first, second, third);
    let mut program: Vec<Algorithm> = Vec::new();
    program.push(first);
    program.push(second);
    program.push(third);
    proof {
        let empty = Seq::<Algorithm>::empty();
        let one = empty.push(stages.0);
        let two = one.push(stages.1);
        assert(program@ =~= two.push(stages.2));
        lemma_empty_program(Seq::empty());
        lemma_push_stage(empty, stages.0, Seq::empty());
        lemma_push_stage(one, stages.1, Seq::empty());
        lemma_push_stage(two, stages.2, Seq::empty());
        assert(program_layout(program@) =~= digest_layout(DigestForm::Words) + digest_layout(
            DigestForm::Raw,
        ) + digest_layout(DigestForm::Raw));
        assert forall|inputs: Seq<Seq<u8>>| #[trigger]
            program_values(program@, inputs) == word_values(words_of(blake2s256(seq![0x41u8])))
                + seq![ValueView::Bytes(blake2s256(seq![0x42u8]))] + seq![
                ValueView::Bytes(blake2s256(seq![0x43u8])),
            ] by {
            lemma_empty_program(inputs);
            lemma_push_stage(empty, stages.0, inputs);
            lemma_push_stage(one, stages.1, inputs);
            lemma_push_stage(two, stages.2, inputs);
            assert(program_values(one, inputs) =~= word_values(
                words_of(blake2s256(seq![0x41u8])),
            ));
        }
    }
    program
}

/// The program that hashes the text `hello world` with Keccak-256 in each
/// of `rounds` rounds and commits every digest as a byte array.
pub fn keccak_hello(rounds: u32) -> (program: Vec<Algorithm>)
    ensures
        required_inputs(program@) == 0,
        program_layout(program@) == Seq::new(rounds as nat, |i: int| ValueType::Bytes(32)),
        forall|inputs: Seq<Seq<u8>>| #[trigger]
            program_values(program@, inputs) == Seq::new(
                rounds as nat,
                |i: int| ValueView::Bytes(keccak256(hello_world())),
            ),
{
    let mut message: Vec<u8> = Vec::new();
    message.push(104);
    message.push(101);
    message.push(108);
    message.push(108);
    message.push(111);
    message.push(32);
    message.push(119);
    message.push(111);
    message.push(114);
    message.push(108);
    message.push(100);
    assert(message@ =~= hello_world());
    let chain = HashChain {
        function: HashFunction::Keccak256,
        message: MessageSource::Fixed(message),
        rounds,
        feedback: false,
        mask: None,
        form: DigestForm::Raw,
    };
    let ghost model = chain;
    let stage = Algorithm::HashChain(chain);
    let mut program: Vec<Algorithm> = Vec::new();
    program.push(stage);
    proof {
        let empty = Seq::<Algorithm>::empty();
        assert(program@ =~= empty.push(stage));
        lemma_repeated_layout(model, rounds as nat);
        lemma_repeated_values(model, hello_world(), rounds as nat);
        lemma_empty_program(Seq::empty());
        lemma_push_stage(empty, stage, Seq::empty());
        assert(program_layout(program@) =~= model.layout(rounds as nat));
        assert forall|inputs: Seq<Seq<u8>>| #[trigger]
            program_values(program@, inputs) == Seq::new(
                rounds as nat,
                |i: int| ValueView::Bytes(keccak256(hello_world())),
            ) by {
            lemma_empty_program(inputs);
            lemma_push_stage(empty, stage, inputs);
            assert(program_values(program@, inputs) =~= model.values(
                hello_world(),
                rounds as nat,
            ));
        }
    }
    program
}

/// A message of one byte.
fn one_byte(byte: u8) -> (message: Vec<u8>)
    ensures
        message@ == seq![byte],
{
    let mut message: Vec<u8> = Vec::new();
    message.push(byte);
    assert(message@ =~= seq![byte]);
    message
}

/// The stage that hashes a fixed message once and commits the digest, not
/// truncated, in the given form.
fn single_digest(function: HashFunction, message: Vec<u8>, form: DigestForm) -> (stage: Algorithm)
    ensures
        crate::engine::stage_reads(stage) == 0,
        crate::engine::stage_layout(stage) == digest_layout(form),
        forall|input: Seq<u8>| #[trigger]
            stage_values(stage, input) == digest_values(
                crate::digest::digest_of(function, message@),
                form,
            ),
{
    let chain = HashChain {
        function,
        message: MessageSource::Fixed(message),
        rounds: 1,
        feedback: false,
        mask: None,
        form,
    };
    proof {
        assert(chain.layout(1) =~= digest_layout(form)) by {
            assert(chain.layout(0) =~= Seq::<ValueType>::empty());
        }
        assert(chain.values(message@, 1) =~= digest_values(
            crate::digest::digest_of(function, message@),
            form,
        )) by {
            assert(chain.values(message@, 0) =~= Seq::<ValueView>::empty());
        }
    }
    Algorithm::HashChain(chain)
}

/// A chain that commits byte arrays has one 32-byte entry per round in its
/// layout.
proof fn lemma_repeated_layout(chain: HashChain, rounds: nat)
    requires
        chain.form is Raw,
    ensures
        chain.layout(rounds) == Seq::new(rounds, |i: int| ValueType::Bytes(32)),
    decreases rounds,
{
    if rounds > 0 {
        lemma_repeated_layout(chain, (rounds - 1) as nat);
    }
    assert(chain.layout(rounds) =~= Seq::new(rounds, |i: int| ValueType::Bytes(32)));
}

/// A chain without feedback and without a mask that commits byte arrays
/// commits the digest of its first message in every round.
proof fn lemma_repeated_values(chain: HashChain, first: Seq<u8>, rounds: nat)
    requires
        chain.form is Raw,
        !chain.feedback,
        chain.mask is None,
    ensures
        chain.values(first, rounds) == Seq::new(
            rounds,
            |i: int| ValueView::Bytes(crate::digest::digest_of(chain.function, first)),
        ),
    decreases rounds,
{
    if rounds > 0 {
        lemma_repeated_values(chain, first, (rounds - 1) as nat);
    }
    assert(chain.values(first, rounds) =~= Seq::new(
        rounds,
        |i: int| ValueView::Bytes(crate::digest::digest_of(chain.function, first)),
    ));
}

} // verus!
