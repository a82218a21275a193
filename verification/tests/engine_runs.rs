use zk_journal::context::ContextBuilder;
use zk_journal::context::ExecutionContext;
use zk_journal::digest::HashFunction;
use zk_journal::digest::TRUNCATION_MASK;
use zk_journal::engine::execute;
use zk_journal::engine::expected_layout;
use zk_journal::engine::input_count;
use zk_journal::engine::run_stage;
use zk_journal::engine::Algorithm;
use zk_journal::engine::DigestForm;
use zk_journal::engine::HashChain;
use zk_journal::engine::MessageSource;
use zk_journal::guest::Guest;
use zk_journal::guest::GuestExecutionFault;
use zk_journal::journal::decode;
use zk_journal::journal::CommittedValue;
use zk_journal::journal::ValueType;
use zk_journal::programs::blake2_digests;
use zk_journal::programs::fibonacci_series;
use zk_journal::programs::fibonacci_u32;
use zk_journal::programs::fibonacci_u64;
use zk_journal::programs::keccak_hello;

const BLAKE2S_A: [u8; 32] = [
    0x98, 0xe1, 0x4b, 0xd2, 0x64, 0xb8, 0x83, 0x7d, 0xdf, 0x8f, 0xd1, 0x2d, 0x6f, 0x56, 0x41, 0xd5,
    0x9c, 0x36, 0x97, 0x20, 0xb0, 0x2c, 0x10, 0x5f, 0xea, 0xf9, 0x9f, 0x1b, 0x6a, 0x7b, 0x96, 0x18,
];

const BLAKE2S_B: [u8; 32] = [
    0xb1, 0x26, 0x89, 0xdc, 0x38, 0x62, 0x1e, 0x98, 0xd8, 0xcc, 0x05, 0x01, 0x77, 0x16, 0xab, 0x17,
    0xbe, 0x95, 0xd9, 0x4f, 0x85, 0x2d, 0x93, 0x6d, 0x72, 0x90, 0xa6, 0xd8, 0x4d, 0xaf, 0x3f, 0x70,
];

const BLAKE2S_C: [u8; 32] = [
    0xa7, 0x05, 0x1d, 0x7a, 0x7d, 0xf2, 0x25, 0xd3, 0x53, 0x70, 0x2b, 0x7b, 0xb1, 0x31, 0x3d, 0xb6,
    0xcc, 0x0e, 0x1e, 0x34, 0xf8, 0xc5, 0xaf, 0x3d, 0xb4, 0xc0, 0x9c, 0x93, 0xd7, 0x16, 0x80, 0x7d,
];

const BLAKE2S_123: [u8; 32] = [
    0x5f, 0x76, 0xd3, 0x9b, 0x04, 0x2c, 0x1b, 0x60, 0x00, 0x04, 0x1e, 0x7b, 0xa3, 0x74, 0x6c, 0x8f,
    0x1d, 0x47, 0x07, 0x42, 0x5c, 0x57, 0x1c, 0xeb, 0xd7, 0x0c, 0xab, 0x0f, 0x87, 0x31, 0x7e, 0xff,
];

const KECCAK_HELLO: [u8; 32] = [
    0x47, 0x17, 0x32, 0x85, 0xa8, 0xd7, 0x34, 0x1e, 0x5e, 0x97, 0x2f, 0xc6, 0x77, 0x28, 0x63, 0x84,
    0xf8, 0x02, 0xf8, 0xef, 0x42, 0xa5, 0xec, 0x5f, 0x03, 0xbb, 0xfa, 0x25, 0x4c, 0xb0, 0x1f, 0xad,
];

const KECCAK_OF_KECCAK_HELLO: [u8; 32] = [
    0x04, 0xcd, 0x40, 0xa3, 0xea, 0x79, 0x72, 0xc6, 0xf3, 0x01, 0x42, 0xd0, 0x2f, 0xd5, 0xdd, 0xca,
    0xc4, 0x38, 0xfe, 0x6c, 0x59, 0xe6, 0x34, 0xce, 0xcb, 0x82, 0x7f, 0xbe, 0xe9, 0xd3, 0x85, 0xfc,
];

const KECCAK_HELLO_CUT: [u8; 32] = [
    0x03, 0x17, 0x32, 0x85, 0xa8, 0xd7, 0x34, 0x1e, 0x5e, 0x97, 0x2f, 0xc6, 0x77, 0x28, 0x63, 0x84,
    0xf8, 0x02, 0xf8, 0xef, 0x42, 0xa5, 0xec, 0x5f, 0x03, 0xbb, 0xfa, 0x25, 0x4c, 0xb0, 0x1f, 0xad,
];

const KECCAK_OF_CUT_THEN_CUT: [u8; 32] = [
    0x02, 0x36, 0xe8, 0x10, 0x0c, 0x82, 0xbf, 0x60, 0x43, 0x10, 0x42, 0x65, 0xa0, 0x0d, 0x0e, 0x6f,
    0x1d, 0x39, 0x45, 0x48, 0x8c, 0xdc, 0x44, 0x87, 0x3e, 0x4d, 0x0b, 0xa6, 0x2c, 0xf0, 0x76, 0x2f,
];

const KECCAK_123: [u8; 32] = [
    0xf1, 0x88, 0x5e, 0xda, 0x54, 0xb7, 0xa0, 0x53, 0x31, 0x8c, 0xd4, 0x1e, 0x20, 0x93, 0x22, 0x0d,
    0xab, 0x15, 0xd6, 0x53, 0x81, 0xb1, 0x15, 0x7a, 0x36, 0x33, 0xa8, 0x3b, 0xfd, 0x5c, 0x92, 0x39,
];

fn no_inputs() -> ExecutionContext {
    ContextBuilder::new().build().unwrap()
}

fn keccak_chain(
    message: MessageSource,
    rounds: u32,
    feedback: bool,
    mask: Option<u8>,
    form: DigestForm,
) -> Algorithm {
    Algorithm::HashChain(HashChain {
        function: HashFunction::Keccak256,
        message,
        rounds,
        feedback,
        mask,
        form,
    })
}

#[test]
fn fibonacci_program_commits_89_as_one_word() {
    let journal = execute(&fibonacci_u32(), &no_inputs()).unwrap();
    assert_eq!(journal.as_slice(), &[0, 0, 0, 89]);
    assert_eq!(
        decode(journal.as_slice(), &[ValueType::Word32]),
        Ok(vec![CommittedValue::Word32(89)])
    );
    assert_eq!(expected_layout(&fibonacci_u32()), vec![ValueType::Word32]);
}

#[test]
fn fibonacci_u64_program_commits_the_number() {
    let journal = execute(&fibonacci_u64(90), &no_inputs()).unwrap();
    assert_eq!(journal.as_slice(), &2_880_067_194_370_816_120u64.to_be_bytes());
    let journal = execute(&fibonacci_u64(0), &no_inputs()).unwrap();
    assert_eq!(journal.as_slice(), &[0; 8]);
    let journal = execute(&fibonacci_u64(94), &no_inputs()).unwrap();
    assert_eq!(journal.as_slice(), &1_293_530_146_158_671_551u64.to_be_bytes());
}

#[test]
fn fibonacci_series_commits_every_tenth_number() {
    let program = fibonacci_series(10, 10);
    assert_eq!(program.len(), 10);
    let journal = execute(&program, &no_inputs()).unwrap();
    let values = decode(journal.as_slice(), &expected_layout(&program)).unwrap();
    let expected: Vec<CommittedValue> = [
        0u64,
        55,
        6765,
        832_040,
        102_334_155,
        12_586_269_025,
        1_548_008_755_920,
        190_392_490_709_135,
        23_416_728_348_467_685,
        2_880_067_194_370_816_120,
    ]
    .iter()
    .map(|x| CommittedValue::Word64(*x))
    .collect();
    assert_eq!(values, expected);
    assert_eq!(journal.len(), 80);
}

#[test]
fn fibonacci_series_edges() {
    assert_eq!(fibonacci_series(10, 0), vec![]);
    assert_eq!(
        fibonacci_series(u32::MAX, 2),
        vec![
            Algorithm::Recurrence64 { x0: 1, x1: 0, steps: 0 },
            Algorithm::Recurrence64 { x0: 1, x1: 0, steps: u32::MAX },
        ]
    );
    assert_eq!(
        fibonacci_series(0, 3),
        vec![
            Algorithm::Recurrence64 { x0: 1, x1: 0, steps: 0 },
            Algorithm::Recurrence64 { x0: 1, x1: 0, steps: 0 },
            Algorithm::Recurrence64 { x0: 1, x1: 0, steps: 0 },
        ]
    );
}

#[test]
fn blake2_program_commits_three_digests() {
    let program = blake2_digests();
    let journal = execute(&program, &no_inputs()).unwrap();
    let mut expected = Vec::new();
    expected.extend_from_slice(&BLAKE2S_A);
    expected.extend_from_slice(&BLAKE2S_B);
    expected.extend_from_slice(&BLAKE2S_C);
    assert_eq!(journal.as_slice(), expected.as_slice());

    let layout = expected_layout(&program);
    let mut expected_types = vec![ValueType::Word32; 8];
    expected_types.push(ValueType::Bytes(32));
    expected_types.push(ValueType::Bytes(32));
    assert_eq!(layout, expected_types);

    let values = decode(journal.as_slice(), &layout).unwrap();
    assert_eq!(values.len(), 10);
    assert_eq!(values[0], CommittedValue::Word32(0x98e1_4bd2));
    assert_eq!(values[1], CommittedValue::Word32(0x64b8_837d));
    assert_eq!(values[7], CommittedValue::Word32(0x6a7b_9618));
    assert_eq!(values[8], CommittedValue::Bytes(BLAKE2S_B.to_vec()));
    assert_eq!(values[9], CommittedValue::Bytes(BLAKE2S_C.to_vec()));
}

#[test]
fn keccak_program_commits_one_digest_per_round() {
    let journal = execute(&keccak_hello(1), &no_inputs()).unwrap();
    assert_eq!(journal.as_slice(), &KECCAK_HELLO);

    let journal = execute(&keccak_hello(3), &no_inputs()).unwrap();
    let mut expected = Vec::new();
    for _ in 0..3 {
        expected.extend_from_slice(&KECCAK_HELLO);
    }
    assert_eq!(journal.as_slice(), expected.as_slice());
    assert_eq!(expected_layout(&keccak_hello(3)), vec![ValueType::Bytes(32); 3]);

    let journal = execute(&keccak_hello(0), &no_inputs()).unwrap();
    assert_eq!(journal.len(), 0);
}

#[test]
fn feedback_hashes_the_previous_digest() {
    let program =
        vec![keccak_chain(MessageSource::Fixed(b"hello world".to_vec()), 2, true, None, DigestForm::Raw)];
    let journal = execute(&program, &no_inputs()).unwrap();
    let mut expected = Vec::new();
    expected.extend_from_slice(&KECCAK_HELLO);
    expected.extend_from_slice(&KECCAK_OF_KECCAK_HELLO);
    assert_eq!(journal.as_slice(), expected.as_slice());
}

#[test]
fn feedback_hashes_the_digest_as_committed() {
    let program = vec![keccak_chain(
        MessageSource::Fixed(b"hello world".to_vec()),
        2,
        true,
        Some(TRUNCATION_MASK),
        DigestForm::Words,
    )];
    let journal = execute(&program, &no_inputs()).unwrap();
    let mut expected = Vec::new();
    expected.extend_from_slice(&KECCAK_HELLO_CUT);
    expected.extend_from_slice(&KECCAK_OF_CUT_THEN_CUT);
    assert_eq!(journal.as_slice(), expected.as_slice());
    let values = decode(journal.as_slice(), &expected_layout(&program)).unwrap();
    assert_eq!(values.len(), 16);
    assert_eq!(values[0], CommittedValue::Word32(0x0317_3285));
    assert_eq!(values[8], CommittedValue::Word32(0x0236_e810));
}

#[test]
fn truncated_digest_as_bytes() {
    let program = vec![keccak_chain(
        MessageSource::Fixed(b"hello world".to_vec()),
        1,
        false,
        Some(TRUNCATION_MASK),
        DigestForm::Raw,
    )];
    let journal = execute(&program, &no_inputs()).unwrap();
    assert_eq!(journal.as_slice(), &KECCAK_HELLO_CUT);
}

#[test]
fn input_message_is_read_from_the_context() {
    let program = vec![keccak_chain(MessageSource::Input, 1, false, None, DigestForm::Raw)];
    assert_eq!(input_count(&program), 1);
    let context = ContextBuilder::new()
        .require_inputs(input_count(&program))
        .add_input(vec![1, 2, 3])
        .build()
        .unwrap();
    let journal = execute(&program, &context).unwrap();
    assert_eq!(journal.as_slice(), &KECCAK_123);
}

#[test]
fn stages_read_segments_in_order() {
    let blake = Algorithm::HashChain(HashChain {
        function: HashFunction::Blake2s256,
        message: MessageSource::Input,
        rounds: 1,
        feedback: false,
        mask: None,
        form: DigestForm::Raw,
    });
    let program = vec![
        keccak_chain(MessageSource::Input, 1, false, None, DigestForm::Raw),
        Algorithm::Recurrence32 { x0: 0, x1: 1, steps: 10 },
        blake,
    ];
    assert_eq!(input_count(&program), 2);
    let context = ContextBuilder::new()
        .add_input(b"hello world".to_vec())
        .add_input(vec![1, 2, 3])
        .add_input(b"never read".to_vec())
        .build()
        .unwrap();
    let journal = execute(&program, &context).unwrap();
    let mut expected = Vec::new();
    expected.extend_from_slice(&KECCAK_HELLO);
    expected.extend_from_slice(&[0, 0, 0, 89]);
    expected.extend_from_slice(&BLAKE2S_123);
    assert_eq!(journal.as_slice(), expected.as_slice());
    assert_eq!(
        expected_layout(&program),
        vec![ValueType::Bytes(32), ValueType::Word32, ValueType::Bytes(32)]
    );
}

#[test]
fn reading_past_the_input_is_a_fault() {
    let program = vec![
        Algorithm::Recurrence32 { x0: 0, x1: 1, steps: 10 },
        keccak_chain(MessageSource::Input, 1, false, None, DigestForm::Raw),
    ];
    assert_eq!(execute(&program, &no_inputs()), Err(GuestExecutionFault::ReadPastInput));

    let two_reads = vec![
        keccak_chain(MessageSource::Input, 1, false, None, DigestForm::Raw),
        keccak_chain(MessageSource::Input, 1, false, None, DigestForm::Raw),
    ];
    let one_segment = ContextBuilder::new().add_input(vec![1]).build().unwrap();
    assert_eq!(execute(&two_reads, &one_segment), Err(GuestExecutionFault::ReadPastInput));
}

#[test]
fn a_faulting_stage_commits_nothing() {
    let context = no_inputs();
    let mut guest = Guest::new(&context);
    guest.commit_u32(7);
    let stage = keccak_chain(MessageSource::Input, 3, false, None, DigestForm::Raw);
    assert_eq!(run_stage(&mut guest, &stage), Err(GuestExecutionFault::ReadPastInput));
    assert_eq!(guest.finish().as_slice(), &[0, 0, 0, 7]);
}

#[test]
fn a_stage_appends_to_what_was_committed() {
    let context = no_inputs();
    let mut guest = Guest::new(&context);
    guest.commit_u32(7);
    assert_eq!(
        run_stage(&mut guest, &Algorithm::Recurrence64 { x0: 2, x1: 5, steps: 3 }),
        Ok(())
    );
    assert_eq!(guest.finish().as_slice(), &[0, 0, 0, 7, 0, 0, 0, 0, 0, 0, 0, 19]);
}

#[test]
fn guest_reads_each_segment_once() {
    let context =
        ContextBuilder::new().add_input(vec![1]).add_input(vec![2, 2]).build().unwrap();
    let mut guest = Guest::new(&context);
    assert_eq!(guest.read(), Ok(&[1u8][..]));
    assert_eq!(guest.read(), Ok(&[2u8, 2][..]));
    assert_eq!(guest.read(), Err(GuestExecutionFault::ReadPastInput));
    assert_eq!(guest.read(), Err(GuestExecutionFault::ReadPastInput));
    guest.commit(&CommittedValue::Bytes(vec![9]));
    guest.commit_u64(1);
    guest.commit_words(&[2]);
    guest.commit_bytes(&[3]);
    assert_eq!(guest.finish().as_slice(), &[9, 0, 0, 0, 0, 0, 0, 0, 1, 0, 0, 0, 2, 3]);
}

#[test]
fn two_runs_give_the_same_journal() {
    let program = vec![
        keccak_chain(MessageSource::Input, 3, true, Some(3), DigestForm::Words),
        Algorithm::Recurrence64 { x0: 1, x1: 1, steps: 1000 },
        Algorithm::HashChain(HashChain {
            function: HashFunction::Blake2s256,
            message: MessageSource::Fixed(vec![0xab; 100]),
            rounds: 2,
            feedback: false,
            mask: None,
            form: DigestForm::Raw,
        }),
    ];
    let context = ContextBuilder::new().add_input(vec![4, 5, 6]).build().unwrap();
    let first = execute(&program, &context).unwrap();
    let second = execute(&program, &context).unwrap();
    assert_eq!(first.as_slice(), second.as_slice());
    assert_eq!(first.len(), 3 * 32 + 8 + 2 * 32);

    let same_context = ContextBuilder::new().add_input(vec![4, 5, 6]).build().unwrap();
    assert_eq!(execute(&program, &same_context).unwrap().as_slice(), first.as_slice());

    let other_context = ContextBuilder::new().add_input(vec![4, 5, 7]).build().unwrap();
    assert_ne!(execute(&program, &other_context).unwrap().as_slice(), first.as_slice());
}

#[test]
fn empty_program_commits_nothing() {
    let journal = execute(&[], &no_inputs()).unwrap();
    assert_eq!(journal.len(), 0);
    assert_eq!(expected_layout(&[]), vec![]);
    assert_eq!(input_count(&[]), 0);
}

#[test]
fn journal_decodes_under_the_expected_layout() {
    let program = vec![
        Algorithm::Recurrence32 { x0: 0, x1: 1, steps: 10 },
        keccak_chain(MessageSource::Fixed(b"hello world".to_vec()), 1, false, None, DigestForm::Raw),
        Algorithm::Recurrence64 { x0: 1, x1: 0, steps: 90 },
    ];
    let journal = execute(&program, &no_inputs()).unwrap();
    assert_eq!(
        decode(journal.as_slice(), &expected_layout(&program)),
        Ok(vec![
            CommittedValue::Word32(89),
            CommittedValue::Bytes(KECCAK_HELLO.to_vec()),
            CommittedValue::Word64(2_880_067_194_370_816_120),
        ])
    );
}
