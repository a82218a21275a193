use zk_journal::journal::decode;
use zk_journal::journal::encode;
use zk_journal::journal::layout;
use zk_journal::journal::value_type;
use zk_journal::journal::CommittedValue;
use zk_journal::journal::DecodeError;
use zk_journal::journal::Journal;
use zk_journal::journal::ValueType;

#[test]
fn new_journal_is_empty() {
    let journal = Journal::new();
    assert_eq!(journal.len(), 0);
    assert_eq!(journal.as_bytes(), &[] as &[u8]);
}

#[test]
fn commit_appends_the_canonical_encoding() {
    let mut journal = Journal::new();
    journal.commit_u32(0x0a0b_0c0d);
    assert_eq!(journal.as_bytes(), &[0x0a, 0x0b, 0x0c, 0x0d]);
    journal.commit_u64(1);
    assert_eq!(journal.as_bytes(), &[0x0a, 0x0b, 0x0c, 0x0d, 0, 0, 0, 0, 0, 0, 0, 1]);
    journal.commit_bytes(&[9, 8, 7]);
    assert_eq!(
        journal.into_bytes(),
        vec![0x0a, 0x0b, 0x0c, 0x0d, 0, 0, 0, 0, 0, 0, 0, 1, 9, 8, 7]
    );
}

#[test]
fn every_numeric_commit_grows_the_journal() {
    let mut journal = Journal::new();
    let mut last = journal.len();
    for x in [0u32, 1, 89, u32::MAX] {
        journal.commit_u32(x);
        assert_eq!(journal.len(), last + 4);
        last = journal.len();
    }
    for x in [0u64, 55, u64::MAX] {
        journal.commit(&CommittedValue::Word64(x));
        assert_eq!(journal.len(), last + 8);
        last = journal.len();
    }
    journal.commit(&CommittedValue::Bytes(vec![1, 2, 3, 4, 5]));
    assert_eq!(journal.len(), last + 5);
}

#[test]
fn earlier_commits_are_never_changed() {
    let mut journal = Journal::new();
    journal.commit_u32(0xdead_beef);
    let before = journal.as_bytes().to_vec();
    journal.commit_bytes(&[1, 2, 3]);
    journal.commit_u64(7);
    assert_eq!(&journal.as_bytes()[..before.len()], before.as_slice());
}

#[test]
fn commit_words_commits_each_word_in_order() {
    let mut journal = Journal::new();
    journal.commit_words(&[1, 0x0203_0405, u32::MAX]);
    assert_eq!(journal.as_bytes(), &[0, 0, 0, 1, 2, 3, 4, 5, 255, 255, 255, 255]);
    let mut empty = Journal::new();
    empty.commit_words(&[]);
    assert_eq!(empty.len(), 0);
}

#[test]
fn encode_is_the_journal_of_the_commits() {
    let values = vec![
        CommittedValue::Word32(89),
        CommittedValue::Bytes(vec![0xaa, 0xbb]),
        CommittedValue::Word64(0x0102_0304_0506_0708),
    ];
    assert_eq!(encode(&values), vec![0, 0, 0, 89, 0xaa, 0xbb, 1, 2, 3, 4, 5, 6, 7, 8]);
    assert_eq!(encode(&[]), Vec::<u8>::new());
}

#[test]
fn layout_lists_the_type_of_each_value() {
    let values = vec![
        CommittedValue::Word32(89),
        CommittedValue::Bytes(vec![0xaa, 0xbb]),
        CommittedValue::Word64(5),
        CommittedValue::Bytes(vec![]),
    ];
    assert_eq!(
        layout(&values),
        vec![ValueType::Word32, ValueType::Bytes(2), ValueType::Word64, ValueType::Bytes(0)]
    );
    assert_eq!(value_type(&CommittedValue::Bytes(vec![0; 32])), ValueType::Bytes(32));
}

#[test]
fn decode_reads_left_to_right() {
    let journal = [0, 0, 0, 89, 0xaa, 0xbb, 1, 2, 3, 4, 5, 6, 7, 8];
    let decoded = decode(&journal, &[ValueType::Word32, ValueType::Bytes(2), ValueType::Word64]);
    assert_eq!(
        decoded,
        Ok(vec![
            CommittedValue::Word32(89),
            CommittedValue::Bytes(vec![0xaa, 0xbb]),
            CommittedValue::Word64(0x0102_0304_0506_0708),
        ])
    );
}

#[test]
fn round_trip_gives_the_values_back() {
    let lists: Vec<Vec<CommittedValue>> = vec![
        vec![],
        vec![CommittedValue::Word32(0)],
        vec![CommittedValue::Word64(u64::MAX), CommittedValue::Word32(u32::MAX)],
        vec![
            CommittedValue::Bytes(vec![]),
            CommittedValue::Bytes((0u8..=255).collect()),
            CommittedValue::Word32(0x8000_0001),
            CommittedValue::Bytes(vec![7; 32]),
            CommittedValue::Word64(0x0123_4567_89ab_cdef),
        ],
    ];
    for values in lists {
        let journal = encode(&values);
        assert_eq!(decode(&journal, &layout(&values)), Ok(values));
    }
}

#[test]
fn commits_decode_in_commit_order() {
    let a = CommittedValue::Word64(0xaaaa_aaaa_aaaa_aaaa);
    let b = CommittedValue::Bytes(vec![0xbb; 5]);
    let c = CommittedValue::Word32(0xcccc_cccc);
    let mut journal = Journal::new();
    journal.commit(&a);
    journal.commit(&b);
    journal.commit(&c);
    let types = [value_type(&a), value_type(&b), value_type(&c)];
    assert_eq!(decode(journal.as_bytes(), &types), Ok(vec![a.clone(), b.clone(), c.clone()]));

    let mut other = Journal::new();
    other.commit(&c);
    other.commit(&b);
    other.commit(&a);
    let other_types = [value_type(&c), value_type(&b), value_type(&a)];
    assert_eq!(decode(other.as_bytes(), &other_types), Ok(vec![c, b, a]));
    assert_ne!(journal.as_bytes(), other.as_bytes());
}

#[test]
fn short_journal_is_a_layout_mismatch() {
    let journal = [0, 0, 0, 89, 1, 2, 3];
    assert_eq!(
        decode(&journal, &[ValueType::Word32, ValueType::Word32]),
        Err(DecodeError::LayoutMismatch)
    );
    assert_eq!(decode(&journal, &[ValueType::Word64]), Err(DecodeError::LayoutMismatch));
    assert_eq!(decode(&journal, &[ValueType::Bytes(8)]), Err(DecodeError::LayoutMismatch));
    assert_eq!(decode(&[], &[ValueType::Word32]), Err(DecodeError::LayoutMismatch));
    assert_eq!(decode(&journal[..3], &[ValueType::Word32]), Err(DecodeError::LayoutMismatch));
}

#[test]
fn mismatch_returns_no_partial_values() {
    let journal = [0, 0, 0, 1, 0, 0, 0, 2, 0, 0];
    let result = decode(&journal, &[ValueType::Word32, ValueType::Word32, ValueType::Word32]);
    assert!(matches!(result, Err(DecodeError::LayoutMismatch)));
    assert!(result.ok().is_none());
}

#[test]
fn widths_beyond_the_address_space_are_a_mismatch() {
    let journal = [1, 2, 3, 4];
    assert_eq!(
        decode(&journal, &[ValueType::Bytes(usize::MAX), ValueType::Bytes(usize::MAX)]),
        Err(DecodeError::LayoutMismatch)
    );
    assert_eq!(
        decode(&journal, &[ValueType::Word32, ValueType::Bytes(usize::MAX)]),
        Err(DecodeError::LayoutMismatch)
    );
}

#[test]
fn journal_as_long_as_the_layout_decodes() {
    assert_eq!(decode(&[], &[]), Ok(vec![]));
    assert_eq!(decode(&[], &[ValueType::Bytes(0)]), Ok(vec![CommittedValue::Bytes(vec![])]));
    assert_eq!(
        decode(&[0, 0, 1, 0], &[ValueType::Word32]),
        Ok(vec![CommittedValue::Word32(256)])
    );
}

#[test]
fn bytes_beyond_the_layout_are_left_unread() {
    let journal = [0, 0, 0, 89, 0xff, 0xff];
    assert_eq!(decode(&journal, &[ValueType::Word32]), Ok(vec![CommittedValue::Word32(89)]));
    assert_eq!(decode(&journal, &[]), Ok(vec![]));
}

#[test]
fn same_bytes_decode_by_the_layout_given() {
    let journal = [0, 0, 0, 1, 0, 0, 0, 2];
    assert_eq!(
        decode(&journal, &[ValueType::Word32, ValueType::Word32]),
        Ok(vec![CommittedValue::Word32(1), CommittedValue::Word32(2)])
    );
    assert_eq!(
        decode(&journal, &[ValueType::Word64]),
        Ok(vec![CommittedValue::Word64(0x0000_0001_0000_0002)])
    );
    assert_eq!(
        decode(&journal, &[ValueType::Bytes(8)]),
        Ok(vec![CommittedValue::Bytes(vec![0, 0, 0, 1, 0, 0, 0, 2])])
    );
}

#[test]
fn values_of_one_type_encode_apart() {
    let pairs = vec![
        (CommittedValue::Word32(1), CommittedValue::Word32(2)),
        (CommittedValue::Word64(1), CommittedValue::Word64(1 << 32)),
        (CommittedValue::Bytes(vec![1, 2]), CommittedValue::Bytes(vec![2, 1])),
    ];
    for (a, b) in pairs {
        assert_eq!(value_type(&a), value_type(&b));
        assert_ne!(encode(&[a]), encode(&[b]));
    }
}
