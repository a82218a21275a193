//! The journal: the append-only log of values that a guest commits, and the
//! host-side decoder that reads it back.
//!
//! The wire format carries no type tags and no length prefixes. A journal is
//! the concatenation, in commit order, of the canonical encoding of each
//! committed value: four big-endian bytes for a 32-bit word, eight for a
//! 64-bit word, and the bytes themselves for a byte array. The decoder is
//! told the layout, the ordered list of the types it should expect, by its
//! caller.

use vstd::prelude::*;
use vstd::slice::slice_subrange;
use vstd::slice::slice_to_vec;
use crate::wire::be_bytes_u32;
use crate::wire::be_bytes_u64;
use crate::wire::be_word_u32;
use crate::wire::be_word_u64;
use crate::wire::lemma_u32_bytes_round_trip;
use crate::wire::lemma_u32_round_trip;
use crate::wire::lemma_u64_bytes_round_trip;
use crate::wire::lemma_u64_round_trip;
use crate::wire::u32_from_be_bytes;
use crate::wire::u32_to_be_bytes;
use crate::wire::u64_from_be_bytes;
use crate::wire::u64_to_be_bytes;

verus! {

/// The declared type of one committed value. A byte array carries its
/// length, which guest and host both know from the type.
#[derive(Clone, Copy, Debug, PartialEq, Eq)]
pub enum ValueType {
    Word32,
    Word64,
    Bytes(usize),
}

/// One value that a guest exposes: a 32-bit word, a 64-bit word or a byte
/// array.
#[derive(Clone, Debug, PartialEq, Eq)]
pub enum CommittedValue {
    Word32(u32),
    Word64(u64),
    Bytes(Vec<u8>),
}

/// The mathematical model of a [`CommittedValue`].
pub enum ValueView {
    Word32(u32),
    Word64(u64),
    Bytes(Seq<u8>),
}

/// Why a journal could not be decoded.
#[derive(Clone, Copy, Debug, PartialEq, Eq)]
pub enum DecodeError {
    /// The journal is shorter than the layout's total width.
    LayoutMismatch,
}

impl View for CommittedValue {
    type V = ValueView;

    open spec fn view(&self) -> ValueView {
        match *self {
            CommittedValue::Word32(x) => ValueView::Word32(x),
            CommittedValue::Word64(x) => ValueView::Word64(x),
            CommittedValue::Bytes(bytes) => ValueView::Bytes(bytes@),
        }
    }
}

impl DeepView for CommittedValue {
    type V = ValueView;

    open spec fn deep_view(&self) -> ValueView {
        self@
    }
}

impl ValueType {
    /// The number of journal bytes that a value of this type occupies.
    pub open spec fn width(self) -> nat {
        match self {
            ValueType::Word32 => 4,
            ValueType::Word64 => 8,
            ValueType::Bytes(n) => n as nat,
        }
    }
}

impl ValueView {
    /// The declared type of the value.
    pub open spec fn value_type(self) -> ValueType {
        match self {
            ValueView::Word32(_) => ValueType::Word32,
            ValueView::Word64(_) => ValueType::Word64,
            ValueView::Bytes(bytes) => ValueType::Bytes(bytes.len() as usize),
        }
    }

    /// The canonical encoding of the value.
    pub open spec fn encoding(self) -> Seq<u8> {
        match self {
            ValueView::Word32(x) => be_bytes_u32(x),
            ValueView::Word64(x) => be_bytes_u64(x),
            ValueView::Bytes(bytes) => bytes,
        }
    }

    /// Whether the value can exist in memory: a byte array's length fits in
    /// `usize`. Every value of a [`CommittedValue`] is representable.
    pub open spec fn representable(self) -> bool {
        match self {
            ValueView::Bytes(bytes) => bytes.len() <= usize::MAX,
            _ => true,
        }
    }
}

/// The value of type `t` that the bytes of its span denote.
pub open spec fn decode_value(bytes: Seq<u8>, t: ValueType) -> ValueView {
    match t {
        ValueType::Word32 => ValueView::Word32(be_word_u32(bytes)),
        ValueType::Word64 => ValueView::Word64(be_word_u64(bytes)),
        ValueType::Bytes(_) => ValueView::Bytes(bytes),
    }
}

/// The total number of bytes that a layout spans.
pub open spec fn layout_width(layout: Seq<ValueType>) -> nat
    decreases layout.len(),
{
    if layout.len() == 0 {
        0
    } else {
        layout_width(layout.drop_last()) + layout.last().width()
    }
}

/// The journal offset at which entry `i` of a layout starts: the total
/// width of the entries before it.
pub open spec fn span_start(layout: Seq<ValueType>, i: int) -> nat {
    layout_width(layout.take(i))
}

/// The layout of a list of values: the type of each, in order.
pub open spec fn layout_of(values: Seq<ValueView>) -> Seq<ValueType> {
    Seq::new(values.len(), |i: int| values[i].value_type())
}

/// The journal that committing the values in order produces: their
/// encodings, concatenated.
pub open spec fn encode_values(values: Seq<ValueView>) -> Seq<u8>
    decreases values.len(),
{
    if values.len() == 0 {
        Seq::empty()
    } else {
        encode_values(values.drop_last()) + values.last().encoding()
    }
}

/// The values that a journal holds under a layout: entry `i` is read from
/// the span that starts where the entries before it end and is as wide as
/// its type.
pub open spec fn decode_values(journal: Seq<u8>, layout: Seq<ValueType>) -> Seq<ValueView> {
    Seq::new(
        layout.len(),
        |i: int|
            decode_value(
                journal.subrange(span_start(layout, i) as int, span_start(layout, i + 1) as int),
                layout[i],
            ),
    )
}

/// A run of 32-bit words as committed values.
pub open spec fn word_values(words: Seq<u32>) -> Seq<ValueView> {
    Seq::new(words.len(), |i: int| ValueView::Word32(words[i]))
}

/// Whether every value of the list can exist in memory.
pub open spec fn all_representable(values: Seq<ValueView>) -> bool {
    forall|i: int| 0 <= i < values.len() ==> (#[trigger] values[i]).representable()
}

/// The append-only output log of one execution. Values enter it only
/// through the commit operations, each of which appends and none of which
/// changes or removes what is already there.
#[derive(Clone, Debug, PartialEq, Eq)]
pub struct Journal {
    bytes: Vec<u8>,
}

impl View for Journal {
    type V = Seq<u8>;

    closed spec fn view(&self) -> Seq<u8> {
        self.bytes@
    }
}

impl Journal {
    /// An empty journal.
    pub fn new() -> (journal: Journal)
        ensures
            journal@ == Seq::<u8>::empty(),
    {
        Journal { bytes: Vec::new() }
    }

    /// The number of bytes committed so far.
    pub fn len(&self) -> (len: usize)
        ensures
            len == self@.len(),
    {
        self.bytes.len()
    }

    /// The bytes committed so far.
    pub fn as_bytes(&self) -> (bytes: &[u8])
        ensures
            bytes@ == self@,
    {
        self.bytes.as_slice()
    }

    /// Ends the execution's writing and hands out the bytes.
    pub fn into_bytes(self) -> (bytes: Vec<u8>)
        ensures
            bytes@ == self@,
    {
        self.bytes
    }

    /// Commits a 32-bit word: appends its four big-endian bytes.
    pub fn commit_u32(&mut self, x: u32)
        ensures
            final(self)@ == old(self)@ + be_bytes_u32(x),
            final(self)@.len() == old(self)@.len() + 4,
    {
        let bytes = u32_to_be_bytes(x);
        self.bytes.push(bytes[0]);
        self.bytes.push(bytes[1]);
        self.bytes.push(bytes[2]);
        self.bytes.push(bytes[3]);
        assert(self.bytes@ =~= old(self).bytes@ + be_bytes_u32(x));
    }

    /// Commits a 64-bit word: appends its eight big-endian bytes.
    pub fn commit_u64(&mut self, x: u64)
        ensures
            final(self)@ == old(self)@ + be_bytes_u64(x),
            final(self)@.len() == old(self)@.len() + 8,
    {
        let bytes = u64_to_be_bytes(x);
        self.bytes.push(bytes[0]);
        self.bytes.push(bytes[1]);
        self.bytes.push(bytes[2]);
        self.bytes.push(bytes[3]);
        self.bytes.push(bytes[4]);
        self.bytes.push(bytes[5]);
        self.bytes.push(bytes[6]);
        self.bytes.push(bytes[7]);
        assert(self.bytes@ =~= old(self).bytes@ + be_bytes_u64(x));
    }

    /// Commits a byte array: appends its bytes unchanged.
    pub fn commit_bytes(&mut self, bytes: &[u8])
        ensures
            final(self)@ == old(self)@ + bytes@,
    {
        let mut i: usize = 0;
        while i < bytes.len()
            invariant
                i <= bytes.len(),
                self.bytes@ == old(self).bytes@ + bytes@.take(i as int),
            decreases bytes.len() - i,
        {
            self.bytes.push(bytes[i]);
            i = i + 1;
            assert(self.bytes@ =~= old(self).bytes@ + bytes@.take(i as int));
        }
        assert(bytes@.take(i as int) =~= bytes@);
    }

    /// Commits a run of 32-bit words, each as its four big-endian bytes, in
    /// order.
    pub fn commit_words(&mut self, words: &[u32])
        ensures
            final(self)@ == old(self)@ + encode_values(word_values(words@)),
            final(self)@.len() == old(self)@.len() + 4 * words@.len(),
    {
        let ghost values = word_values(words@);
        let mut i: usize = 0;
        assert(values.take(0) =~= Seq::<ValueView>::empty());
        while i < words.len()
            invariant
                i <= words.len(),
                values == word_values(words@),
                self@ == old(self)@ + encode_values(values.take(i as int)),
                self@.len() == old(self)@.len() + 4 * i,
            decreases words.len() - i,
        {
            self.commit_u32(words[i]);
            proof {
                lemma_encoding_step(values, i as int);
                assert(self@ =~= old(self)@ + encode_values(values.take(i + 1)));
            }
            i = i + 1;
        }
        assert(values.take(i as int) =~= values);
    }

    /// Commits one value: appends its canonical encoding. The journal never
    /// shrinks, and it grows by the width of the value's type.
    pub fn commit(&mut self, value: &CommittedValue)
        ensures
            final(self)@ == old(self)@ + value@.encoding(),
            final(self)@.len() == old(self)@.len() + value@.value_type().width(),
    {
        match value {
            CommittedValue::Word32(x) => {
                self.commit_u32(*x);
            },
            CommittedValue::Word64(x) => {
                self.commit_u64(*x);
            },
            CommittedValue::Bytes(bytes) => {
                assert(bytes@.len() == bytes.len());
                self.commit_bytes(bytes.as_slice());
            },
        }
    }
}

/// The journal that committing `values` in order to an empty journal
/// produces.
pub fn encode(values: &[CommittedValue]) -> (bytes: Vec<u8>)
    ensures
        bytes@ == encode_values(values.deep_view()),
{
    let ghost model = values.deep_view();
    let mut journal = Journal::new();
    let mut i: usize = 0;
    assert(model.take(0) =~= Seq::<ValueView>::empty());
    while i < values.len()
        invariant
            i <= values.len(),
            model == values.deep_view(),
            journal@ == encode_values(model.take(i as int)),
        decreases values.len() - i,
    {
        journal.commit(&values[i]);
        proof {
            let next = model.take(i + 1);
            assert(next.drop_last() =~= model.take(i as int));
            assert(next.last() == values@[i as int]@);
        }
        i = i + 1;
    }
    assert(model.take(i as int) =~= model);
    journal.into_bytes()
}

/// The declared type of a value.
pub fn value_type(value: &CommittedValue) -> (t: ValueType)
    ensures
        t == value@.value_type(),
{
    match value {
        CommittedValue::Word32(_) => ValueType::Word32,
        CommittedValue::Word64(_) => ValueType::Word64,
        CommittedValue::Bytes(bytes) => ValueType::Bytes(bytes.len()),
    }
}

/// The layout under which `values` decode: the type of each, in order.
pub fn layout(values: &[CommittedValue]) -> (types: Vec<ValueType>)
    ensures
        types@ == layout_of(values.deep_view()),
{
    let mut types: Vec<ValueType> = Vec::new();
    let mut i: usize = 0;
    while i < values.len()
        invariant
            i <= values.len(),
            types@.len() == i,
            forall|j: int| 0 <= j < i ==> types@[j] == (#[trigger] values@[j])@.value_type(),
        decreases values.len() - i,
    {
        types.push(value_type(&values[i]));
        i = i + 1;
    }
    assert(types@ =~= layout_of(values.deep_view()));
    types
}

/// Decodes a journal strictly left to right under the layout that the
/// caller expects, one value per entry. A journal shorter than the layout's
/// total width is a layout mismatch, and then no value is returned at all;
/// bytes beyond the layout's width are left unread.
pub fn decode(journal: &[u8], layout: &[ValueType]) -> (result: Result<
    Vec<CommittedValue>,
    DecodeError,
>)
    ensures
        journal@.len() < layout_width(layout@) <==> result is Err,
        result matches Err(e) ==> e == DecodeError::LayoutMismatch,
        result matches Ok(values) ==> values.deep_view() == decode_values(journal@, layout@),
{
    let mut values: Vec<CommittedValue> = Vec::new();
    let mut pos: usize = 0;
    let mut i: usize = 0;
    assert(layout@.take(0) =~= Seq::<ValueType>::empty());
    while i < layout.len()
        invariant
            i <= layout.len(),
            pos == span_start(layout@, i as int),
            pos <= journal.len(),
            values@.len() == i,
            forall|j: int|
                0 <= j < i ==> (#[trigger] values@[j])@ == decode_value(
                    journal@.subrange(
                        span_start(layout@, j) as int,
                        span_start(layout@, j + 1) as int,
                    ),
                    layout@[j],
                ),
        decreases layout.len() - i,
    {
        let t = layout[i];
        let width: usize = match t {
            ValueType::Word32 => 4,
            ValueType::Word64 => 8,
            ValueType::Bytes(n) => n,
        };
        proof {
            lemma_span_step(layout@, i as int);
            lemma_span_monotonic(layout@, i + 1, layout@.len() as int);
            assert(layout@.take(layout@.len() as int) =~= layout@);
        }
        if journal.len() - pos < width {
            return Err(DecodeError::LayoutMismatch);
        }
        let span = slice_subrange(journal, pos, pos + width);
        let value = match t {
            ValueType::Word32 => CommittedValue::Word32(
                u32_from_be_bytes([span[0], span[1], span[2], span[3]]),
            ),
            ValueType::Word64 => CommittedValue::Word64(
                u64_from_be_bytes(
                    [span[0], span[1], span[2], span[3], span[4], span[5], span[6], span[7]],
                ),
            ),
            ValueType::Bytes(_) => CommittedValue::Bytes(slice_to_vec(span)),
        };
        values.push(value);
        pos = pos + width;
        i = i + 1;
    }
    proof {
        assert(layout@.take(i as int) =~= layout@);
        assert(values.deep_view() =~= decode_values(journal@, layout@));
    }
    Ok(values)
}

/// Entry `i` of a layout ends where entry `i + 1` starts: its span is as
/// wide as its type.
pub proof fn lemma_span_step(layout: Seq<ValueType>, i: int)
    requires
        0 <= i < layout.len(),
    ensures
        span_start(layout, i + 1) == span_start(layout, i) + layout[i].width(),
{
    assert(layout.take(i + 1).drop_last() =~= layout.take(i));
}

/// Later entries of a layout start no earlier than earlier ones.
pub proof fn lemma_span_monotonic(layout: Seq<ValueType>, i: int, j: int)
    requires
        0 <= i <= j <= layout.len(),
    ensures
        span_start(layout, i) <= span_start(layout, j),
    decreases j - i,
{
    if i < j {
        lemma_span_monotonic(layout, i, j - 1);
        lemma_span_step(layout, j - 1);
    }
}

/// Decoding the encoding of a value under its own type gives the value
/// back, and the encoding is as wide as the type says.
pub proof fn lemma_value_round_trip(value: ValueView)
    requires
        value.representable(),
    ensures
        value.encoding().len() == value.value_type().width(),
        decode_value(value.encoding(), value.value_type()) == value,
{
    match value {
        ValueView::Word32(x) => {
            lemma_u32_round_trip(x);
        },
        ValueView::Word64(x) => {
            lemma_u64_round_trip(x);
        },
        ValueView::Bytes(_) => {},
    }
}

/// The encoding is injective per declared type: two values of one type
/// with the same encoding are the same value.
pub proof fn lemma_encoding_injective(a: ValueView, b: ValueView)
    requires
        a.representable(),
        b.representable(),
        a.value_type() == b.value_type(),
        a.encoding() == b.encoding(),
    ensures
        a == b,
{
    lemma_value_round_trip(a);
    lemma_value_round_trip(b);
}

/// A journal is exactly as long as the total width of the layout of the
/// values committed to it.
pub proof fn lemma_encoding_width(values: Seq<ValueView>)
    requires
        all_representable(values),
    ensures
        encode_values(values).len() == layout_width(layout_of(values)),
    decreases values.len(),
{
    if values.len() > 0 {
        lemma_encoding_width(values.drop_last());
        lemma_value_round_trip(values.last());
        assert(layout_of(values).drop_last() =~= layout_of(values.drop_last()));
    }
}

/// The journal of the first `count` values is the start of the journal of
/// all of them: later commits leave earlier bytes in place.
pub proof fn lemma_encoding_prefix(values: Seq<ValueView>, count: int)
    requires
        0 <= count <= values.len(),
    ensures
        encode_values(values.take(count)).len() <= encode_values(values).len(),
        encode_values(values).subrange(0, encode_values(values.take(count)).len() as int)
            == encode_values(values.take(count)),
    decreases values.len(),
{
    if count == values.len() {
        assert(values.take(count) =~= values);
        assert(encode_values(values).subrange(0, encode_values(values).len() as int)
            =~= encode_values(values));
    } else {
        lemma_encoding_prefix(values.drop_last(), count);
        assert(values.drop_last().take(count) =~= values.take(count));
        assert(encode_values(values).subrange(0, encode_values(values.take(count)).len() as int)
            =~= encode_values(values.drop_last()).subrange(
            0,
            encode_values(values.take(count)).len() as int,
        ));
    }
}

/// The layout of the first `count` values is the first `count` entries of
/// the layout of all of them.
pub proof fn lemma_layout_of_take(values: Seq<ValueView>, count: int)
    requires
        0 <= count <= values.len(),
    ensures
        layout_of(values).take(count) == layout_of(values.take(count)),
{
    assert(layout_of(values).take(count) =~= layout_of(values.take(count)));
}

/// Committing one more value appends its encoding to the journal of those
/// before it.
pub proof fn lemma_encoding_step(values: Seq<ValueView>, i: int)
    requires
        0 <= i < values.len(),
    ensures
        encode_values(values.take(i + 1)) == encode_values(values.take(i)) + values[i].encoding(),
{
    let through = values.take(i + 1);
    assert(through.drop_last() =~= values.take(i));
    assert(through.last() == values[i]);
}

/// In the journal of `values`, value `i` occupies exactly the span that the
/// layout assigns to entry `i`.
pub proof fn lemma_encoding_span(values: Seq<ValueView>, i: int)
    requires
        all_representable(values),
        0 <= i < values.len(),
    ensures
        span_start(layout_of(values), i + 1) <= encode_values(values).len(),
        encode_values(values).subrange(
            span_start(layout_of(values), i) as int,
            span_start(layout_of(values), i + 1) as int,
        ) == values[i].encoding(),
{
    let before = encode_values(values.take(i));
    let through = encode_values(values.take(i + 1));
    let whole = encode_values(values);
    let item = values[i].encoding();
    assert(span_start(layout_of(values), i) == before.len()) by {
        lemma_layout_of_take(values, i);
        lemma_encoding_width(values.take(i));
    }
    assert(span_start(layout_of(values), i + 1) == through.len()) by {
        lemma_layout_of_take(values, i + 1);
        lemma_encoding_width(values.take(i + 1));
    }
    assert(through == before + item) by {
        lemma_encoding_step(values, i);
    }
    assert(through.len() <= whole.len() && whole.subrange(0, through.len() as int) == through) by {
        lemma_encoding_prefix(values, i + 1);
    }
    lemma_subrange_of_prefix(whole, before, item);
}

/// Where a sequence starts with `head + item`, `item` is the subrange that
/// follows `head`.
proof fn lemma_subrange_of_prefix(whole: Seq<u8>, head: Seq<u8>, item: Seq<u8>)
    requires
        head.len() + item.len() <= whole.len(),
        whole.subrange(0, (head.len() + item.len()) as int) == head + item,
    ensures
        whole.subrange(head.len() as int, (head.len() + item.len()) as int) == item,
{
    let joined = whole.subrange(0, (head.len() + item.len()) as int);
    assert forall|k: int| 0 <= k < item.len() implies whole.subrange(
        head.len() as int,
        (head.len() + item.len()) as int,
    )[k] == item[k] by {
        assert(joined[head.len() + k] == whole[head.len() + k]);
        assert((head + item)[head.len() + k] == item[k]);
    }
    assert(whole.subrange(head.len() as int, (head.len() + item.len()) as int) =~= item);
}

/// Committing one list of values and then another gives the journal of the
/// first followed by the journal of the second.
pub proof fn lemma_encoding_concat(first: Seq<ValueView>, second: Seq<ValueView>)
    ensures
        encode_values(first + second) == encode_values(first) + encode_values(second),
    decreases second.len(),
{
    if second.len() == 0 {
        assert(first + second =~= first);
        assert(encode_values(first) + encode_values(second) =~= encode_values(first));
    } else {
        lemma_encoding_concat(first, second.drop_last());
        assert((first + second).drop_last() =~= first + second.drop_last());
        assert((first + second).last() == second.last());
        assert(encode_values(first + second) =~= encode_values(first) + encode_values(second));
    }
}

/// The journal of a single value is its encoding.
pub proof fn lemma_encoding_single(value: ValueView)
    ensures
        encode_values(seq![value]) == value.encoding(),
{
    let one = seq![value];
    assert(one.drop_last() =~= Seq::<ValueView>::empty());
    assert(encode_values(one.drop_last()) =~= Seq::<u8>::empty());
    assert(one.last() == value);
    assert(encode_values(one) =~= value.encoding());
}

/// The layout of one list of values followed by another is the layout of
/// the first followed by the layout of the second.
pub proof fn lemma_layout_concat(first: Seq<ValueView>, second: Seq<ValueView>)
    ensures
        layout_of(first + second) == layout_of(first) + layout_of(second),
{
    assert(layout_of(first + second) =~= layout_of(first) + layout_of(second));
}

/// Round trip: decoding the journal of any list of values under the layout
/// of that list gives the list back, each value in its place.
pub proof fn lemma_round_trip(values: Seq<ValueView>)
    requires
        all_representable(values),
    ensures
        encode_values(values).len() == layout_width(layout_of(values)),
        decode_values(encode_values(values), layout_of(values)) == values,
{
    lemma_encoding_width(values);
    let decoded = decode_values(encode_values(values), layout_of(values));
    assert forall|i: int| 0 <= i < values.len() implies decoded[i] == values[i] by {
        lemma_encoding_span(values, i);
        lemma_value_round_trip(values[i]);
    }
    assert(decoded =~= values);
}

/// The encoding is canonical: what a journal holds under a layout encodes
/// back to the very bytes that the layout spans.
pub proof fn lemma_decode_then_encode(journal: Seq<u8>, layout: Seq<ValueType>)
    requires
        layout_width(layout) <= journal.len(),
    ensures
        encode_values(decode_values(journal, layout)) == journal.take(layout_width(layout) as int),
    decreases layout.len(),
{
    let values = decode_values(journal, layout);
    if layout.len() == 0 {
        assert(journal.take(0) =~= Seq::<u8>::empty());
    } else {
        let shorter = layout.drop_last();
        let last = layout.len() - 1;
        lemma_decode_then_encode(journal, shorter);
        assert forall|i: int| 0 <= i <= last implies span_start(shorter, i) == span_start(
            layout,
            i,
        ) by {
            assert(shorter.take(i) =~= layout.take(i));
        }
        assert(values.drop_last() =~= decode_values(journal, shorter));
        assert(layout.take(last) =~= shorter);
        assert(layout.take(last + 1) =~= layout);
        let span = journal.subrange(layout_width(shorter) as int, layout_width(layout) as int);
        assert(values.last() == decode_value(span, layout.last()));
        assert(values.last().encoding() == span) by {
            match layout.last() {
                ValueType::Word32 => {
                    lemma_u32_bytes_round_trip(span);
                },
                ValueType::Word64 => {
                    lemma_u64_bytes_round_trip(span);
                },
                ValueType::Bytes(_) => {},
            }
        }
        assert(journal.take(layout_width(shorter) as int) + span =~= journal.take(
            layout_width(layout) as int,
        ));
    }
}

/// The decoder reads only the bytes that the layout spans: whatever follows
/// them does not change what is decoded.
pub proof fn lemma_decode_ignores_tail(journal: Seq<u8>, tail: Seq<u8>, layout: Seq<ValueType>)
    requires
        layout_width(layout) <= journal.len(),
    ensures
        decode_values(journal + tail, layout) == decode_values(journal, layout),
{
    assert forall|i: int| 0 <= i < layout.len() implies decode_values(journal + tail, layout)[i]
        == decode_values(journal, layout)[i] by {
        lemma_span_monotonic(layout, i, i + 1);
        lemma_span_monotonic(layout, i + 1, layout.len() as int);
        assert(layout.take(layout.len() as int) =~= layout);
        assert((journal + tail).subrange(
            span_start(layout, i) as int,
            span_start(layout, i + 1) as int,
        ) =~= journal.subrange(span_start(layout, i) as int, span_start(layout, i + 1) as int));
    }
    assert(decode_values(journal + tail, layout) =~= decode_values(journal, layout));
}

/// The encoding of a whole list is injective per layout: two lists of the
/// same layout with the same journal are the same list.
pub proof fn lemma_journal_injective(first: Seq<ValueView>, second: Seq<ValueView>)
    requires
        all_representable(first),
        all_representable(second),
        layout_of(first) == layout_of(second),
        encode_values(first) == encode_values(second),
    ensures
        first == second,
{
    lemma_round_trip(first);
    lemma_round_trip(second);
}

/// The journal of three values is their three encodings, one after
/// another.
pub proof fn lemma_encode_three(a: ValueView, b: ValueView, c: ValueView)
    ensures
        encode_values(seq![a, b, c]) == a.encoding() + b.encoding() + c.encoding(),
{
    let values = seq![a, b, c];
    assert(values.take(0) =~= Seq::<ValueView>::empty());
    assert(encode_values(values.take(0)) =~= Seq::<u8>::empty());
    lemma_encoding_step(values, 0);
    lemma_encoding_step(values, 1);
    lemma_encoding_step(values, 2);
    assert(values.take(3) =~= values);
    assert(encode_values(values.take(1)) =~= a.encoding());
}

/// Commit order is decode order: the journal of `a`, then `b`, then `c`
/// decodes under the layout of their three types to `a`, `b`, `c`, in that
/// order.
pub proof fn lemma_commit_order(a: ValueView, b: ValueView, c: ValueView)
    requires
        a.representable(),
        b.representable(),
        c.representable(),
    ensures
        decode_values(
            a.encoding() + b.encoding() + c.encoding(),
            seq![a.value_type(), b.value_type(), c.value_type()],
        ) == seq![a, b, c],
{
    let values = seq![a, b, c];
    lemma_encode_three(a, b, c);
    assert(layout_of(values) =~= seq![a.value_type(), b.value_type(), c.value_type()]);
    lemma_round_trip(values);
}

} // verus!
