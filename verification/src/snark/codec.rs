//! The canonical wire format: how values become bytes and bytes become
//! values again.
//!
//! Every value has one encoding per compression mode. Decoding reads a value
//! off the front of a byte string and says how many bytes it took, so that
//! values can follow one another without separators.

use crate::field::{field_decoding, le_bytes, le_value, modulus, Field, FIELD_BYTES};
use crate::snark::errors::SerializationError;
pub use crate::reader::Reader;
use vstd::prelude::*;

verus! {

/// Whether group elements are written in their short form.
#[derive(Clone, Copy, Debug, PartialEq, Eq, Structural)]
pub enum Compress {
    /// One coordinate and a sign.
    Yes,
    /// Both coordinates.
    No,
}

/// Whether decoded group elements are tested for membership in the group.
#[derive(Clone, Copy, Debug, PartialEq, Eq, Structural)]
pub enum Validate {
    /// Test every element.
    Yes,
    /// Trust the source.
    No,
}

impl Compress {
    /// The mode as a truth value.
    pub open spec fn on(self) -> bool {
        self == Compress::Yes
    }

    /// Returns [`Self::on`].
    pub fn is_on(self) -> (r: bool)
        ensures
            r == self.on(),
    {
        match self {
            Compress::Yes => true,
            Compress::No => false,
        }
    }
}

impl Validate {
    /// The mode as a truth value.
    pub open spec fn on(self) -> bool {
        self == Validate::Yes
    }

    /// Returns [`Self::on`].
    pub fn is_on(self) -> (r: bool)
        ensures
            r == self.on(),
    {
        match self {
            Validate::Yes => true,
            Validate::No => false,
        }
    }
}

/// Values with a canonical encoding.
pub trait Canonical: Sized {
    /// The bytes that stand for the value.
    spec fn encoding(&self, compress: bool) -> Seq<u8>;

    /// The value at the front of `bytes` and the number of bytes it takes, or
    /// the reason why there is none.
    spec fn decoding(bytes: Seq<u8>, compress: bool, validate: bool) -> Result<
        (Self, nat),
        SerializationError,
    >;

    /// Whether the value is the one that its own encoding decodes to.
    spec fn canonical(&self, compress: bool, validate: bool) -> bool;

    /// Whether every point that the value holds belongs to the group.
    spec fn member(&self) -> bool;

    /// Decoding takes no more bytes than there are.
    proof fn lemma_decoding_bound(bytes: Seq<u8>, compress: bool, validate: bool)
        ensures
            Self::decoding(bytes, compress, validate) is Ok ==> Self::decoding(
                bytes,
                compress,
                validate,
            ).unwrap().1 <= bytes.len(),
    ;

    /// A canonical value is read back from its encoding, whatever follows
    /// it, and decoding takes exactly the bytes of the encoding.
    proof fn lemma_round_trip(&self, compress: bool, validate: bool, rest: Seq<u8>)
        requires
            self.canonical(compress, validate),
        ensures
            Self::decoding(self.encoding(compress) + rest, compress, validate) == Ok::<
                (Self, nat),
                SerializationError,
            >((*self, self.encoding(compress).len())),
    ;

    /// Appends the encoding of the value to `writer`.
    fn serialize_with_mode(&self, writer: &mut Vec<u8>, compress: Compress) -> (r: Result<
        (),
        SerializationError,
    >)
        ensures
            r is Ok,
            final(writer)@ == old(writer)@ + self.encoding(compress.on()),
    ;

    /// Whether the value is the one that its own encoding decodes to:
    /// returns [`Self::canonical`].
    fn reads_back(&self, compress: Compress, validate: Validate) -> (r: bool)
        ensures
            r == self.canonical(compress.on(), validate.on()),
    ;

    /// Reads a value off the front of `reader`. With validation on, what is
    /// read holds only points of the group.
    fn deserialize_with_mode(reader: &mut Reader, compress: Compress, validate: Validate) -> (r:
        Result<Self, SerializationError>)
        ensures
            match Self::decoding(old(reader)@, compress.on(), validate.on()) {
                Ok((value, used)) => r == Ok::<Self, SerializationError>(value) && final(reader)@
                    == old(reader)@.skip(used as int),
                Err(e) => r == Err::<Self, SerializationError>(e),
            },
            validate.on() && r is Ok ==> r.unwrap().member(),
    ;
}

/// The encodings of `items`, one after the other.
pub open spec fn encode_all<T: Canonical>(items: Seq<T>, compress: bool) -> Seq<u8>
    decreases items.len(),
{
    if items.len() == 0 {
        Seq::empty()
    } else {
        encode_all(items.drop_last(), compress) + items.last().encoding(compress)
    }
}

/// The `n` values at the front of `bytes` and the number of bytes they take
/// together, or the reason why the first value that cannot be read cannot.
pub open spec fn decode_all<T: Canonical>(bytes: Seq<u8>, n: nat, compress: bool, validate: bool) -> Result<
    (Seq<T>, nat),
    SerializationError,
>
    decreases n,
{
    if n == 0 {
        Ok((Seq::empty(), 0))
    } else {
        match decode_all::<T>(bytes, (n - 1) as nat, compress, validate) {
            Ok((items, used)) => match T::decoding(bytes.skip(used as int), compress, validate) {
                Ok((last, more)) => Ok((items.push(last), used + more)),
                Err(e) => Err(e),
            },
            Err(e) => Err(e),
        }
    }
}

/// Whether every one of `items` holds only points of the group.
pub open spec fn all_members<T: Canonical>(items: Seq<T>) -> bool {
    forall|i: int| 0 <= i < items.len() ==> (#[trigger] items[i]).member()
}

/// Whether every one of `items` is canonical.
pub open spec fn all_canonical<T: Canonical>(items: Seq<T>, compress: bool, validate: bool) -> bool {
    forall|i: int| 0 <= i < items.len() ==> (#[trigger] items[i]).canonical(compress, validate)
}

/// Returns [`all_canonical`].
pub fn all_read_back<T: Canonical>(items: &Vec<T>, compress: Compress, validate: Validate) -> (r: bool)
    ensures
        r == all_canonical(items@, compress.on(), validate.on()),
{
    let mut i: usize = 0;
    while i < items.len()
        invariant
            i <= items@.len(),
            forall|j: int|
                0 <= j < i ==> (#[trigger] items@[j]).canonical(compress.on(), validate.on()),
        decreases items@.len() - i,
    {
        if !items[i].reads_back(compress, validate) {
            return false;
        }
        i += 1;
    }
    true
}

/// Reading values one after the other takes no more bytes than there are.
pub proof fn lemma_decode_all_bound<T: Canonical>(
    bytes: Seq<u8>,
    n: nat,
    compress: bool,
    validate: bool,
)
    ensures
        decode_all::<T>(bytes, n, compress, validate) is Ok ==> {
            &&& decode_all::<T>(bytes, n, compress, validate).unwrap().1 <= bytes.len()
            &&& decode_all::<T>(bytes, n, compress, validate).unwrap().0.len() == n
        },
    decreases n,
{
    if n > 0 {
        lemma_decode_all_bound::<T>(bytes, (n - 1) as nat, compress, validate);
        if let Ok((items, used)) = decode_all::<T>(bytes, (n - 1) as nat, compress, validate) {
            T::lemma_decoding_bound(bytes.skip(used as int), compress, validate);
        }
    }
}

/// Where the first `a` values cannot be read, no longer run of values can.
pub proof fn lemma_decode_all_fails_on<T: Canonical>(
    bytes: Seq<u8>,
    a: nat,
    b: nat,
    compress: bool,
    validate: bool,
)
    requires
        decode_all::<T>(bytes, a, compress, validate) is Err,
    ensures
        decode_all::<T>(bytes, a + b, compress, validate) == decode_all::<T>(
            bytes,
            a,
            compress,
            validate,
        ),
    decreases b,
{
    if b > 0 {
        lemma_decode_all_fails_on::<T>(bytes, a, (b - 1) as nat, compress, validate);
    }
}

/// Canonical values are read back from their encodings, whatever follows
/// them.
pub proof fn lemma_round_trip_all<T: Canonical>(
    items: Seq<T>,
    compress: bool,
    validate: bool,
    rest: Seq<u8>,
)
    requires
        all_canonical(items, compress, validate),
    ensures
        decode_all::<T>(encode_all(items, compress) + rest, items.len(), compress, validate) == Ok::<
            (Seq<T>, nat),
            SerializationError,
        >((items, encode_all(items, compress).len())),
    decreases items.len(),
{
    if items.len() == 0 {
        assert(items =~= Seq::<T>::empty());
    } else {
        let init = items.drop_last();
        let last = items.last();
        let head = encode_all(init, compress);
        let bytes = encode_all(items, compress) + rest;
        assert(all_canonical(init, compress, validate)) by {
            assert forall|i: int| 0 <= i < init.len() implies (#[trigger] init[i]).canonical(
                compress,
                validate,
            ) by {
                assert(init[i] == items[i]);
            }
        }
        assert(bytes =~= head + (last.encoding(compress) + rest));
        lemma_round_trip_all(init, compress, validate, last.encoding(compress) + rest);
        assert(bytes.skip(head.len() as int) =~= last.encoding(compress) + rest);
        assert(last.canonical(compress, validate));
        last.lemma_round_trip(compress, validate, rest);
        assert(init.push(last) =~= items);
    }
}

/// Appends the encodings of `items` to `writer`, one after the other.
pub fn serialize_all<T: Canonical>(items: &Vec<T>, writer: &mut Vec<u8>, compress: Compress)
    ensures
        final(writer)@ == old(writer)@ + encode_all(items@, compress.on()),
{
    let ghost start = writer@;
    let mut i: usize = 0;
    proof {
        assert(items@.take(0) =~= Seq::<T>::empty());
        assert(start + Seq::<u8>::empty() =~= start);
    }
    while i < items.len()
        invariant
            i <= items@.len(),
            writer@ == start + encode_all(items@.take(i as int), compress.on()),
        decreases items@.len() - i,
    {
        let ghost before = writer@;
        let _ = items[i].serialize_with_mode(writer, compress);
        proof {
            let prefix = items@.take(i + 1);
            assert(prefix.drop_last() =~= items@.take(i as int));
            assert(prefix.last() == items@[i as int]);
            assert(writer@ =~= start + encode_all(prefix, compress.on()));
        }
        i += 1;
    }
    assert(items@.take(i as int) =~= items@);
}

/// Reads `n` values off the front of `reader`, one after the other. The
/// count is as wide as any count on the wire can become.
pub fn deserialize_all<T: Canonical>(
    reader: &mut Reader,
    n: u128,
    compress: Compress,
    validate: Validate,
) -> (r: Result<Vec<T>, SerializationError>)
    ensures
        match decode_all::<T>(old(reader)@, n as nat, compress.on(), validate.on()) {
            Ok((items, used)) => r is Ok && r.unwrap()@ == items && final(reader)@ == old(
                reader,
            )@.skip(used as int),
            Err(e) => r == Err::<Vec<T>, SerializationError>(e),
        },
        validate.on() && r is Ok ==> all_members(r.unwrap()@),
{
    let ghost bytes = reader@;
    let mut items: Vec<T> = Vec::new();
    let mut i: u128 = 0;
    let ghost mut used: nat = 0;
    proof {
        assert(bytes.skip(0) =~= bytes);
    }
    while i < n
        invariant
            i <= n,
            bytes == old(reader)@,
            decode_all::<T>(bytes, i as nat, compress.on(), validate.on()) == Ok::<
                (Seq<T>, nat),
                SerializationError,
            >((items@, used)),
            reader@ == bytes.skip(used as int),
            used <= bytes.len(),
            validate.on() ==> all_members(items@),
        decreases n - i,
    {
        let ghost tail = reader@;
        match T::deserialize_with_mode(reader, compress, validate) {
            Ok(item) => {
                proof {
                    T::lemma_decoding_bound(tail, compress.on(), validate.on());
                    let more = T::decoding(tail, compress.on(), validate.on()).unwrap().1;
                    assert(tail.skip(more as int) =~= bytes.skip((used + more) as int));
                    used = used + more;
                }
                items.push(item);
            },
            Err(e) => {
                proof {
                    lemma_decode_all_fails_on::<T>(
                        bytes,
                        (i + 1) as nat,
                        (n - i - 1) as nat,
                        compress.on(),
                        validate.on(),
                    );
                }
                return Err(e);
            },
        }
        i += 1;
    }
    Ok(items)
}

/// The first `n` bytes of `le_bytes` are `n` bytes.
pub proof fn lemma_le_bytes_len(v: nat, n: nat)
    ensures
        le_bytes(v, n).len() == n,
    decreases n,
{
    if n > 0 {
        lemma_le_bytes_len(v / 256, (n - 1) as nat);
    }
}

/// The number of values that `n` bytes can spell.
pub open spec fn byte_range(n: nat) -> nat
    decreases n,
{
    if n == 0 {
        1
    } else {
        256 * byte_range((n - 1) as nat)
    }
}

/// An integer that fits `n` bytes is the value of its `n` little-endian
/// bytes.
pub proof fn lemma_le_value_of_bytes(v: nat, n: nat)
    requires
        v < byte_range(n),
    ensures
        le_value(le_bytes(v, n)) == v,
    decreases n,
{
    if n > 0 {
        let bytes = le_bytes(v, n);
        assert(bytes.drop_first() =~= le_bytes(v / 256, (n - 1) as nat));
        lemma_le_value_of_bytes(v / 256, (n - 1) as nat);
    }
}

/// The value of `n` bytes fits `n` bytes, and its little-endian bytes are
/// those bytes.
pub proof fn lemma_le_bytes_of_value(bytes: Seq<u8>)
    ensures
        le_value(bytes) < byte_range(bytes.len()),
        le_bytes(le_value(bytes), bytes.len()) == bytes,
    decreases bytes.len(),
{
    if bytes.len() > 0 {
        let tail = bytes.drop_first();
        lemma_le_bytes_of_value(tail);
        let v = le_value(bytes);
        assert(v == bytes[0] + 256 * le_value(tail));
        assert(v % 256 == bytes[0] as nat);
        assert(v / 256 == le_value(tail));
        assert(le_bytes(v, bytes.len()) =~= bytes);
    } else {
        assert(le_bytes(0, 0) =~= bytes);
    }
}

/// Every value below the modulus of the scalar field fits 32 bytes.
pub proof fn lemma_modulus_fits()
    ensures
        modulus() < byte_range(32),
{
    reveal_with_fuel(byte_range, 33);
}

impl Canonical for Field {
    /// In either mode, the 32 bytes of the value, least significant first.
    open spec fn encoding(&self, compress: bool) -> Seq<u8> {
        le_bytes(self@, FIELD_BYTES as nat)
    }

    /// The element whose value the first 32 bytes spell.
    open spec fn decoding(bytes: Seq<u8>, compress: bool, validate: bool) -> Result<
        (Self, nat),
        SerializationError,
    > {
        if bytes.len() < FIELD_BYTES {
            Err(SerializationError::NotEnoughBytes)
        } else if le_value(bytes.take(FIELD_BYTES as int)) >= modulus() {
            Err(SerializationError::InvalidData)
        } else {
            Ok((Field::with_value(le_value(bytes.take(FIELD_BYTES as int))), FIELD_BYTES as nat))
        }
    }

    open spec fn canonical(&self, compress: bool, validate: bool) -> bool {
        self.is_canonical()
    }

    open spec fn member(&self) -> bool {
        true
    }

    proof fn lemma_decoding_bound(bytes: Seq<u8>, compress: bool, validate: bool) {
    }

    proof fn lemma_round_trip(&self, compress: bool, validate: bool, rest: Seq<u8>) {
        let own = self.encoding(compress);
        lemma_le_bytes_len(self@, 32);
        lemma_modulus_fits();
        lemma_le_value_of_bytes(self@, 32);
        assert((own + rest).take(32) =~= own);
        Field::lemma_with_value(self@);
        Field::with_value(self@).lemma_view_injective(*self);
    }

    fn serialize_with_mode(&self, writer: &mut Vec<u8>, compress: Compress) -> (r: Result<
        (),
        SerializationError,
    >) {
        let bytes = crate::field::fr_serialize(self, compress.is_on());
        writer.extend_from_slice(bytes.as_slice());
        Ok(())
    }

    fn reads_back(&self, compress: Compress, validate: Validate) -> (r: bool) {
        proof {
            use_type_invariant(self);
        }
        true
    }

    fn deserialize_with_mode(reader: &mut Reader, compress: Compress, validate: Validate) -> (r:
        Result<Self, SerializationError>) {
        match reader.take(FIELD_BYTES) {
            Some(chunk) => {
                assert(chunk@.take(32) =~= chunk@);
                match crate::field::fr_deserialize(chunk, compress.is_on(), validate.is_on()) {
                    Some(element) => {
                        proof {
                            lemma_le_bytes_of_value(chunk@);
                            reveal_with_fuel(byte_range, 33);
                            Field::lemma_with_value(le_value(chunk@));
                            Field::with_value(le_value(chunk@)).lemma_view_injective(element);
                        }
                        Ok(element)
                    },
                    None => Err(SerializationError::InvalidData),
                }
            },
            None => Err(SerializationError::NotEnoughBytes),
        }
    }
}

/// Appends the 8 little-endian bytes of `value` to `writer`.
pub fn write_u64(writer: &mut Vec<u8>, value: u64)
    ensures
        final(writer)@ == old(writer)@ + le_bytes(value as nat, 8),
{
    let ghost start = writer@;
    let mut rest = value;
    let mut i: usize = 0;
    while i < 8
        invariant
            i <= 8,
            writer@ + le_bytes(rest as nat, (8 - i) as nat) == start + le_bytes(value as nat, 8),
        decreases 8 - i,
    {
        let byte = (rest % 256) as u8;
        proof {
            let tail = le_bytes((rest / 256) as nat, (7 - i) as nat);
            assert(writer@.push(byte) + tail =~= writer@ + (seq![byte] + tail));
        }
        writer.push(byte);
        rest = rest / 256;
        i += 1;
    }
    assert(writer@ + Seq::<u8>::empty() =~= writer@);
}

/// The integer that 8 little-endian bytes spell.
pub fn read_u64(chunk: &[u8]) -> (r: u64)
    requires
        chunk@.len() == 8,
    ensures
        r == le_value(chunk@),
{
    let mut value: u64 = 0;
    let mut i: usize = 8;
    proof {
        assert(chunk@.skip(8) =~= Seq::<u8>::empty());
        reveal_with_fuel(byte_range, 9);
    }
    while i > 0
        invariant
            i <= 8,
            chunk@.len() == 8,
            value == le_value(chunk@.skip(i as int)),
            value < byte_range((8 - i) as nat),
            byte_range(8) == 0x1_0000_0000_0000_0000,
        decreases i,
    {
        i -= 1;
        proof {
            let tail = chunk@.skip(i as int);
            assert(tail.drop_first() =~= chunk@.skip(i + 1));
            assert(tail[0] == chunk@[i as int]);
            lemma_byte_range_grows((7 - i) as nat, 7);
        }
        value = value * 256 + chunk[i] as u64;
    }
    assert(chunk@.skip(0) =~= chunk@);
    value
}

/// More bytes spell more values.
pub proof fn lemma_byte_range_grows(a: nat, b: nat)
    requires
        a <= b,
    ensures
        byte_range(a) <= byte_range(b),
        byte_range(a) >= 1,
    decreases b,
{
    if a < b {
        lemma_byte_range_grows(a, (b - 1) as nat);
    } else if a > 0 {
        lemma_byte_range_grows((a - 1) as nat, (a - 1) as nat);
    }
}

impl Canonical for u64 {
    /// In either mode, the 8 bytes of the integer, least significant first.
    open spec fn encoding(&self, compress: bool) -> Seq<u8> {
        le_bytes(*self as nat, 8)
    }

    open spec fn decoding(bytes: Seq<u8>, compress: bool, validate: bool) -> Result<
        (Self, nat),
        SerializationError,
    > {
        if bytes.len() < 8 {
            Err(SerializationError::NotEnoughBytes)
        } else {
            Ok((le_value(bytes.take(8)) as u64, 8))
        }
    }

    open spec fn canonical(&self, compress: bool, validate: bool) -> bool {
        true
    }

    open spec fn member(&self) -> bool {
        true
    }

    proof fn lemma_decoding_bound(bytes: Seq<u8>, compress: bool, validate: bool) {
    }

    proof fn lemma_round_trip(&self, compress: bool, validate: bool, rest: Seq<u8>) {
        let own = self.encoding(compress);
        lemma_le_bytes_len(*self as nat, 8);
        reveal_with_fuel(byte_range, 9);
        lemma_le_value_of_bytes(*self as nat, 8);
        assert((own + rest).take(8) =~= own);
    }

    fn serialize_with_mode(&self, writer: &mut Vec<u8>, compress: Compress) -> (r: Result<
        (),
        SerializationError,
    >) {
        write_u64(writer, *self);
        Ok(())
    }

    fn reads_back(&self, compress: Compress, validate: Validate) -> (r: bool) {
        true
    }

    fn deserialize_with_mode(reader: &mut Reader, compress: Compress, validate: Validate) -> (r:
        Result<Self, SerializationError>) {
        match reader.take(8) {
            Some(chunk) => Ok(read_u64(chunk)),
            None => Err(SerializationError::NotEnoughBytes),
        }
    }
}

impl<T: Canonical> Canonical for Option<T> {
    /// One byte that says whether a value follows, 0 or 1, and then the
    /// value.
    open spec fn encoding(&self, compress: bool) -> Seq<u8> {
        match self {
            Some(value) => seq![1u8] + value.encoding(compress),
            None => seq![0u8],
        }
    }

    open spec fn decoding(bytes: Seq<u8>, compress: bool, validate: bool) -> Result<
        (Self, nat),
        SerializationError,
    > {
        if bytes.len() < 1 {
            Err(SerializationError::NotEnoughBytes)
        } else if bytes[0] == 0 {
            Ok((None, 1))
        } else if bytes[0] == 1 {
            match T::decoding(bytes.skip(1), compress, validate) {
                Ok((value, used)) => Ok((Some(value), 1 + used)),
                Err(e) => Err(e),
            }
        } else {
            Err(SerializationError::InvalidData)
        }
    }

    open spec fn canonical(&self, compress: bool, validate: bool) -> bool {
        match self {
            Some(value) => value.canonical(compress, validate),
            None => true,
        }
    }

    open spec fn member(&self) -> bool {
        match self {
            Some(value) => value.member(),
            None => true,
        }
    }

    proof fn lemma_decoding_bound(bytes: Seq<u8>, compress: bool, validate: bool) {
        if bytes.len() >= 1 && bytes[0] == 1 {
            T::lemma_decoding_bound(bytes.skip(1), compress, validate);
        }
    }

    proof fn lemma_round_trip(&self, compress: bool, validate: bool, rest: Seq<u8>) {
        match self {
            Some(value) => {
                let bytes = self.encoding(compress) + rest;
                assert(bytes.skip(1) =~= value.encoding(compress) + rest);
                value.lemma_round_trip(compress, validate, rest);
            },
            None => {},
        }
    }

    fn serialize_with_mode(&self, writer: &mut Vec<u8>, compress: Compress) -> (r: Result<
        (),
        SerializationError,
    >) {
        let ghost start = writer@;
        match self {
            Some(value) => {
                writer.push(1);
                let _ = value.serialize_with_mode(writer, compress);
                assert(writer@ =~= start + (seq![1u8] + value.encoding(compress.on())));
            },
            None => {
                writer.push(0);
                assert(writer@ =~= start + seq![0u8]);
            },
        }
        Ok(())
    }

    fn reads_back(&self, compress: Compress, validate: Validate) -> (r: bool) {
        match self {
            Some(value) => value.reads_back(compress, validate),
            None => true,
        }
    }

    fn deserialize_with_mode(reader: &mut Reader, compress: Compress, validate: Validate) -> (r:
        Result<Self, SerializationError>) {
        let ghost bytes = reader@;
        match reader.take(1) {
            Some(flag) => {
                assert(flag@[0] == bytes[0]);
                if flag[0] == 0 {
                    Ok(None)
                } else if flag[0] == 1 {
                    proof {
                        T::lemma_decoding_bound(bytes.skip(1), compress.on(), validate.on());
                    }
                    match T::deserialize_with_mode(reader, compress, validate) {
                        Ok(value) => {
                            proof {
                                let used = T::decoding(
                                    bytes.skip(1),
                                    compress.on(),
                                    validate.on(),
                                ).unwrap().1;
                                assert(bytes.skip(1).skip(used as int) =~= bytes.skip(
                                    (1 + used) as int,
                                ));
                            }
                            Ok(Some(value))
                        },
                        Err(e) => Err(e),
                    }
                } else {
                    Err(SerializationError::InvalidData)
                }
            },
            None => Err(SerializationError::NotEnoughBytes),
        }
    }
}

/// The encoding of a sequence whose length is not known to the reader: the
/// number of items in 8 bytes, then the items.
pub open spec fn encode_counted<T: Canonical>(items: Seq<T>, compress: bool) -> Seq<u8> {
    le_bytes(items.len(), 8) + encode_all(items, compress)
}

/// The counted sequence at the front of `bytes`, and the number of bytes it
/// takes.
pub open spec fn decode_counted<T: Canonical>(bytes: Seq<u8>, compress: bool, validate: bool) -> Result<
    (Seq<T>, nat),
    SerializationError,
> {
    match u64::decoding(bytes, compress, validate) {
        Ok((count, _)) => match decode_all::<T>(bytes.skip(8), count as nat, compress, validate) {
            Ok((items, used)) => Ok((items, 8 + used)),
            Err(e) => Err(e),
        },
        Err(e) => Err(e),
    }
}

/// Reading a counted sequence takes no more bytes than there are.
pub proof fn lemma_decode_counted_bound<T: Canonical>(
    bytes: Seq<u8>,
    compress: bool,
    validate: bool,
)
    ensures
        decode_counted::<T>(bytes, compress, validate) is Ok ==> decode_counted::<T>(
            bytes,
            compress,
            validate,
        ).unwrap().1 <= bytes.len(),
{
    if let Ok((count, _)) = u64::decoding(bytes, compress, validate) {
        lemma_decode_all_bound::<T>(bytes.skip(8), count as nat, compress, validate);
    }
}

/// A counted sequence of canonical values is read back from its encoding,
/// whatever follows it.
pub proof fn lemma_round_trip_counted<T: Canonical>(
    items: Seq<T>,
    compress: bool,
    validate: bool,
    rest: Seq<u8>,
)
    requires
        all_canonical(items, compress, validate),
        items.len() <= u64::MAX,
    ensures
        decode_counted::<T>(encode_counted(items, compress) + rest, compress, validate) == Ok::<
            (Seq<T>, nat),
            SerializationError,
        >((items, encode_counted(items, compress).len())),
{
    let count = items.len() as u64;
    let head = le_bytes(items.len(), 8);
    let body = encode_all(items, compress);
    let bytes = encode_counted(items, compress) + rest;
    assert(bytes =~= head + (body + rest));
    assert(u64::decoding(bytes, compress, validate) == Ok::<(u64, nat), SerializationError>(
        (count, 8),
    )) by {
        count.lemma_round_trip(compress, validate, body + rest);
        lemma_le_bytes_len(items.len(), 8);
    }
    assert(bytes.skip(8) == body + rest) by {
        lemma_le_bytes_len(items.len(), 8);
        assert(bytes.skip(8) =~= body + rest);
    }
    lemma_round_trip_all(items, compress, validate, rest);
    lemma_le_bytes_len(items.len(), 8);
}

/// Appends the number of `items` and their encodings to `writer`.
pub fn serialize_counted<T: Canonical>(items: &Vec<T>, writer: &mut Vec<u8>, compress: Compress)
    ensures
        final(writer)@ == old(writer)@ + encode_counted(items@, compress.on()),
{
    let ghost start = writer@;
    write_u64(writer, items.len() as u64);
    serialize_all(items, writer, compress);
    assert(writer@ =~= start + encode_counted(items@, compress.on()));
}

/// Reads a counted sequence off the front of `reader`.
pub fn deserialize_counted<T: Canonical>(
    reader: &mut Reader,
    compress: Compress,
    validate: Validate,
) -> (r: Result<Vec<T>, SerializationError>)
    ensures
        match decode_counted::<T>(old(reader)@, compress.on(), validate.on()) {
            Ok((items, used)) => r is Ok && r.unwrap()@ == items && final(reader)@ == old(
                reader,
            )@.skip(used as int),
            Err(e) => r == Err::<Vec<T>, SerializationError>(e),
        },
        validate.on() && r is Ok ==> all_members(r.unwrap()@),
{
    let ghost bytes = reader@;
    let count = match u64::deserialize_with_mode(reader, compress, validate) {
        Ok(count) => count,
        Err(e) => {
            return Err(e);
        },
    };
    proof {
        lemma_decode_all_bound::<T>(bytes.skip(8), count as nat, compress.on(), validate.on());
    }
    match deserialize_all::<T>(reader, count as u128, compress, validate) {
        Ok(items) => {
            proof {
                let used = decode_all::<T>(
                    bytes.skip(8),
                    count as nat,
                    compress.on(),
                    validate.on(),
                ).unwrap().1;
                assert(bytes.skip(8).skip(used as int) =~= bytes.skip((8 + used) as int));
            }
            Ok(items)
        },
        Err(e) => Err(e),
    }
}

} // verus!
