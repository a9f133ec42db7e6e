//! The byte encoding of ciphertexts.
//!
//! A ciphertext is written as a header of little-endian 64-bit words followed by its raw
//! scalars, each as a little-endian 64-bit word. The header starts with the number of
//! scalars, so the length of a well formed encoding is known from its first word. A
//! compressed ciphertext has the same header; what follows is the seed of its mask, low half
//! first, and its body.
use crate::core_crypto::commons::generators::{CompressionSeed, Seed};
use crate::core_crypto::commons::parameters::{CiphertextModulus, LweSize};
use crate::core_crypto::entities::lwe_ciphertext::{LweCiphertext, SeededLweCiphertext};
use crate::shortint::ciphertext::{
    Ciphertext,
    CiphertextView,
    CompressedCiphertext,
    Degree,
    PBSOrder,
};
use crate::shortint::parameters::{CarryModulus, MessageModulus};
use vstd::bytes::{
    spec_u64_from_le_bytes,
    spec_u64_to_le_bytes,
    u64_from_le_bytes,
    u64_to_le_bytes,
};
use vstd::prelude::*;

verus! {

/// Why bytes are not the encoding of a ciphertext.
#[derive(Clone, Copy, Debug, PartialEq, Eq, Structural)]
pub enum SerializationError {
    /// The bytes end before the encoding does.
    UnexpectedEnd,
    /// A word of the header has a value that no ciphertext has.
    InvalidValue,
    /// Bytes follow the encoding.
    TrailingBytes,
}

impl SerializationError {
    /// The text of the error.
    pub open spec fn spec_message(&self) -> Seq<char> {
        match self {
            SerializationError::UnexpectedEnd => "the bytes end before the encoding does"@,
            SerializationError::InvalidValue => "a word of the header has an invalid value"@,
            SerializationError::TrailingBytes => "bytes follow the encoding"@,
        }
    }

    /// The error as a message.
    pub fn message(&self) -> (text: &'static str)
        ensures
            text@ == self.spec_message(),
    {
        match self {
            SerializationError::UnexpectedEnd => "the bytes end before the encoding does",
            SerializationError::InvalidValue => "a word of the header has an invalid value",
            SerializationError::TrailingBytes => "bytes follow the encoding",
        }
    }
}

/// The number of words of the header.
pub const HEADER_WORDS: usize = 5;

/// The bytes of a sequence of words, each as eight little-endian bytes.
pub open spec fn words_to_bytes(words: Seq<u64>) -> Seq<u8>
    decreases words.len(),
{
    if words.len() == 0 {
        Seq::empty()
    } else {
        words_to_bytes(words.drop_last()) + spec_u64_to_le_bytes(words.last())
    }
}

/// The word of index `index` of a sequence of bytes.
pub open spec fn word_at(bytes: Seq<u8>, index: int) -> u64 {
    spec_u64_from_le_bytes(bytes.subrange(8 * index, 8 * index + 8))
}

/// The word that stands for an order.
pub open spec fn order_word(order: PBSOrder) -> u64 {
    match order {
        PBSOrder::KeyswitchBootstrap => 0,
        PBSOrder::BootstrapKeyswitch => 1,
    }
}

/// The header of a ciphertext of `size` scalars.
pub open spec fn header_words(
    size: int,
    degree: Degree,
    message_modulus: MessageModulus,
    carry_modulus: CarryModulus,
    order: PBSOrder,
) -> Seq<u64> {
    seq![
        size as u64,
        degree.0 as u64,
        message_modulus.0 as u64,
        carry_modulus.0 as u64,
        order_word(order),
    ]
}

/// The encoding of a ciphertext.
pub open spec fn serialized_ciphertext(ct: CiphertextView) -> Seq<u8> {
    words_to_bytes(
        header_words(
            ct.ct.len() as int,
            ct.degree,
            ct.message_modulus,
            ct.carry_modulus,
            ct.pbs_order,
        ) + ct.ct,
    )
}

/// The encoding of a compressed ciphertext.
pub open spec fn serialized_compressed_ciphertext(ct: CompressedCiphertext) -> Seq<u8> {
    words_to_bytes(
        header_words(
            ct.ct.lwe_size.0 as int,
            ct.degree,
            ct.message_modulus,
            ct.carry_modulus,
            ct.pbs_order,
        ) + seq![
            (ct.ct.compression_seed.seed.0 % 0x1_0000_0000_0000_0000) as u64,
            (ct.ct.compression_seed.seed.0 / 0x1_0000_0000_0000_0000) as u64,
            ct.ct.data,
        ],
    )
}

/// Whether the first words of some bytes are the header of a ciphertext: sizes and moduli
/// that are not zero and can be addressed, and an order that exists.
pub open spec fn is_valid_header(bytes: Seq<u8>) -> bool {
    &&& 1 <= word_at(bytes, 0) <= usize::MAX
    &&& word_at(bytes, 1) <= usize::MAX
    &&& 1 <= word_at(bytes, 2) <= usize::MAX
    &&& 1 <= word_at(bytes, 3) <= usize::MAX
    &&& word_at(bytes, 4) <= 1
}

/// The order that a word stands for.
pub open spec fn order_of_word(word: u64) -> PBSOrder {
    if word == 0 {
        PBSOrder::KeyswitchBootstrap
    } else {
        PBSOrder::BootstrapKeyswitch
    }
}

/// What some bytes decode to as a ciphertext.
pub open spec fn parsed_ciphertext(bytes: Seq<u8>) -> Result<CiphertextView, SerializationError> {
    if bytes.len() < 8 * HEADER_WORDS {
        Err(SerializationError::UnexpectedEnd)
    } else if !is_valid_header(bytes) {
        Err(SerializationError::InvalidValue)
    } else if bytes.len() < 8 * (HEADER_WORDS + word_at(bytes, 0)) {
        Err(SerializationError::UnexpectedEnd)
    } else if bytes.len() > 8 * (HEADER_WORDS + word_at(bytes, 0)) {
        Err(SerializationError::TrailingBytes)
    } else {
        Ok(
            CiphertextView {
                ct: Seq::new(
                    word_at(bytes, 0) as nat,
                    |i: int| word_at(bytes, HEADER_WORDS + i),
                ),
                degree: Degree(word_at(bytes, 1) as usize),
                message_modulus: MessageModulus(word_at(bytes, 2) as usize),
                carry_modulus: CarryModulus(word_at(bytes, 3) as usize),
                pbs_order: order_of_word(word_at(bytes, 4)),
            },
        )
    }
}

/// What some bytes decode to as a compressed ciphertext.
pub open spec fn parsed_compressed_ciphertext(bytes: Seq<u8>) -> Result<
    CompressedCiphertext,
    SerializationError,
> {
    if bytes.len() < 8 * HEADER_WORDS {
        Err(SerializationError::UnexpectedEnd)
    } else if !is_valid_header(bytes) {
        Err(SerializationError::InvalidValue)
    } else if bytes.len() < 8 * (HEADER_WORDS + 3) {
        Err(SerializationError::UnexpectedEnd)
    } else if bytes.len() > 8 * (HEADER_WORDS + 3) {
        Err(SerializationError::TrailingBytes)
    } else {
        Ok(
            CompressedCiphertext {
                ct: SeededLweCiphertext {
                    data: word_at(bytes, HEADER_WORDS + 2),
                    lwe_size: LweSize(word_at(bytes, 0) as usize),
                    compression_seed: CompressionSeed {
                        seed: Seed(
                            (word_at(bytes, HEADER_WORDS + 1) * 0x1_0000_0000_0000_0000 + word_at(
                                bytes,
                                HEADER_WORDS as int,
                            )) as u128,
                        ),
                    },
                    ciphertext_modulus: CiphertextModulus::Native,
                },
                degree: Degree(word_at(bytes, 1) as usize),
                message_modulus: MessageModulus(word_at(bytes, 2) as usize),
                carry_modulus: CarryModulus(word_at(bytes, 3) as usize),
                pbs_order: order_of_word(word_at(bytes, 4)),
            },
        )
    }
}

/// The bytes of a sequence of words hold each word at its index.
pub proof fn lemma_words_to_bytes(words: Seq<u64>)
    ensures
        words_to_bytes(words).len() == 8 * words.len(),
        forall|i: int| 0 <= i < words.len() ==> #[trigger] word_at(words_to_bytes(words), i) == words[i],
    decreases words.len(),
{
    vstd::bytes::lemma_auto_spec_u64_to_from_le_bytes();
    if words.len() > 0 {
        let before = words.drop_last();
        lemma_words_to_bytes(before);
        let all = words_to_bytes(words);
        assert forall|i: int| 0 <= i < words.len() implies #[trigger] word_at(all, i)
            == words[i] by {
            if i < words.len() - 1 {
                assert(all.subrange(8 * i, 8 * i + 8) =~= words_to_bytes(before).subrange(
                    8 * i,
                    8 * i + 8,
                ));
                assert(word_at(words_to_bytes(before), i) == before[i]);
            } else {
                assert(all.subrange(8 * i, 8 * i + 8) =~= spec_u64_to_le_bytes(words.last()));
            }
        }
    }
}

/// Decoding inverts encoding: the encoding of a ciphertext that holds at least its body and
/// has moduli that are not zero decodes to the ciphertext.
pub proof fn lemma_parse_serialized_ciphertext(ct: CiphertextView)
    requires
        1 <= ct.ct.len() <= usize::MAX,
        ct.message_modulus.0 >= 1,
        ct.carry_modulus.0 >= 1,
    ensures
        parsed_ciphertext(serialized_ciphertext(ct)) == Ok::<CiphertextView, SerializationError>(
            ct,
        ),
{
    let header = header_words(
        ct.ct.len() as int,
        ct.degree,
        ct.message_modulus,
        ct.carry_modulus,
        ct.pbs_order,
    );
    let words = header + ct.ct;
    lemma_words_to_bytes(words);
    let bytes = serialized_ciphertext(ct);
    assert(word_at(bytes, 0) == words[0]);
    assert(word_at(bytes, 1) == words[1]);
    assert(word_at(bytes, 2) == words[2]);
    assert(word_at(bytes, 3) == words[3]);
    assert(word_at(bytes, 4) == words[4]);
    let parsed = Seq::new(word_at(bytes, 0) as nat, |i: int| word_at(bytes, HEADER_WORDS + i));
    assert forall|i: int| 0 <= i < ct.ct.len() implies parsed[i] == ct.ct[i] by {
        assert(word_at(bytes, HEADER_WORDS + i) == words[HEADER_WORDS + i]);
    }
    assert(parsed =~= ct.ct);
}

/// Decoding inverts encoding: the encoding of a compressed ciphertext of the native modulus
/// that stands for a ciphertext with at least its body, and has moduli that are not zero,
/// decodes to the compressed ciphertext.
pub proof fn lemma_parse_serialized_compressed_ciphertext(ct: CompressedCiphertext)
    requires
        ct.wf(),
    ensures
        parsed_compressed_ciphertext(serialized_compressed_ciphertext(ct)) == Ok::<
            CompressedCiphertext,
            SerializationError,
        >(ct),
{
    let header = header_words(
        ct.ct.lwe_size.0 as int,
        ct.degree,
        ct.message_modulus,
        ct.carry_modulus,
        ct.pbs_order,
    );
    let words = header + seq![
        (ct.ct.compression_seed.seed.0 % 0x1_0000_0000_0000_0000) as u64,
        (ct.ct.compression_seed.seed.0 / 0x1_0000_0000_0000_0000) as u64,
        ct.ct.data,
    ];
    lemma_words_to_bytes(words);
    let bytes = serialized_compressed_ciphertext(ct);
    assert(word_at(bytes, 0) == words[0]);
    assert(word_at(bytes, 1) == words[1]);
    assert(word_at(bytes, 2) == words[2]);
    assert(word_at(bytes, 3) == words[3]);
    assert(word_at(bytes, 4) == words[4]);
    assert(word_at(bytes, 5) == words[5]);
    assert(word_at(bytes, 6) == words[6]);
    assert(word_at(bytes, 7) == words[7]);
}

/// Append the bytes of a word.
fn push_word(bytes: &mut Vec<u8>, word: u64, Ghost(words): Ghost<Seq<u64>>)
    requires
        old(bytes)@ == words_to_bytes(words),
    ensures
        final(bytes)@ == words_to_bytes(words.push(word)),
{
    let encoded = u64_to_le_bytes(word);
    let mut i: usize = 0;
    while i < 8
        invariant
            encoded@.len() == 8,
            i <= 8,
            bytes@ == old(bytes)@ + encoded@.take(i as int),
        decreases 8 - i,
    {
        bytes.push(encoded[i]);
        assert(bytes@ =~= old(bytes)@ + encoded@.take(i + 1));
        i += 1;
    }
    assert(encoded@.take(8) =~= encoded@);
    assert(words.push(word).drop_last() =~= words);
}

/// Read the word of index `index`.
fn read_word(bytes: &[u8], index: usize) -> (word: u64)
    requires
        8 * (index + 1) <= bytes@.len(),
    ensures
        word == word_at(bytes@, index as int),
{
    let len = bytes.len();
    u64_from_le_bytes(vstd::slice::slice_subrange(bytes, 8 * index, 8 * index + 8))
}

/// The word that stands for an order.
fn order_to_word(order: PBSOrder) -> (word: u64)
    ensures
        word == order_word(order),
{
    match order {
        PBSOrder::KeyswitchBootstrap => 0,
        PBSOrder::BootstrapKeyswitch => 1,
    }
}

/// Encode the header of a ciphertext.
fn serialize_header(
    size: usize,
    degree: Degree,
    message_modulus: MessageModulus,
    carry_modulus: CarryModulus,
    order: PBSOrder,
) -> (bytes: Vec<u8>)
    ensures
        bytes@ == words_to_bytes(
            header_words(size as int, degree, message_modulus, carry_modulus, order),
        ),
{
    let mut bytes: Vec<u8> = Vec::new();
    let ghost mut words: Seq<u64> = Seq::empty();
    push_word(&mut bytes, size as u64, Ghost(words));
    proof {
        words = words.push(size as u64);
    }
    push_word(&mut bytes, degree.0 as u64, Ghost(words));
    proof {
        words = words.push(degree.0 as u64);
    }
    push_word(&mut bytes, message_modulus.0 as u64, Ghost(words));
    proof {
        words = words.push(message_modulus.0 as u64);
    }
    push_word(&mut bytes, carry_modulus.0 as u64, Ghost(words));
    proof {
        words = words.push(carry_modulus.0 as u64);
    }
    let word = order_to_word(order);
    push_word(&mut bytes, word, Ghost(words));
    proof {
        words = words.push(word);
        assert(words =~= header_words(
            size as int,
            degree,
            message_modulus,
            carry_modulus,
            order,
        ));
    }
    bytes
}

/// Encode a ciphertext.
pub fn serialize_ciphertext(ct: &Ciphertext) -> (bytes: Vec<u8>)
    ensures
        bytes@ == serialized_ciphertext(ct@),
{
    let n = ct.ct.data.len();
    let mut bytes = serialize_header(
        n,
        ct.degree,
        ct.message_modulus,
        ct.carry_modulus,
        ct.pbs_order,
    );
    let ghost header = header_words(
        n as int,
        ct.degree,
        ct.message_modulus,
        ct.carry_modulus,
        ct.pbs_order,
    );
    let mut i: usize = 0;
    assert(header + ct.ct@.take(0) =~= header);
    while i < n
        invariant
            n == ct.ct@.len(),
            i <= n,
            bytes@ == words_to_bytes(header + ct.ct@.take(i as int)),
        decreases n - i,
    {
        push_word(&mut bytes, ct.ct.data[i], Ghost(header + ct.ct@.take(i as int)));
        assert((header + ct.ct@.take(i as int)).push(ct.ct@[i as int]) =~= header
            + ct.ct@.take(i + 1));
        i += 1;
    }
    assert(ct.ct@.take(n as int) =~= ct.ct@);
    bytes
}

/// Decode a ciphertext. The bytes must be a whole encoding and nothing more.
pub fn deserialize_ciphertext(bytes: &[u8]) -> (result: Result<Ciphertext, SerializationError>)
    ensures
        match result {
            Ok(ct) => parsed_ciphertext(bytes@) == Ok::<CiphertextView, SerializationError>(ct@)
                && ct.wf(),
            Err(error) => parsed_ciphertext(bytes@) == Err::<CiphertextView, SerializationError>(
                error,
            ),
        },
{
    let len = bytes.len();
    if len < 8 * HEADER_WORDS {
        return Err(SerializationError::UnexpectedEnd);
    }
    let size = read_word(bytes, 0);
    let degree = read_word(bytes, 1);
    let message_modulus = read_word(bytes, 2);
    let carry_modulus = read_word(bytes, 3);
    let order = read_word(bytes, 4);
    if size < 1 || size > usize::MAX as u64 || degree > usize::MAX as u64 || message_modulus < 1
        || message_modulus > usize::MAX as u64 || carry_modulus < 1 || carry_modulus
        > usize::MAX as u64 || order > 1 {
        return Err(SerializationError::InvalidValue);
    }
    let available = (len - 8 * HEADER_WORDS) / 8;
    if (available as u64) < size {
        return Err(SerializationError::UnexpectedEnd);
    }
    if (available as u64) > size || (len - 8 * HEADER_WORDS) % 8 != 0 {
        return Err(SerializationError::TrailingBytes);
    }
    let n = size as usize;
    let mut data: Vec<u64> = Vec::with_capacity(n);
    let mut i: usize = 0;
    while i < n
        invariant
            len == bytes@.len(),
            len == 8 * (HEADER_WORDS + n),
            i <= n,
            data@.len() == i,
            forall|j: int| 0 <= j < i ==> data@[j] == word_at(bytes@, HEADER_WORDS + j),
        decreases n - i,
    {
        let word = read_word(bytes, HEADER_WORDS + i);
        data.push(word);
        i += 1;
    }
    let ct = Ciphertext {
        ct: LweCiphertext { data, ciphertext_modulus: CiphertextModulus::Native },
        degree: Degree(degree as usize),
        message_modulus: MessageModulus(message_modulus as usize),
        carry_modulus: CarryModulus(carry_modulus as usize),
        pbs_order: if order == 0 {
            PBSOrder::KeyswitchBootstrap
        } else {
            PBSOrder::BootstrapKeyswitch
        },
    };
    proof {
        assert(ct@.ct =~= Seq::new(
            word_at(bytes@, 0) as nat,
            |i: int| word_at(bytes@, HEADER_WORDS + i),
        ));
    }
    Ok(ct)
}

/// Encode a compressed ciphertext.
pub fn serialize_compressed_ciphertext(ct: &CompressedCiphertext) -> (bytes: Vec<u8>)
    ensures
        bytes@ == serialized_compressed_ciphertext(*ct),
{
    let mut bytes = serialize_header(
        ct.ct.lwe_size.0,
        ct.degree,
        ct.message_modulus,
        ct.carry_modulus,
        ct.pbs_order,
    );
    let ghost header = header_words(
        ct.ct.lwe_size.0 as int,
        ct.degree,
        ct.message_modulus,
        ct.carry_modulus,
        ct.pbs_order,
    );
    let low = (ct.ct.compression_seed.seed.0 % 0x1_0000_0000_0000_0000) as u64;
    let high = (ct.ct.compression_seed.seed.0 / 0x1_0000_0000_0000_0000) as u64;
    push_word(&mut bytes, low, Ghost(header));
    push_word(&mut bytes, high, Ghost(header.push(low)));
    push_word(&mut bytes, ct.ct.data, Ghost(header.push(low).push(high)));
    assert(header.push(low).push(high).push(ct.ct.data) =~= header + seq![low, high, ct.ct.data]);
    bytes
}

/// Decode a compressed ciphertext. The bytes must be a whole encoding and nothing more.
pub fn deserialize_compressed_ciphertext(bytes: &[u8]) -> (result: Result<
    CompressedCiphertext,
    SerializationError,
>)
    ensures
        result == parsed_compressed_ciphertext(bytes@),
        result matches Ok(ct) ==> ct.wf(),
{
    let len = bytes.len();
    if len < 8 * HEADER_WORDS {
        return Err(SerializationError::UnexpectedEnd);
    }
    let size = read_word(bytes, 0);
    let degree = read_word(bytes, 1);
    let message_modulus = read_word(bytes, 2);
    let carry_modulus = read_word(bytes, 3);
    let order = read_word(bytes, 4);
    if size < 1 || size > usize::MAX as u64 || degree > usize::MAX as u64 || message_modulus < 1
        || message_modulus > usize::MAX as u64 || carry_modulus < 1 || carry_modulus
        > usize::MAX as u64 || order > 1 {
        return Err(SerializationError::InvalidValue);
    }
    if len < 8 * (HEADER_WORDS + 3) {
        return Err(SerializationError::UnexpectedEnd);
    }
    if len > 8 * (HEADER_WORDS + 3) {
        return Err(SerializationError::TrailingBytes);
    }
    let low = read_word(bytes, HEADER_WORDS);
    let high = read_word(bytes, HEADER_WORDS + 1);
    let body = read_word(bytes, HEADER_WORDS + 2);
    Ok(
        CompressedCiphertext {
            ct: SeededLweCiphertext {
                data: body,
                lwe_size: LweSize(size as usize),
                compression_seed: CompressionSeed {
                    seed: Seed(high as u128 * 0x1_0000_0000_0000_0000 + low as u128),
                },
                ciphertext_modulus: CiphertextModulus::Native,
            },
            degree: Degree(degree as usize),
            message_modulus: MessageModulus(message_modulus as usize),
            carry_modulus: CarryModulus(carry_modulus as usize),
            pbs_order: if order == 0 {
                PBSOrder::KeyswitchBootstrap
            } else {
                PBSOrder::BootstrapKeyswitch
            },
        },
    )
}

} // verus!
