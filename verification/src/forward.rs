//! Splitting and framing of NNG wire messages.
//!
//! A wire message is a UTF-8 topic, the `FRAME_SEPARATOR` byte (`\0`) and an
//! opaque payload. The topic stays a prefix of the frame so that NNG SUB topic
//! filtering works, while the payload can be split back out by the subscriber.

use vstd::prelude::*;
use vstd::string::StringSliceAdditionalSpecFns;
use vstd::utf8::*;

verus! {

/// Byte used as the separator between the topic and the payload.
pub const FRAME_SEPARATOR: u8 = 0u8;

/// Position of the first separator byte in `bytes`, or `bytes.len()` when
/// there is none.
pub open spec fn separator_pos(bytes: Seq<u8>) -> nat
    decreases bytes.len(),
{
    if bytes.len() == 0 {
        0
    } else if bytes[0] == FRAME_SEPARATOR {
        0
    } else {
        1 + separator_pos(bytes.drop_first())
    }
}

/// What `String::from_utf8_lossy` makes of a byte sequence.
pub uninterp spec fn utf8_lossy(bytes: Seq<u8>) -> Seq<char>;

/// The frame `topic ␀ payload` as bytes.
pub open spec fn spec_frame(topic: Seq<char>, payload: Seq<u8>) -> Seq<u8> {
    encode_utf8(topic) + seq![FRAME_SEPARATOR] + payload
}

/// `String::from_utf8_lossy(bytes).into_owned()`: the text is what the name
/// `utf8_lossy` gives; std documents that valid UTF-8 is decoded unchanged
/// (only invalid sequences are replaced by U+FFFD).
#[verifier::external_body]
fn decode_lossy(bytes: &[u8]) -> (text: String)
    ensures
        text@ == utf8_lossy(bytes@),
        valid_utf8(bytes@) ==> text@ == decode_utf8(bytes@),
{
    String::from_utf8_lossy(bytes).into_owned()
}

proof fn lemma_separator_pos(bytes: Seq<u8>)
    ensures
        separator_pos(bytes) <= bytes.len(),
        forall|j: int| 0 <= j < separator_pos(bytes) ==> bytes[j] != FRAME_SEPARATOR,
        separator_pos(bytes) < bytes.len() ==> bytes[separator_pos(bytes) as int]
            == FRAME_SEPARATOR,
    decreases bytes.len(),
{
    if bytes.len() > 0 && bytes[0] != FRAME_SEPARATOR {
        lemma_separator_pos(bytes.drop_first());
        assert forall|j: int| 0 <= j < separator_pos(bytes) implies bytes[j]
            != FRAME_SEPARATOR by {
            if j > 0 {
                assert(bytes[j] == bytes.drop_first()[j - 1]);
            }
        }
    }
}

/// A position `i` that holds a separator with none before it is `separator_pos`.
proof fn lemma_separator_pos_unique(bytes: Seq<u8>, i: int)
    requires
        0 <= i <= bytes.len(),
        i < bytes.len() ==> bytes[i] == FRAME_SEPARATOR,
        forall|j: int| 0 <= j < i ==> bytes[j] != FRAME_SEPARATOR,
    ensures
        separator_pos(bytes) == i,
    decreases bytes.len(),
{
    if bytes.len() > 0 && i > 0 {
        assert forall|j: int| 0 <= j < i - 1 implies bytes.drop_first()[j]
            != FRAME_SEPARATOR by {
            assert(bytes.drop_first()[j] == bytes[j + 1]);
        }
        lemma_separator_pos_unique(bytes.drop_first(), i - 1);
    }
}

/// Split a framed wire message into `(topic, payload_bytes)`.
///
/// Returns `None` when the frame separator is missing. The topic is the bytes
/// before the first separator, decoded lossily as UTF-8; the payload is every
/// byte after it.
pub fn split_frame(bytes: &[u8]) -> (r: Option<(String, &[u8])>)
    ensures
        r is None <==> separator_pos(bytes@) == bytes@.len(),
        r matches Some((topic, payload)) ==> {
            &&& topic@ == utf8_lossy(bytes@.take(separator_pos(bytes@) as int))
            &&& valid_utf8(bytes@.take(separator_pos(bytes@) as int)) ==> topic@ == decode_utf8(
                bytes@.take(separator_pos(bytes@) as int),
            )
            &&& payload@ == bytes@.skip(separator_pos(bytes@) + 1int)
        },
{
    proof {
        lemma_separator_pos(bytes@);
    }
    let n = bytes.len();
    let mut i: usize = 0;
    while i < n
        invariant
            n == bytes@.len(),
            i <= n,
            forall|j: int| 0 <= j < i ==> bytes@[j] != FRAME_SEPARATOR,
        decreases n - i,
    {
        if bytes[i] == FRAME_SEPARATOR {
            proof {
                lemma_separator_pos_unique(bytes@, i as int);
            }
            let (head, rest) = bytes.split_at(i);
            let topic = decode_lossy(head);
            let payload = &rest[1..rest.len()];
            assert(head@ == bytes@.take(i as int));
            assert(payload@ =~= bytes@.skip(i + 1));
            return Some((topic, payload));
        }
        i = i + 1;
    }
    proof {
        lemma_separator_pos_unique(bytes@, n as int);
    }
    None
}

/// The UTF-8 encoding of a non-NUL scalar holds no zero byte.
proof fn lemma_encode_scalar_nonzero(c: u32)
    requires
        is_scalar(c),
        c != 0,
    ensures
        forall|k: int| 0 <= k < encode_scalar(c).len() ==> encode_scalar(c)[k] != 0u8,
{
    assert(c != 0 && c <= 0x7F ==> (c & 0x7F) as u8 != 0u8) by (bit_vector);
    assert((0xC0u8 | ((c >> 6u32) & 0x1F) as u8) != 0u8) by (bit_vector);
    assert((0xE0u8 | ((c >> 12u32) & 0x0F) as u8) != 0u8) by (bit_vector);
    assert((0xF0u8 | ((c >> 18u32) & 0x7) as u8) != 0u8) by (bit_vector);
    assert((0x80u8 | (c & 0x3F) as u8) != 0u8) by (bit_vector);
    assert((0x80u8 | ((c >> 6u32) & 0x3F) as u8) != 0u8) by (bit_vector);
    assert((0x80u8 | ((c >> 12u32) & 0x3F) as u8) != 0u8) by (bit_vector);
}

/// A text without NUL characters encodes to bytes without a separator.
proof fn lemma_encode_utf8_no_separator(chars: Seq<char>)
    requires
        forall|i: int| 0 <= i < chars.len() ==> chars[i] as u32 != 0,
    ensures
        forall|k: int|
            0 <= k < encode_utf8(chars).len() ==> encode_utf8(chars)[k] != FRAME_SEPARATOR,
    decreases chars.len(),
{
    if chars.len() > 0 {
        let c = chars[0] as u32;
        char_is_scalar(chars[0]);
        lemma_encode_scalar_nonzero(c);
        lemma_encode_utf8_no_separator(chars.drop_first());
        let head = encode_scalar(c);
        let tail = encode_utf8(chars.drop_first());
        assert forall|k: int| 0 <= k < encode_utf8(chars).len() implies encode_utf8(chars)[k]
            != FRAME_SEPARATOR by {
            if k < head.len() {
                assert(encode_utf8(chars)[k] == head[k]);
            } else {
                assert(encode_utf8(chars)[k] == tail[k - head.len()]);
            }
        }
    }
}

/// Splitting a framed message gives back its topic and payload, provided the
/// topic holds no NUL character: the separator found is the one that framing
/// inserted, the topic bytes are valid UTF-8 that decode to the topic, and
/// the payload is everything after the separator.
pub proof fn lemma_split_inverts_frame(topic: Seq<char>, payload: Seq<u8>)
    requires
        forall|i: int| 0 <= i < topic.len() ==> topic[i] as u32 != 0,
    ensures
        separator_pos(spec_frame(topic, payload)) == encode_utf8(topic).len(),
        separator_pos(spec_frame(topic, payload)) < spec_frame(topic, payload).len(),
        spec_frame(topic, payload).take(encode_utf8(topic).len() as int) == encode_utf8(topic),
        valid_utf8(encode_utf8(topic)),
        decode_utf8(encode_utf8(topic)) == topic,
        spec_frame(topic, payload).skip(encode_utf8(topic).len() + 1int) == payload,
{
    let enc = encode_utf8(topic);
    let frame = spec_frame(topic, payload);
    lemma_encode_utf8_no_separator(topic);
    assert forall|j: int| 0 <= j < enc.len() implies frame[j] != FRAME_SEPARATOR by {
        assert(frame[j] == enc[j]);
    }
    assert(frame[enc.len() as int] == FRAME_SEPARATOR);
    lemma_separator_pos_unique(frame, enc.len() as int);
    assert(frame.take(enc.len() as int) =~= enc);
    assert(frame.skip(enc.len() + 1int) =~= payload);
    encode_utf8_valid_utf8(topic);
    encode_utf8_decode_utf8(topic);
}

/// Frame a topic and payload into the wire bytes sent over NNG:
/// `topic ␀ payload`.
pub fn frame_message(topic: &str, payload: &[u8]) -> (bytes: Vec<u8>)
    ensures
        bytes@ == spec_frame(topic@, payload@),
        bytes@ == topic.spec_bytes() + seq![FRAME_SEPARATOR] + payload@,
{
    let topic_bytes = topic.as_bytes();
    let mut bytes: Vec<u8> = Vec::new();
    let mut i: usize = 0;
    while i < topic_bytes.len()
        invariant
            i <= topic_bytes@.len(),
            bytes@ == topic_bytes@.take(i as int),
        decreases topic_bytes@.len() - i,
    {
        bytes.push(topic_bytes[i]);
        i = i + 1;
        assert(bytes@ =~= topic_bytes@.take(i as int));
    }
    bytes.push(FRAME_SEPARATOR);
    let ghost head = bytes@;
    let mut k: usize = 0;
    while k < payload.len()
        invariant
            k <= payload@.len(),
            bytes@ == head + payload@.take(k as int),
        decreases payload@.len() - k,
    {
        bytes.push(payload[k]);
        k = k + 1;
        assert(bytes@ =~= head + payload@.take(k as int));
    }
    assert(topic_bytes@.take(topic_bytes@.len() as int) =~= topic_bytes@);
    assert(payload@.take(payload@.len() as int) =~= payload@);
    bytes
}

} // verus!
