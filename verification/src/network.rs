//! The messages that mempools gossip to each other, and their wire form.
use vstd::prelude::*;
use vstd::string::StringExecFns;
use vstd::utf8::encode_utf8;

use crate::tx::copy_bytes;

verus! {

/// The type URL under which the pool gossips a transaction, and the only one
/// a gossip message may carry.
pub open spec fn gossip_type_url() -> Seq<char> {
    seq!['m', 'e', 'm', 'p', 'o', 'o', 'l', '.', 't', 'r', 'a', 'n', 's', 'a', 'c', 't', 'i', 'o', 'n']
}

/// The text that starts the error for a message of an unknown type.
pub open spec fn unknown_type_prefix() -> Seq<char> {
    seq![
        'U', 'n', 'k', 'n', 'o', 'w', 'n', ' ', 't', 'y', 'p', 'e', ' ', 'U', 'R', 'L', ':', ' ',
    ]
}

/// Builds the type URL under which the pool gossips a transaction.
pub fn gossip_type_url_string() -> (r: String)
    ensures
        r@ == gossip_type_url(),
{
    proof {
        broadcast use vstd::string::to_string_from_display_ensures_for_str;
        reveal_strlit("mempool.transaction");
    }
    let r = "mempool.transaction".to_string();
    r
}

/// The base-128 varint encoding of `x`: seven bits a byte, least significant
/// first, the high bit set on every byte but the last.
pub open spec fn varint(x: nat) -> Seq<u8>
    decreases x,
{
    if x < 128 {
        seq![x as u8]
    } else {
        seq![(x % 128 + 128) as u8] + varint(x / 128)
    }
}

/// A length-delimited protocol-buffer field with the key byte `key`; a field
/// with no bytes is left out.
pub open spec fn field_encoding(key: u8, data: Seq<u8>) -> Seq<u8> {
    if data.len() == 0 {
        Seq::empty()
    } else {
        seq![key] + varint(data.len()) + data
    }
}

/// The protocol-buffer encoding of an `Any` with the given type URL and
/// value: field 1 holds the URL in UTF-8, field 2 the value.
pub open spec fn any_encoding(type_url: Seq<char>, value: Seq<u8>) -> Seq<u8> {
    field_encoding(0x0a, encode_utf8(type_url)) + field_encoding(0x12, value)
}

/// What decoding `bytes` as a protocol-buffer `Any` gives: its type URL and
/// value, or nothing when the bytes are no such encoding.
pub uninterp spec fn decode_any(bytes: Seq<u8>) -> Option<(Seq<char>, Seq<u8>)>;

#[verifier::external_type_specification]
#[verifier::external_body]
pub struct ExDecodeError(prost::DecodeError);

/// `prost::Message::encoded_len` on a `prost_types::Any`: the length of the
/// encoding that `any_encoding` states (prost writes a string or bytes field
/// only when it is not empty, as a one-byte key, the varint length and the
/// bytes).
#[verifier::external_body]
fn any_encoded_len(type_url: &String, value: &Vec<u8>) -> (r: usize)
    requires
        any_encoding(type_url@, value@).len() <= usize::MAX,
    ensures
        r == any_encoding(type_url@, value@).len(),
{
    prost::Message::encoded_len(&prost_types::Any { type_url: type_url.clone(), value: value.clone() })
}

/// `prost::Message::encode_to_vec` on a `prost_types::Any`: the bytes that
/// `any_encoding` states.
#[verifier::external_body]
fn any_encode(type_url: &String, value: &Vec<u8>) -> (r: Vec<u8>)
    requires
        any_encoding(type_url@, value@).len() <= isize::MAX,
    ensures
        r@ == any_encoding(type_url@, value@),
{
    prost::Message::encode_to_vec(&prost_types::Any { type_url: type_url.clone(), value: value.clone() })
}

/// `prost::Message::decode` into a `prost_types::Any`: its result is
/// `decode_any` of the bytes, and it gives back the URL and value of an
/// encoding that `any_encoding` produced. What it does with other bytes is
/// left to the name.
#[verifier::external_body]
fn any_decode(bytes: &[u8]) -> (r: Result<ProtoAny, prost::DecodeError>)
    ensures
        r matches Ok(a) ==> decode_any(bytes@) == Some((a.type_url@, a.value@)),
        r is Err <==> decode_any(bytes@) is None,
        r is Ok || forall|u: Seq<char>, v: Seq<u8>| bytes@ != #[trigger] any_encoding(u, v),
        r matches Ok(a) ==> forall|u: Seq<char>, v: Seq<u8>|
            bytes@ == #[trigger] any_encoding(u, v) ==> a.type_url@ == u && a.value@ == v,
{
    match <prost_types::Any as prost::Message>::decode(bytes) {
        Ok(a) => Ok(ProtoAny { type_url: a.type_url, value: a.value }),
        Err(e) => Err(e),
    }
}

/// A protocol-buffer `Any`: a type URL and the encoded message it names.
#[derive(Debug, PartialEq, Eq)]
pub struct ProtoAny {
    pub type_url: String,
    pub value: Vec<u8>,
}

impl Clone for ProtoAny {
    fn clone(&self) -> (r: Self)
        ensures
            r.type_url@ == self.type_url@,
            r.value@ == self.value@,
    {
        ProtoAny { type_url: self.type_url.clone(), value: copy_bytes(&self.value) }
    }
}

/// A batch of transactions as the pool gossips it.
#[derive(Debug, PartialEq, Eq)]
pub struct MempoolTransactionBatch {
    pub transaction_batch: ProtoAny,
}

impl MempoolTransactionBatch {
    /// Wraps an `Any` into a batch.
    pub fn new(transaction_batch: ProtoAny) -> (r: Self)
        ensures
            r.transaction_batch == transaction_batch,
    {
        MempoolTransactionBatch { transaction_batch }
    }
}

/// Whether `batch` is the gossip message that carries the transaction `tx`.
pub open spec fn is_gossip_of(batch: MempoolTransactionBatch, tx: Seq<u8>) -> bool {
    &&& batch.transaction_batch.type_url@ == gossip_type_url()
    &&& batch.transaction_batch.value@ == tx
}

/// The channels of the gossip network.
#[derive(Clone, Copy, Debug, PartialEq, Eq, Structural)]
pub enum Channel {
    Mempool,
}

/// Errors in turning messages into bytes and back.
#[derive(Debug, PartialEq, Eq)]
pub enum ProtoError {
    /// The bytes are no protocol-buffer `Any`.
    Decode,
    /// The bytes decode, but to no message this network carries.
    Other(String),
}

/// A message of the mempool gossip network.
#[derive(Debug, PartialEq, Eq)]
pub enum NetworkMsg {
    TransactionBatch(MempoolTransactionBatch),
}

impl NetworkMsg {
    /// The `Any` the message is made of.
    pub open spec fn any(&self) -> ProtoAny {
        match self {
            NetworkMsg::TransactionBatch(batch) => batch.transaction_batch,
        }
    }

    /// The channel the message travels on.
    pub fn channel(&self) -> (r: Channel)
        ensures
            r == Channel::Mempool,
    {
        Channel::Mempool
    }

    /// The message an `Any` stands for: a transaction batch when the type URL
    /// is the gossip one, an error naming the URL otherwise.
    pub fn from_proto(proto: ProtoAny) -> (r: Result<Self, ProtoError>)
        ensures
            proto.type_url@ == gossip_type_url() ==> r == Ok::<Self, ProtoError>(
                NetworkMsg::TransactionBatch(MempoolTransactionBatch { transaction_batch: proto }),
            ),
            proto.type_url@ != gossip_type_url() ==> (r matches Err(ProtoError::Other(msg)) && msg@
                == unknown_type_prefix() + proto.type_url@),
    {
        let expected = gossip_type_url_string();
        if proto.type_url == expected {
            Ok(NetworkMsg::TransactionBatch(MempoolTransactionBatch { transaction_batch: proto }))
        } else {
            proof {
                broadcast use vstd::string::to_string_from_display_ensures_for_str;
                reveal_strlit("Unknown type URL: ");
            }
            let mut msg = "Unknown type URL: ".to_string();
            msg.append(proto.type_url.as_str());
            Err(ProtoError::Other(msg))
        }
    }

    /// The `Any` the message is made of.
    pub fn to_proto(&self) -> (r: Result<ProtoAny, ProtoError>)
        ensures
            r matches Ok(a) && a.type_url@ == self.any().type_url@ && a.value@ == self.any().value@,
    {
        match self {
            NetworkMsg::TransactionBatch(batch) => Ok(batch.transaction_batch.clone()),
        }
    }

    /// Reads a message from its wire form: the bytes decode as a
    /// protocol-buffer `Any`, which becomes the batch, whatever its type URL.
    pub fn from_network_bytes(bytes: &[u8]) -> (r: Result<Self, ProtoError>)
        ensures
            match decode_any(bytes@) {
                None => r == Err::<Self, ProtoError>(ProtoError::Decode),
                Some((u, v)) => r matches Ok(m) && m.any().type_url@ == u && m.any().value@ == v,
            },
            forall|u: Seq<char>, v: Seq<u8>|
                bytes@ == #[trigger] any_encoding(u, v) ==> (r matches Ok(m) && m.any().type_url@ == u
                    && m.any().value@ == v),
    {
        match any_decode(bytes) {
            Ok(proto) => Ok(NetworkMsg::TransactionBatch(MempoolTransactionBatch::new(proto))),
            Err(_) => Err(ProtoError::Decode),
        }
    }

    /// The wire form of the message.
    pub fn to_network_bytes(&self) -> (r: Result<Vec<u8>, ProtoError>)
        requires
            any_encoding(self.any().type_url@, self.any().value@).len() <= isize::MAX,
        ensures
            r matches Ok(b) && b@ == any_encoding(self.any().type_url@, self.any().value@),
    {
        match self {
            NetworkMsg::TransactionBatch(batch) => Ok(
                any_encode(&batch.transaction_batch.type_url, &batch.transaction_batch.value),
            ),
        }
    }

    /// The size of the wire form of the message, in bytes.
    pub fn size_bytes(&self) -> (r: usize)
        requires
            any_encoding(self.any().type_url@, self.any().value@).len() <= usize::MAX,
        ensures
            r == any_encoding(self.any().type_url@, self.any().value@).len(),
    {
        match self {
            NetworkMsg::TransactionBatch(batch) => any_encoded_len(
                &batch.transaction_batch.type_url,
                &batch.transaction_batch.value,
            ),
        }
    }
}

/// The varint encoding of a larger number is no shorter.
pub proof fn lemma_varint_len_monotone(x: nat, y: nat)
    requires
        x <= y,
    ensures
        varint(x).len() <= varint(y).len(),
    decreases y,
{
    if x >= 128 {
        lemma_varint_len_monotone(x / 128, y / 128);
    }
}

/// The wire form of a message with an empty type URL and value is empty, and
/// it grows with the value: a longer value gives a longer encoding.
pub proof fn lemma_size_grows_with_value(u: Seq<char>, v1: Seq<u8>, v2: Seq<u8>)
    ensures
        any_encoding(Seq::empty(), Seq::empty()).len() == 0,
        v1.len() < v2.len() ==> any_encoding(u, v1).len() < any_encoding(u, v2).len(),
        v1.len() == v2.len() ==> any_encoding(u, v1).len() == any_encoding(u, v2).len(),
{
    assert(encode_utf8(Seq::<char>::empty()) =~= Seq::<u8>::empty()) by {
        reveal_with_fuel(encode_utf8, 1);
    }
    if v1.len() < v2.len() && v1.len() > 0 {
        lemma_varint_len_monotone(v1.len(), v2.len());
    }
}

} // verus!
