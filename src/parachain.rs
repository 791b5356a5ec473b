//! Parachain candidate model: receipts, collations, routing data, statements
//! and attestations, with their validity rules and canonical encodings.

use vstd::prelude::*;
use crate::codec::Codec;
use crate::crypto::{blake2_256, blake2_256_of, ed25519_valid, ed25519_verify, H256};

verus! {

/// Identity that collators use.
pub type CollatorId = [u8; 32];

/// Signature on a candidate's block data by a collator.
pub type CollatorSignature = [u8; 64];

/// Identity that parachain validators use when signing validation messages.
pub type ValidatorId = [u8; 32];

/// Index of a validator in the current validator set.
pub type ValidatorIndex = u32;

/// Signature with which parachain validators sign statements.
pub type ValidatorSignature = [u8; 64];

/// A relay-chain account.
pub type AccountId = [u8; 32];

/// Unique identifier of a parachain.
#[derive(Clone, Copy, Debug, PartialEq, Eq, PartialOrd, Ord, Hash, Structural)]
pub struct Id(pub u32);

impl Id {
    /// The numeric value of the identifier.
    pub fn into_inner(self) -> (r: u32)
        ensures
            r == self.0,
    {
        self.0
    }
}

impl DeepView for Id {
    type V = u32;

    open spec fn deep_view(&self) -> u32 {
        self.0
    }
}

impl Codec for Id {
    open spec fn encodable(&self) -> bool {
        true
    }

    open spec fn spec_encode(v: u32) -> Seq<u8> {
        u32::spec_encode(v)
    }

    open spec fn spec_decode(b: Seq<u8>) -> Option<(u32, nat)> {
        u32::spec_decode(b)
    }

    proof fn lemma_round_trip(x: &Id, rest: Seq<u8>) {
        u32::lemma_round_trip(&x.0, rest);
    }

    fn encode_to(&self, out: &mut Vec<u8>) {
        self.0.encode_to(out);
    }

    fn decode_from(data: &[u8], pos: usize) -> (r: Option<(Id, usize)>) {
        match u32::decode_from(data, pos) {
            Some((v, e)) => Some((Id(v), e)),
            None => None,
        }
    }
}

/// Identifier for a chain: the relay chain or one of the parachains.
#[derive(Clone, Copy, Debug, PartialEq, Eq, Structural)]
pub enum Chain {
    /// The relay chain.
    Relay,
    /// The parachain of the given index.
    Parachain(Id),
}

impl DeepView for Chain {
    type V = Chain;

    open spec fn deep_view(&self) -> Chain {
        *self
    }
}

impl Codec for Chain {
    open spec fn encodable(&self) -> bool {
        true
    }

    open spec fn spec_encode(v: Chain) -> Seq<u8> {
        match v {
            Chain::Relay => seq![0u8],
            Chain::Parachain(id) => seq![1u8] + u32::spec_encode(id.0),
        }
    }

    open spec fn spec_decode(b: Seq<u8>) -> Option<(Chain, nat)> {
        if b.len() >= 1 && b[0] == 0 {
            Some((Chain::Relay, 1))
        } else if b.len() >= 1 && b[0] == 1 {
            match u32::spec_decode(b.skip(1)) {
                Some((id, k)) => Some((Chain::Parachain(Id(id)), 1 + k)),
                None => None,
            }
        } else {
            None
        }
    }

    proof fn lemma_round_trip(x: &Chain, rest: Seq<u8>) {
        if let Chain::Parachain(id) = *x {
            u32::lemma_round_trip(&id.0, rest);
            assert((seq![1u8] + u32::spec_encode(id.0) + rest).skip(1) =~= u32::spec_encode(id.0)
                + rest);
        }
    }

    fn encode_to(&self, out: &mut Vec<u8>) {
        match *self {
            Chain::Relay => {
                out.push(0u8);
                assert(final(out)@ =~= old(out)@ + seq![0u8]);
            },
            Chain::Parachain(id) => {
                out.push(1u8);
                id.0.encode_to(out);
                assert(final(out)@ =~= old(out)@ + (seq![1u8] + u32::spec_encode(id.0)));
            },
        }
    }

    fn decode_from(data: &[u8], pos: usize) -> (r: Option<(Chain, usize)>) {
        if pos >= data.len() {
            return None;
        }
        let tag = data[pos];
        if tag == 0 {
            Some((Chain::Relay, pos + 1))
        } else if tag == 1 {
            assert(data@.skip(pos as int).skip(1) =~= data@.skip(pos + 1));
            match u32::decode_from(data, pos + 1) {
                Some((id, e)) => Some((Chain::Parachain(Id(id)), e)),
                None => None,
            }
        } else {
            None
        }
    }
}

/// The duty roster: for each validator index, the chain that validator must
/// validate.
#[derive(Clone, Debug, PartialEq, Eq)]
pub struct DutyRoster {
    /// Lookup from validator index to the chain of its duty.
    pub validator_duty: Vec<Chain>,
}

impl DeepView for DutyRoster {
    type V = Seq<Chain>;

    open spec fn deep_view(&self) -> Seq<Chain> {
        self.validator_duty.deep_view()
    }
}

impl Codec for DutyRoster {
    open spec fn encodable(&self) -> bool {
        self.validator_duty.encodable()
    }

    open spec fn spec_encode(v: Seq<Chain>) -> Seq<u8> {
        Vec::<Chain>::spec_encode(v)
    }

    open spec fn spec_decode(b: Seq<u8>) -> Option<(Seq<Chain>, nat)> {
        Vec::<Chain>::spec_decode(b)
    }

    proof fn lemma_round_trip(x: &DutyRoster, rest: Seq<u8>) {
        Vec::<Chain>::lemma_round_trip(&x.validator_duty, rest);
    }

    fn encode_to(&self, out: &mut Vec<u8>) {
        self.validator_duty.encode_to(out);
    }

    fn decode_from(data: &[u8], pos: usize) -> (r: Option<(DutyRoster, usize)>) {
        match Vec::<Chain>::decode_from(data, pos) {
            Some((v, e)) => Some((DutyRoster { validator_duty: v }, e)),
            None => None,
        }
    }
}


/// The 64-byte array whose view is `s`.
pub open spec fn array_of(s: Seq<u8>) -> [u8; 64] {
    choose|a: [u8; 64]| a@ == s
}

proof fn lemma_array_of(a: [u8; 64])
    ensures
        array_of(a@) == a,
{
    broadcast use vstd::array::axiom_array_ext_equal;
    let c = array_of(a@);
    assert(c@ == a@);
    assert(c =~= a);
}
/// A message queued from a parachain to another chain.
#[derive(Clone, Debug, PartialEq, Eq)]
pub struct OutgoingMessage {
    /// The target parachain.
    pub target: Id,
    /// The message data.
    pub data: Vec<u8>,
}

impl OutgoingMessage {
    /// The fields of the value, in encoding order.
    pub open spec fn fields(&self) -> (Id, Vec<u8>) {
        (self.target, self.data)
    }
}

impl DeepView for OutgoingMessage {
    type V = (<Id as DeepView>::V, <Vec<u8> as DeepView>::V);

    open spec fn deep_view(&self) -> Self::V {
        (self.target.deep_view(), self.data.deep_view())
    }
}

impl Codec for OutgoingMessage {
    open spec fn encodable(&self) -> bool {
        self.target.encodable() && self.data.encodable()
    }

    open spec fn spec_encode(v: Self::V) -> Seq<u8> {
        <(Id, Vec<u8>)>::spec_encode(v)
    }

    open spec fn spec_decode(b: Seq<u8>) -> Option<(Self::V, nat)> {
        <(Id, Vec<u8>)>::spec_decode(b)
    }

    proof fn lemma_round_trip(x: &OutgoingMessage, rest: Seq<u8>) {
        <(Id, Vec<u8>)>::lemma_round_trip(&x.fields(), rest);
    }

    fn encode_to(&self, out: &mut Vec<u8>) {
        self.target.encode_to(out);
        self.data.encode_to(out);
        assert(final(out)@ =~= old(out)@ + Self::spec_encode(self.deep_view()));
    }

    fn decode_from(data: &[u8], pos: usize) -> (r: Option<(OutgoingMessage, usize)>) {
        match <(Id, Vec<u8>)>::decode_from(data, pos) {
            Some(((f0, f1), e)) => Some((OutgoingMessage { target: f0, data: f1 }, e)),
            None => None,
        }
    }
}

/// Data produced by evaluating a parachain candidate: full records of all its
/// outgoing messages to other parachains.
#[derive(Clone, Debug, PartialEq, Eq)]
pub struct Extrinsic {
    /// The outgoing messages of the candidate, which must be in ascending
    /// order of target.
    pub outgoing_messages: Vec<OutgoingMessage>,
}

impl Extrinsic {
    /// The fields of the value, in encoding order.
    pub open spec fn fields(&self) -> Vec<OutgoingMessage> {
        self.outgoing_messages
    }
}

impl DeepView for Extrinsic {
    type V = <Vec<OutgoingMessage> as DeepView>::V;

    open spec fn deep_view(&self) -> Self::V {
        self.outgoing_messages.deep_view()
    }
}

impl Codec for Extrinsic {
    open spec fn encodable(&self) -> bool {
        self.outgoing_messages.encodable()
    }

    open spec fn spec_encode(v: Self::V) -> Seq<u8> {
        <Vec<OutgoingMessage>>::spec_encode(v)
    }

    open spec fn spec_decode(b: Seq<u8>) -> Option<(Self::V, nat)> {
        <Vec<OutgoingMessage>>::spec_decode(b)
    }

    proof fn lemma_round_trip(x: &Extrinsic, rest: Seq<u8>) {
        <Vec<OutgoingMessage>>::lemma_round_trip(&x.fields(), rest);
    }

    fn encode_to(&self, out: &mut Vec<u8>) {
        self.outgoing_messages.encode_to(out);
        assert(final(out)@ =~= old(out)@ + Self::spec_encode(self.deep_view()));
    }

    fn decode_from(data: &[u8], pos: usize) -> (r: Option<(Extrinsic, usize)>) {
        match <Vec<OutgoingMessage>>::decode_from(data, pos) {
            Some((f0, e)) => Some((Extrinsic { outgoing_messages: f0 }, e)),
            None => None,
        }
    }
}

/// Parachain head data included in the relay chain.
#[derive(Clone, Debug, PartialEq, Eq)]
pub struct HeadData(pub Vec<u8>);

impl DeepView for HeadData {
    type V = Seq<u8>;

    open spec fn deep_view(&self) -> Seq<u8> {
        self.0.deep_view()
    }
}

impl Codec for HeadData {
    open spec fn encodable(&self) -> bool {
        self.0.encodable()
    }

    open spec fn spec_encode(v: Seq<u8>) -> Seq<u8> {
        Vec::<u8>::spec_encode(v)
    }

    open spec fn spec_decode(b: Seq<u8>) -> Option<(Seq<u8>, nat)> {
        Vec::<u8>::spec_decode(b)
    }

    proof fn lemma_round_trip(x: &HeadData, rest: Seq<u8>) {
        Vec::<u8>::lemma_round_trip(&x.0, rest);
    }

    fn encode_to(&self, out: &mut Vec<u8>) {
        self.0.encode_to(out);
    }

    fn decode_from(data: &[u8], pos: usize) -> (r: Option<(HeadData, usize)>) {
        match Vec::<u8>::decode_from(data, pos) {
            Some((v, e)) => Some((HeadData(v), e)),
            None => None,
        }
    }
}

/// Receipt of a parachain candidate: its head, its cross-chain effects and the
/// collator's signature of its block data.
#[derive(Clone, Debug, PartialEq, Eq)]
pub struct CandidateReceipt {
    /// The parachain this is a candidate for.
    pub parachain_index: Id,
    /// The collator's relay-chain account.
    pub collator: CollatorId,
    /// Signature by the collator on the BLAKE2b-256 digest of the block data.
    pub signature: CollatorSignature,
    /// The head data.
    pub head_data: HeadData,
    /// Balance uploads to the relay chain.
    pub balance_uploads: Vec<(AccountId, u64)>,
    /// Egress queue roots, which must be in ascending order of parachain.
    pub egress_queue_roots: Vec<(Id, H256)>,
    /// Fees paid from the parachain to the relay-chain validators.
    pub fees: u64,
    /// BLAKE2b-256 digest of the block data.
    pub block_data_hash: H256,
}

impl CandidateReceipt {
    /// The fields of the value, in encoding order.
    pub open spec fn fields(&self) -> (Id, (CollatorId, (CollatorSignature, (HeadData, (Vec<(AccountId, u64)>, (Vec<(Id, H256)>, (u64, H256))))))) {
        (self.parachain_index, (self.collator, (self.signature, (self.head_data, (self.balance_uploads, (self.egress_queue_roots, (self.fees, self.block_data_hash)))))))
    }
}

impl DeepView for CandidateReceipt {
    type V = (<Id as DeepView>::V, (<CollatorId as DeepView>::V, (<CollatorSignature as DeepView>::V, (<HeadData as DeepView>::V, (<Vec<(AccountId, u64)> as DeepView>::V, (<Vec<(Id, H256)> as DeepView>::V, (<u64 as DeepView>::V, <H256 as DeepView>::V)))))));

    open spec fn deep_view(&self) -> Self::V {
        (self.parachain_index.deep_view(), (self.collator.deep_view(), (self.signature.deep_view(), (self.head_data.deep_view(), (self.balance_uploads.deep_view(), (self.egress_queue_roots.deep_view(), (self.fees.deep_view(), self.block_data_hash.deep_view())))))))
    }
}

impl Codec for CandidateReceipt {
    open spec fn encodable(&self) -> bool {
        self.parachain_index.encodable() && self.collator.encodable() && self.signature.encodable() && self.head_data.encodable() && self.balance_uploads.encodable() && self.egress_queue_roots.encodable() && self.fees.encodable() && self.block_data_hash.encodable()
    }

    open spec fn spec_encode(v: Self::V) -> Seq<u8> {
        <(Id, (CollatorId, (CollatorSignature, (HeadData, (Vec<(AccountId, u64)>, (Vec<(Id, H256)>, (u64, H256)))))))>::spec_encode(v)
    }

    open spec fn spec_decode(b: Seq<u8>) -> Option<(Self::V, nat)> {
        <(Id, (CollatorId, (CollatorSignature, (HeadData, (Vec<(AccountId, u64)>, (Vec<(Id, H256)>, (u64, H256)))))))>::spec_decode(b)
    }

    proof fn lemma_round_trip(x: &CandidateReceipt, rest: Seq<u8>) {
        <(Id, (CollatorId, (CollatorSignature, (HeadData, (Vec<(AccountId, u64)>, (Vec<(Id, H256)>, (u64, H256)))))))>::lemma_round_trip(&x.fields(), rest);
    }

    fn encode_to(&self, out: &mut Vec<u8>) {
        self.parachain_index.encode_to(out);
        self.collator.encode_to(out);
        self.signature.encode_to(out);
        self.head_data.encode_to(out);
        self.balance_uploads.encode_to(out);
        self.egress_queue_roots.encode_to(out);
        self.fees.encode_to(out);
        self.block_data_hash.encode_to(out);
        assert(final(out)@ =~= old(out)@ + Self::spec_encode(self.deep_view()));
    }

    fn decode_from(data: &[u8], pos: usize) -> (r: Option<(CandidateReceipt, usize)>) {
        match <(Id, (CollatorId, (CollatorSignature, (HeadData, (Vec<(AccountId, u64)>, (Vec<(Id, H256)>, (u64, H256)))))))>::decode_from(data, pos) {
            Some(((f0, (f1, (f2, (f3, (f4, (f5, (f6, f7))))))), e)) => Some((CandidateReceipt { parachain_index: f0, collator: f1, signature: f2, head_data: f3, balance_uploads: f4, egress_queue_roots: f5, fees: f6, block_data_hash: f7 }, e)),
            None => None,
        }
    }
}

/// A message in a parachain's ingress queue.
#[derive(Clone, Debug, PartialEq, Eq)]
pub struct Message(pub Vec<u8>);

impl DeepView for Message {
    type V = Seq<u8>;

    open spec fn deep_view(&self) -> Seq<u8> {
        self.0.deep_view()
    }
}

impl Codec for Message {
    open spec fn encodable(&self) -> bool {
        self.0.encodable()
    }

    open spec fn spec_encode(v: Seq<u8>) -> Seq<u8> {
        Vec::<u8>::spec_encode(v)
    }

    open spec fn spec_decode(b: Seq<u8>) -> Option<(Seq<u8>, nat)> {
        Vec::<u8>::spec_decode(b)
    }

    proof fn lemma_round_trip(x: &Message, rest: Seq<u8>) {
        Vec::<u8>::lemma_round_trip(&x.0, rest);
    }

    fn encode_to(&self, out: &mut Vec<u8>) {
        self.0.encode_to(out);
    }

    fn decode_from(data: &[u8], pos: usize) -> (r: Option<(Message, usize)>) {
        match Vec::<u8>::decode_from(data, pos) {
            Some((v, e)) => Some((Message(v), e)),
            None => None,
        }
    }
}

/// Parachain block data: everything needed to validate a parachain block.
#[derive(Clone, Debug, PartialEq, Eq)]
pub struct BlockData(pub Vec<u8>);

impl DeepView for BlockData {
    type V = Seq<u8>;

    open spec fn deep_view(&self) -> Seq<u8> {
        self.0.deep_view()
    }
}

impl Codec for BlockData {
    open spec fn encodable(&self) -> bool {
        self.0.encodable()
    }

    open spec fn spec_encode(v: Seq<u8>) -> Seq<u8> {
        Vec::<u8>::spec_encode(v)
    }

    open spec fn spec_decode(b: Seq<u8>) -> Option<(Seq<u8>, nat)> {
        Vec::<u8>::spec_decode(b)
    }

    proof fn lemma_round_trip(x: &BlockData, rest: Seq<u8>) {
        Vec::<u8>::lemma_round_trip(&x.0, rest);
    }

    fn encode_to(&self, out: &mut Vec<u8>) {
        self.0.encode_to(out);
    }

    fn decode_from(data: &[u8], pos: usize) -> (r: Option<(BlockData, usize)>) {
        match Vec::<u8>::decode_from(data, pos) {
            Some((v, e)) => Some((BlockData(v), e)),
            None => None,
        }
    }
}

/// Activity bit field.
#[derive(Clone, Debug, PartialEq, Eq)]
pub struct Activity(pub Vec<u8>);

impl DeepView for Activity {
    type V = Seq<u8>;

    open spec fn deep_view(&self) -> Seq<u8> {
        self.0.deep_view()
    }
}

impl Codec for Activity {
    open spec fn encodable(&self) -> bool {
        self.0.encodable()
    }

    open spec fn spec_encode(v: Seq<u8>) -> Seq<u8> {
        Vec::<u8>::spec_encode(v)
    }

    open spec fn spec_decode(b: Seq<u8>) -> Option<(Seq<u8>, nat)> {
        Vec::<u8>::spec_decode(b)
    }

    proof fn lemma_round_trip(x: &Activity, rest: Seq<u8>) {
        Vec::<u8>::lemma_round_trip(&x.0, rest);
    }

    fn encode_to(&self, out: &mut Vec<u8>) {
        self.0.encode_to(out);
    }

    fn decode_from(data: &[u8], pos: usize) -> (r: Option<(Activity, usize)>) {
        match Vec::<u8>::decode_from(data, pos) {
            Some((v, e)) => Some((Activity(v), e)),
            None => None,
        }
    }
}

/// Consolidated ingress roots: other parachains' egress queue roots, in the
/// order the routing rules give. The same parachain may appear twice.
#[derive(Clone, Debug, PartialEq, Eq)]
pub struct ConsolidatedIngressRoots(pub Vec<(Id, H256)>);

impl ConsolidatedIngressRoots {
    /// The fields of the value, in encoding order.
    pub open spec fn fields(&self) -> Vec<(Id, H256)> {
        self.0
    }
}

impl DeepView for ConsolidatedIngressRoots {
    type V = <Vec<(Id, H256)> as DeepView>::V;

    open spec fn deep_view(&self) -> Self::V {
        self.0.deep_view()
    }
}

impl Codec for ConsolidatedIngressRoots {
    open spec fn encodable(&self) -> bool {
        self.0.encodable()
    }

    open spec fn spec_encode(v: Self::V) -> Seq<u8> {
        <Vec<(Id, H256)>>::spec_encode(v)
    }

    open spec fn spec_decode(b: Seq<u8>) -> Option<(Self::V, nat)> {
        <Vec<(Id, H256)>>::spec_decode(b)
    }

    proof fn lemma_round_trip(x: &ConsolidatedIngressRoots, rest: Seq<u8>) {
        <Vec<(Id, H256)>>::lemma_round_trip(&x.fields(), rest);
    }

    fn encode_to(&self, out: &mut Vec<u8>) {
        self.0.encode_to(out);
        assert(final(out)@ =~= old(out)@ + Self::spec_encode(self.deep_view()));
    }

    fn decode_from(data: &[u8], pos: usize) -> (r: Option<(ConsolidatedIngressRoots, usize)>) {
        match <Vec<(Id, H256)>>::decode_from(data, pos) {
            Some((f0, e)) => Some((ConsolidatedIngressRoots(f0), e)),
            None => None,
        }
    }
}

/// Consolidated ingress queue data: other parachains' egress queues, in the
/// order the routing rules give. The same parachain may appear twice.
#[derive(Clone, Debug, PartialEq, Eq)]
pub struct ConsolidatedIngress(pub Vec<(Id, Vec<Message>)>);

impl ConsolidatedIngress {
    /// The fields of the value, in encoding order.
    pub open spec fn fields(&self) -> Vec<(Id, Vec<Message>)> {
        self.0
    }
}

impl DeepView for ConsolidatedIngress {
    type V = <Vec<(Id, Vec<Message>)> as DeepView>::V;

    open spec fn deep_view(&self) -> Self::V {
        self.0.deep_view()
    }
}

impl Codec for ConsolidatedIngress {
    open spec fn encodable(&self) -> bool {
        self.0.encodable()
    }

    open spec fn spec_encode(v: Self::V) -> Seq<u8> {
        <Vec<(Id, Vec<Message>)>>::spec_encode(v)
    }

    open spec fn spec_decode(b: Seq<u8>) -> Option<(Self::V, nat)> {
        <Vec<(Id, Vec<Message>)>>::spec_decode(b)
    }

    proof fn lemma_round_trip(x: &ConsolidatedIngress, rest: Seq<u8>) {
        <Vec<(Id, Vec<Message>)>>::lemma_round_trip(&x.fields(), rest);
    }

    fn encode_to(&self, out: &mut Vec<u8>) {
        self.0.encode_to(out);
        assert(final(out)@ =~= old(out)@ + Self::spec_encode(self.deep_view()));
    }

    fn decode_from(data: &[u8], pos: usize) -> (r: Option<(ConsolidatedIngress, usize)>) {
        match <Vec<(Id, Vec<Message>)>>::decode_from(data, pos) {
            Some((f0, e)) => Some((ConsolidatedIngress(f0), e)),
            None => None,
        }
    }
}

/// A proof-of-validation block: block data and the ingress it consumes.
#[derive(Clone, Debug, PartialEq, Eq)]
pub struct PoVBlock {
    /// Block data.
    pub block_data: BlockData,
    /// Ingress for the parachain.
    pub ingress: ConsolidatedIngress,
}

impl PoVBlock {
    /// The fields of the value, in encoding order.
    pub open spec fn fields(&self) -> (BlockData, ConsolidatedIngress) {
        (self.block_data, self.ingress)
    }
}

impl DeepView for PoVBlock {
    type V = (<BlockData as DeepView>::V, <ConsolidatedIngress as DeepView>::V);

    open spec fn deep_view(&self) -> Self::V {
        (self.block_data.deep_view(), self.ingress.deep_view())
    }
}

impl Codec for PoVBlock {
    open spec fn encodable(&self) -> bool {
        self.block_data.encodable() && self.ingress.encodable()
    }

    open spec fn spec_encode(v: Self::V) -> Seq<u8> {
        <(BlockData, ConsolidatedIngress)>::spec_encode(v)
    }

    open spec fn spec_decode(b: Seq<u8>) -> Option<(Self::V, nat)> {
        <(BlockData, ConsolidatedIngress)>::spec_decode(b)
    }

    proof fn lemma_round_trip(x: &PoVBlock, rest: Seq<u8>) {
        <(BlockData, ConsolidatedIngress)>::lemma_round_trip(&x.fields(), rest);
    }

    fn encode_to(&self, out: &mut Vec<u8>) {
        self.block_data.encode_to(out);
        self.ingress.encode_to(out);
        assert(final(out)@ =~= old(out)@ + Self::spec_encode(self.deep_view()));
    }

    fn decode_from(data: &[u8], pos: usize) -> (r: Option<(PoVBlock, usize)>) {
        match <(BlockData, ConsolidatedIngress)>::decode_from(data, pos) {
            Some(((f0, f1), e)) => Some((PoVBlock { block_data: f0, ingress: f1 }, e)),
            None => None,
        }
    }
}

/// A full collation: a candidate receipt with its proof of validation.
#[derive(Clone, Debug, PartialEq, Eq)]
pub struct Collation {
    /// The candidate receipt.
    pub receipt: CandidateReceipt,
    /// The proof of validation for the receipt.
    pub pov: PoVBlock,
}

impl Collation {
    /// The fields of the value, in encoding order.
    pub open spec fn fields(&self) -> (CandidateReceipt, PoVBlock) {
        (self.receipt, self.pov)
    }
}

impl DeepView for Collation {
    type V = (<CandidateReceipt as DeepView>::V, <PoVBlock as DeepView>::V);

    open spec fn deep_view(&self) -> Self::V {
        (self.receipt.deep_view(), self.pov.deep_view())
    }
}

impl Codec for Collation {
    open spec fn encodable(&self) -> bool {
        self.receipt.encodable() && self.pov.encodable()
    }

    open spec fn spec_encode(v: Self::V) -> Seq<u8> {
        <(CandidateReceipt, PoVBlock)>::spec_encode(v)
    }

    open spec fn spec_decode(b: Seq<u8>) -> Option<(Self::V, nat)> {
        <(CandidateReceipt, PoVBlock)>::spec_decode(b)
    }

    proof fn lemma_round_trip(x: &Collation, rest: Seq<u8>) {
        <(CandidateReceipt, PoVBlock)>::lemma_round_trip(&x.fields(), rest);
    }

    fn encode_to(&self, out: &mut Vec<u8>) {
        self.receipt.encode_to(out);
        self.pov.encode_to(out);
        assert(final(out)@ =~= old(out)@ + Self::spec_encode(self.deep_view()));
    }

    fn decode_from(data: &[u8], pos: usize) -> (r: Option<(Collation, usize)>) {
        match <(CandidateReceipt, PoVBlock)>::decode_from(data, pos) {
            Some(((f0, f1), e)) => Some((Collation { receipt: f0, pov: f1 }, e)),
            None => None,
        }
    }
}

proof fn lemma_tagged_round_trip<T: Codec>(x: &T, tag: u8, rest: Seq<u8>)
    requires
        x.encodable(),
    ensures
        ({
            let b = seq![tag] + T::spec_encode(x.deep_view()) + rest;
            b.len() >= 1 && b[0] == tag && T::spec_decode(b.skip(1)) == Some(
                (x.deep_view(), T::spec_encode(x.deep_view()).len()),
            )
        }),
{
    let e = T::spec_encode(x.deep_view());
    T::lemma_round_trip(x, rest);
    assert((seq![tag] + e + rest).skip(1) =~= e + rest);
}

/// A statement that a validator makes about a parachain candidate.
#[derive(Clone, Debug, PartialEq, Eq)]
pub enum Statement {
    /// Proposal of a parachain candidate.
    Candidate(CandidateReceipt),
    /// The candidate with the given digest is valid.
    Valid(H256),
    /// The candidate with the given digest is invalid.
    Invalid(H256),
}

/// What a statement holds, as plain values.
pub enum StatementView {
    /// Proposal of the candidate with this deep view.
    Candidate(<CandidateReceipt as DeepView>::V),
    /// Validity of the candidate with this digest.
    Valid(Seq<u8>),
    /// Invalidity of the candidate with this digest.
    Invalid(Seq<u8>),
}

impl DeepView for Statement {
    type V = StatementView;

    open spec fn deep_view(&self) -> StatementView {
        match self {
            Statement::Candidate(r) => StatementView::Candidate(r.deep_view()),
            Statement::Valid(h) => StatementView::Valid(h.deep_view()),
            Statement::Invalid(h) => StatementView::Invalid(h.deep_view()),
        }
    }
}

impl Codec for Statement {
    open spec fn encodable(&self) -> bool {
        match self {
            Statement::Candidate(r) => r.encodable(),
            _ => true,
        }
    }

    open spec fn spec_encode(v: StatementView) -> Seq<u8> {
        match v {
            StatementView::Candidate(r) => seq![1u8] + CandidateReceipt::spec_encode(r),
            StatementView::Valid(h) => seq![2u8] + <[u8; 32]>::spec_encode(h),
            StatementView::Invalid(h) => seq![3u8] + <[u8; 32]>::spec_encode(h),
        }
    }

    open spec fn spec_decode(b: Seq<u8>) -> Option<(StatementView, nat)> {
        if b.len() >= 1 && b[0] == 1 {
            match CandidateReceipt::spec_decode(b.skip(1)) {
                Some((r, k)) => Some((StatementView::Candidate(r), 1 + k)),
                None => None,
            }
        } else if b.len() >= 1 && b[0] == 2 {
            match <[u8; 32]>::spec_decode(b.skip(1)) {
                Some((h, k)) => Some((StatementView::Valid(h), 1 + k)),
                None => None,
            }
        } else if b.len() >= 1 && b[0] == 3 {
            match <[u8; 32]>::spec_decode(b.skip(1)) {
                Some((h, k)) => Some((StatementView::Invalid(h), 1 + k)),
                None => None,
            }
        } else {
            None
        }
    }

    proof fn lemma_round_trip(x: &Statement, rest: Seq<u8>) {
        match x {
            Statement::Candidate(r) => lemma_tagged_round_trip(r, 1u8, rest),
            Statement::Valid(h) => lemma_tagged_round_trip(h, 2u8, rest),
            Statement::Invalid(h) => lemma_tagged_round_trip(h, 3u8, rest),
        }
    }

    fn encode_to(&self, out: &mut Vec<u8>) {
        match self {
            Statement::Candidate(r) => {
                out.push(1u8);
                r.encode_to(out);
            },
            Statement::Valid(h) => {
                out.push(2u8);
                h.encode_to(out);
            },
            Statement::Invalid(h) => {
                out.push(3u8);
                h.encode_to(out);
            },
        }
        assert(final(out)@ =~= old(out)@ + Self::spec_encode(self.deep_view()));
    }

    fn decode_from(data: &[u8], pos: usize) -> (r: Option<(Statement, usize)>) {
        if pos >= data.len() {
            return None;
        }
        let tag = data[pos];
        assert(data@.skip(pos as int).skip(1) =~= data@.skip(pos + 1));
        if tag == 1 {
            match CandidateReceipt::decode_from(data, pos + 1) {
                Some((c, e)) => Some((Statement::Candidate(c), e)),
                None => None,
            }
        } else if tag == 2 {
            match <[u8; 32]>::decode_from(data, pos + 1) {
                Some((h, e)) => Some((Statement::Valid(h), e)),
                None => None,
            }
        } else if tag == 3 {
            match <[u8; 32]>::decode_from(data, pos + 1) {
                Some((h, e)) => Some((Statement::Invalid(h), e)),
                None => None,
            }
        } else {
            None
        }
    }
}

/// An implicit or explicit attestation to the validity of a parachain candidate.
#[derive(Clone, Copy, Debug, PartialEq, Eq)]
pub enum ValidityAttestation {
    /// Implicit attestation by issuing a candidate statement.
    Implicit(CollatorSignature),
    /// Explicit attestation by issuing a validity statement.
    Explicit(CollatorSignature),
}

impl DeepView for ValidityAttestation {
    type V = ValidityAttestation;

    open spec fn deep_view(&self) -> ValidityAttestation {
        *self
    }
}

impl Codec for ValidityAttestation {
    open spec fn encodable(&self) -> bool {
        true
    }

    open spec fn spec_encode(v: ValidityAttestation) -> Seq<u8> {
        match v {
            ValidityAttestation::Implicit(sig) => seq![1u8] + sig@,
            ValidityAttestation::Explicit(sig) => seq![2u8] + sig@,
        }
    }

    open spec fn spec_decode(b: Seq<u8>) -> Option<(ValidityAttestation, nat)> {
        if b.len() >= 65 && b[0] == 1 {
            Some((ValidityAttestation::Implicit(array_of(b.subrange(1, 65))), 65))
        } else if b.len() >= 65 && b[0] == 2 {
            Some((ValidityAttestation::Explicit(array_of(b.subrange(1, 65))), 65))
        } else {
            None
        }
    }

    proof fn lemma_round_trip(x: &ValidityAttestation, rest: Seq<u8>) {
        match *x {
            ValidityAttestation::Implicit(sig) => {
                assert((seq![1u8] + sig@ + rest).subrange(1, 65) =~= sig@);
                lemma_array_of(sig);
            },
            ValidityAttestation::Explicit(sig) => {
                assert((seq![2u8] + sig@ + rest).subrange(1, 65) =~= sig@);
                lemma_array_of(sig);
            },
        }
    }

    fn encode_to(&self, out: &mut Vec<u8>) {
        match self {
            ValidityAttestation::Implicit(sig) => {
                out.push(1u8);
                sig.encode_to(out);
                assert(final(out)@ =~= old(out)@ + (seq![1u8] + sig@));
            },
            ValidityAttestation::Explicit(sig) => {
                out.push(2u8);
                sig.encode_to(out);
                assert(final(out)@ =~= old(out)@ + (seq![2u8] + sig@));
            },
        }
    }

    fn decode_from(data: &[u8], pos: usize) -> (r: Option<(ValidityAttestation, usize)>) {
        if pos >= data.len() {
            return None;
        }
        let tag = data[pos];
        if tag != 1 && tag != 2 {
            return None;
        }
        assert(data@.skip(pos as int).skip(1) =~= data@.skip(pos + 1));
        match <[u8; 64]>::decode_from(data, pos + 1) {
            Some((sig, e)) => {
                assert(sig.deep_view() =~= sig@);
                assert(sig@ =~= data@.skip(pos as int).subrange(1, 65));
                proof {
                    lemma_array_of(sig);
                }
                if tag == 1 {
                    Some((ValidityAttestation::Implicit(sig), e))
                } else {
                    Some((ValidityAttestation::Explicit(sig), e))
                }
            },
            None => None,
        }
    }
}

/// A candidate with the validity votes collected for it.
#[derive(Clone, Debug, PartialEq, Eq)]
pub struct AttestedCandidate {
    /// The candidate.
    pub candidate: CandidateReceipt,
    /// Validity attestations, by validator index.
    pub validity_votes: Vec<(ValidatorIndex, ValidityAttestation)>,
}

impl AttestedCandidate {
    /// The fields of the value, in encoding order.
    pub open spec fn fields(&self) -> (CandidateReceipt, Vec<(ValidatorIndex, ValidityAttestation)>) {
        (self.candidate, self.validity_votes)
    }
}

impl DeepView for AttestedCandidate {
    type V = (<CandidateReceipt as DeepView>::V, <Vec<(ValidatorIndex, ValidityAttestation)> as DeepView>::V);

    open spec fn deep_view(&self) -> Self::V {
        (self.candidate.deep_view(), self.validity_votes.deep_view())
    }
}

impl Codec for AttestedCandidate {
    open spec fn encodable(&self) -> bool {
        self.candidate.encodable() && self.validity_votes.encodable()
    }

    open spec fn spec_encode(v: Self::V) -> Seq<u8> {
        <(CandidateReceipt, Vec<(ValidatorIndex, ValidityAttestation)>)>::spec_encode(v)
    }

    open spec fn spec_decode(b: Seq<u8>) -> Option<(Self::V, nat)> {
        <(CandidateReceipt, Vec<(ValidatorIndex, ValidityAttestation)>)>::spec_decode(b)
    }

    proof fn lemma_round_trip(x: &AttestedCandidate, rest: Seq<u8>) {
        <(CandidateReceipt, Vec<(ValidatorIndex, ValidityAttestation)>)>::lemma_round_trip(&x.fields(), rest);
    }

    fn encode_to(&self, out: &mut Vec<u8>) {
        self.candidate.encode_to(out);
        self.validity_votes.encode_to(out);
        assert(final(out)@ =~= old(out)@ + Self::spec_encode(self.deep_view()));
    }

    fn decode_from(data: &[u8], pos: usize) -> (r: Option<(AttestedCandidate, usize)>) {
        match <(CandidateReceipt, Vec<(ValidatorIndex, ValidityAttestation)>)>::decode_from(data, pos) {
            Some(((f0, f1), e)) => Some((AttestedCandidate { candidate: f0, validity_votes: f1 }, e)),
            None => None,
        }
    }
}

/// Why a candidate is rejected.
#[derive(Clone, Copy, Debug, PartialEq, Eq, Structural)]
pub enum CandidateError {
    /// Outgoing messages or egress queue roots are not in ascending order of
    /// parachain.
    OrderingViolation,
    /// The collator's signature does not verify.
    BadSignature,
    /// The receipt's block-data digest is not the digest of the block data.
    BlockDataMismatch,
}

/// A signature that fails verification.
#[derive(Clone, Copy, Debug, PartialEq, Eq, Structural)]
pub struct SignatureError;

/// Why the votes of an attested candidate are refused.
#[derive(Clone, Copy, Debug, PartialEq, Eq, Structural)]
pub enum AttestationError {
    /// A vote names a validator index outside the roster.
    ValidatorOutOfRange(ValidatorIndex),
    /// A vote comes from a validator whose duty is another chain.
    NotAssigned(ValidatorIndex),
}

/// Whether each key is at most the next one.
pub open spec fn non_decreasing(s: Seq<u32>) -> bool {
    forall|i: int| 0 <= i < s.len() - 1 ==> #[trigger] s[i] <= s[i + 1]
}

/// The targets of the messages, in order.
pub open spec fn message_targets(m: Seq<OutgoingMessage>) -> Seq<u32> {
    m.map_values(|x: OutgoingMessage| x.target.0)
}

/// The parachains of the roots, in order.
pub open spec fn root_ids(r: Seq<(Id, H256)>) -> Seq<u32> {
    r.map_values(|x: (Id, H256)| x.0.0)
}

/// Keys where each is at most the next are in order as a whole: any key is at
/// most every key after it.
pub proof fn lemma_non_decreasing_ordered(s: Seq<u32>)
    requires
        non_decreasing(s),
    ensures
        forall|i: int, j: int| 0 <= i <= j < s.len() ==> s[i] <= s[j],
{
    assert forall|i: int, j: int| 0 <= i <= j < s.len() implies s[i] <= s[j] by {
        lemma_ordered_from(s, i, j);
    }
}

proof fn lemma_ordered_from(s: Seq<u32>, i: int, j: int)
    requires
        non_decreasing(s),
        0 <= i <= j < s.len(),
    ensures
        s[i] <= s[j],
    decreases j - i,
{
    if i < j {
        lemma_ordered_from(s, i, j - 1);
        assert(s[j - 1] <= s[j]);
    }
}

/// In an extrinsic that passes its ordering check, every message's target is
/// at most the target of every later message.
pub proof fn lemma_valid_extrinsic_ordered(e: &Extrinsic)
    requires
        non_decreasing(message_targets(e.outgoing_messages@)),
    ensures
        forall|i: int, j: int|
            0 <= i <= j < e.outgoing_messages@.len() ==> e.outgoing_messages@[i].target.0
                <= e.outgoing_messages@[j].target.0,
{
    let t = message_targets(e.outgoing_messages@);
    lemma_non_decreasing_ordered(t);
    assert forall|i: int, j: int|
        0 <= i <= j < e.outgoing_messages@.len() implies e.outgoing_messages@[i].target.0
        <= e.outgoing_messages@[j].target.0 by {
        assert(t[i] <= t[j]);
    }
}

/// In a receipt whose egress queue roots pass their ordering check, every
/// root's parachain is at most the parachain of every later root.
pub proof fn lemma_valid_receipt_roots_ordered(r: &CandidateReceipt)
    requires
        non_decreasing(root_ids(r.egress_queue_roots@)),
    ensures
        forall|i: int, j: int|
            0 <= i <= j < r.egress_queue_roots@.len() ==> r.egress_queue_roots@[i].0.0
                <= r.egress_queue_roots@[j].0.0,
{
    let t = root_ids(r.egress_queue_roots@);
    lemma_non_decreasing_ordered(t);
    assert forall|i: int, j: int|
        0 <= i <= j < r.egress_queue_roots@.len() implies r.egress_queue_roots@[i].0.0
        <= r.egress_queue_roots@[j].0.0 by {
        assert(t[i] <= t[j]);
    }
}

/// Tests that `keys` is non-decreasing.
fn check_non_decreasing(keys: &Vec<u32>) -> (r: bool)
    ensures
        r == non_decreasing(keys@),
{
    let n = keys.len();
    if n == 0 {
        return true;
    }
    let mut i: usize = 1;
    while i < n
        invariant
            1 <= i <= n,
            n == keys@.len(),
            forall|k: int| 0 <= k < i - 1 ==> #[trigger] keys@[k] <= keys@[k + 1],
        decreases n - i,
    {
        if keys[i - 1] > keys[i] {
            assert(!(keys@[i - 1] <= keys@[(i - 1) + 1]));
            return false;
        }
        i = i + 1;
    }
    true
}

impl Extrinsic {
    /// Checks that the outgoing messages are in ascending order of target
    /// (equal targets may follow each other).
    pub fn check_ordering(&self) -> (r: Result<(), CandidateError>)
        ensures
            r is Ok <==> non_decreasing(message_targets(self.outgoing_messages@)),
            r matches Err(e) ==> e == CandidateError::OrderingViolation,
    {
        let mut keys: Vec<u32> = Vec::new();
        let mut i: usize = 0;
        while i < self.outgoing_messages.len()
            invariant
                0 <= i <= self.outgoing_messages@.len(),
                keys@ == message_targets(self.outgoing_messages@).take(i as int),
            decreases self.outgoing_messages@.len() - i,
        {
            keys.push(self.outgoing_messages[i].target.0);
            assert(keys@ =~= message_targets(self.outgoing_messages@).take(i + 1));
            i = i + 1;
        }
        assert(keys@ =~= message_targets(self.outgoing_messages@));
        if check_non_decreasing(&keys) {
            Ok(())
        } else {
            Err(CandidateError::OrderingViolation)
        }
    }
}

impl CandidateReceipt {
    /// The BLAKE2b-256 digest of the receipt's encoding: the candidate's
    /// identifier, and the message validators sign about it.
    pub fn hash(&self) -> (r: H256)
        ensures
            r@ == blake2_256_of(CandidateReceipt::spec_encode(self.deep_view())),
    {
        let bytes = crate::codec::encode(self);
        blake2_256(bytes.as_slice())
    }

    /// Checks the collator's signature over the block-data digest.
    pub fn check_signature(&self) -> (r: Result<(), SignatureError>)
        ensures
            r is Ok <==> ed25519_valid(self.signature@, self.block_data_hash@, self.collator@),
    {
        if ed25519_verify(&self.signature, vstd::array::array_as_slice(&self.block_data_hash), &self.collator) {
            Ok(())
        } else {
            Err(SignatureError)
        }
    }

    /// Checks that the egress queue roots are in ascending order of parachain.
    pub fn check_egress_order(&self) -> (r: Result<(), CandidateError>)
        ensures
            r is Ok <==> non_decreasing(root_ids(self.egress_queue_roots@)),
            r matches Err(e) ==> e == CandidateError::OrderingViolation,
    {
        let mut keys: Vec<u32> = Vec::new();
        let mut i: usize = 0;
        while i < self.egress_queue_roots.len()
            invariant
                0 <= i <= self.egress_queue_roots@.len(),
                keys@ == root_ids(self.egress_queue_roots@).take(i as int),
            decreases self.egress_queue_roots@.len() - i,
        {
            keys.push(self.egress_queue_roots[i].0.0);
            assert(keys@ =~= root_ids(self.egress_queue_roots@).take(i + 1));
            i = i + 1;
        }
        assert(keys@ =~= root_ids(self.egress_queue_roots@));
        if check_non_decreasing(&keys) {
            Ok(())
        } else {
            Err(CandidateError::OrderingViolation)
        }
    }

    /// Validates the receipt: the egress queue roots must be ordered, then
    /// the collator's signature must verify.
    pub fn validate(&self) -> (r: Result<(), CandidateError>)
        ensures
            r is Ok <==> non_decreasing(root_ids(self.egress_queue_roots@)) && ed25519_valid(
                self.signature@,
                self.block_data_hash@,
                self.collator@,
            ),
            r == Err::<(), CandidateError>(CandidateError::OrderingViolation) <==> !non_decreasing(
                root_ids(self.egress_queue_roots@),
            ),
            r == Err::<(), CandidateError>(CandidateError::BadSignature) <==> non_decreasing(
                root_ids(self.egress_queue_roots@),
            ) && !ed25519_valid(self.signature@, self.block_data_hash@, self.collator@),
    {
        if self.check_egress_order().is_err() {
            return Err(CandidateError::OrderingViolation);
        }
        match self.check_signature() {
            Ok(()) => Ok(()),
            Err(_) => Err(CandidateError::BadSignature),
        }
    }
}

/// Lexicographic order of byte strings: the first differing byte decides,
/// and a proper prefix comes first.
pub open spec fn lex_cmp(a: Seq<u8>, b: Seq<u8>) -> core::cmp::Ordering
    decreases a.len(),
{
    if a.len() == 0 {
        if b.len() == 0 {
            core::cmp::Ordering::Equal
        } else {
            core::cmp::Ordering::Less
        }
    } else if b.len() == 0 {
        core::cmp::Ordering::Greater
    } else if a[0] < b[0] {
        core::cmp::Ordering::Less
    } else if a[0] > b[0] {
        core::cmp::Ordering::Greater
    } else {
        lex_cmp(a.skip(1), b.skip(1))
    }
}

/// Compares two byte strings lexicographically.
fn compare_bytes(a: &Vec<u8>, b: &Vec<u8>) -> (r: core::cmp::Ordering)
    ensures
        r == lex_cmp(a@, b@),
{
    let mut i: usize = 0;
    assert(a@.skip(0) =~= a@);
    assert(b@.skip(0) =~= b@);
    while i < a.len() && i < b.len()
        invariant
            0 <= i <= a@.len(),
            i <= b@.len(),
            lex_cmp(a@, b@) == lex_cmp(a@.skip(i as int), b@.skip(i as int)),
        decreases a@.len() - i,
    {
        let x = a[i];
        let y = b[i];
        if x < y {
            return core::cmp::Ordering::Less;
        }
        if x > y {
            return core::cmp::Ordering::Greater;
        }
        assert(a@.skip(i as int).skip(1) =~= a@.skip(i + 1));
        assert(b@.skip(i as int).skip(1) =~= b@.skip(i + 1));
        i = i + 1;
    }
    if i < b.len() {
        core::cmp::Ordering::Less
    } else if i < a.len() {
        core::cmp::Ordering::Greater
    } else {
        core::cmp::Ordering::Equal
    }
}

/// The canonical order of receipts: by parachain, then by head data. It
/// orders candidates for iteration and storage and says nothing of validity.
pub open spec fn receipt_order(x: &CandidateReceipt, y: &CandidateReceipt) -> core::cmp::Ordering {
    if x.parachain_index.0 < y.parachain_index.0 {
        core::cmp::Ordering::Less
    } else if x.parachain_index.0 > y.parachain_index.0 {
        core::cmp::Ordering::Greater
    } else {
        lex_cmp(x.head_data.0@, y.head_data.0@)
    }
}

impl CandidateReceipt {
    /// Compares by parachain, then by head data.
    pub fn cmp(&self, other: &CandidateReceipt) -> (r: core::cmp::Ordering)
        ensures
            r == receipt_order(self, other),
    {
        if self.parachain_index.0 < other.parachain_index.0 {
            core::cmp::Ordering::Less
        } else if self.parachain_index.0 > other.parachain_index.0 {
            core::cmp::Ordering::Greater
        } else {
            compare_bytes(&self.head_data.0, &other.head_data.0)
        }
    }
}

impl OutgoingMessage {
    /// Compares messages by target alone.
    pub fn cmp(&self, other: &OutgoingMessage) -> (r: core::cmp::Ordering)
        ensures
            self.target.0 < other.target.0 ==> r == core::cmp::Ordering::Less,
            self.target.0 == other.target.0 ==> r == core::cmp::Ordering::Equal,
            self.target.0 > other.target.0 ==> r == core::cmp::Ordering::Greater,
    {
        if self.target.0 < other.target.0 {
            core::cmp::Ordering::Less
        } else if self.target.0 == other.target.0 {
            core::cmp::Ordering::Equal
        } else {
            core::cmp::Ordering::Greater
        }
    }
}

impl BlockData {
    /// The BLAKE2b-256 digest of the block data.
    pub fn hash(&self) -> (r: H256)
        ensures
            r@ == blake2_256_of(self.0@),
    {
        blake2_256(self.0.as_slice())
    }
}

/// Tests two digests for equality.
fn digest_eq(a: &H256, b: &H256) -> (r: bool)
    ensures
        r == (a@ == b@),
{
    let mut i: usize = 0;
    while i < 32
        invariant
            0 <= i <= 32,
            a@.len() == 32,
            b@.len() == 32,
            forall|k: int| 0 <= k < i ==> a@[k] == b@[k],
        decreases 32 - i,
    {
        if a[i] != b[i] {
            return false;
        }
        i = i + 1;
    }
    assert(a@ =~= b@);
    true
}

impl Collation {
    /// Checks that the receipt's block-data digest is the digest of the block
    /// data carried in the proof of validation.
    pub fn check_block_data(&self) -> (r: Result<(), CandidateError>)
        ensures
            r is Ok <==> self.receipt.block_data_hash@ == blake2_256_of(self.pov.block_data.0@),
            r matches Err(e) ==> e == CandidateError::BlockDataMismatch,
    {
        let digest = self.pov.block_data.hash();
        if digest_eq(&self.receipt.block_data_hash, &digest) {
            Ok(())
        } else {
            Err(CandidateError::BlockDataMismatch)
        }
    }
}

/// Whether the vote of `index` may count for a candidate of `para`: the
/// index is in the roster and its duty is that parachain.
pub open spec fn vote_assigned(roster: Seq<Chain>, index: u32, para: Id) -> bool {
    (index as int) < roster.len() && roster[index as int] == Chain::Parachain(para)
}

impl AttestedCandidate {
    /// The candidate.
    pub fn candidate(&self) -> (r: &CandidateReceipt)
        ensures
            *r == self.candidate,
    {
        &self.candidate
    }

    /// The parachain of the candidate.
    pub fn parachain_index(&self) -> (r: Id)
        ensures
            r == self.candidate.parachain_index,
    {
        self.candidate.parachain_index
    }

    /// Checks that every vote comes from a validator that the roster assigns
    /// to the candidate's parachain; the first vote that does not is reported.
    pub fn check_votes(&self, roster: &DutyRoster) -> (r: Result<(), AttestationError>)
        ensures
            r is Ok <==> forall|i: int|
                0 <= i < self.validity_votes@.len() ==> vote_assigned(
                    roster.validator_duty@,
                    #[trigger] self.validity_votes@[i].0,
                    self.candidate.parachain_index,
                ),
            r matches Err(AttestationError::ValidatorOutOfRange(idx)) ==> exists|i: int|
                0 <= i < self.validity_votes@.len() && #[trigger] self.validity_votes@[i].0 == idx
                    && idx >= roster.validator_duty@.len(),
            r matches Err(AttestationError::NotAssigned(idx)) ==> exists|i: int|
                0 <= i < self.validity_votes@.len() && #[trigger] self.validity_votes@[i].0 == idx
                    && idx < roster.validator_duty@.len() && !vote_assigned(
                    roster.validator_duty@,
                    idx,
                    self.candidate.parachain_index,
                ),
    {
        let para = self.candidate.parachain_index;
        let n = roster.validator_duty.len();
        let mut i: usize = 0;
        while i < self.validity_votes.len()
            invariant
                0 <= i <= self.validity_votes@.len(),
                n == roster.validator_duty@.len(),
                para == self.candidate.parachain_index,
                forall|k: int|
                    0 <= k < i ==> vote_assigned(
                        roster.validator_duty@,
                        #[trigger] self.validity_votes@[k].0,
                        para,
                    ),
            decreases self.validity_votes@.len() - i,
        {
            let idx = self.validity_votes[i].0;
            if idx as usize >= n {
                return Err(AttestationError::ValidatorOutOfRange(idx));
            }
            let assigned = match roster.validator_duty[idx as usize] {
                Chain::Parachain(p) => p.0 == para.0,
                Chain::Relay => false,
            };
            if !assigned {
                return Err(AttestationError::NotAssigned(idx));
            }
            i = i + 1;
        }
        Ok(())
    }
}

impl From<Vec<(Id, H256)>> for ConsolidatedIngressRoots {
    fn from(v: Vec<(Id, H256)>) -> (r: ConsolidatedIngressRoots)
        ensures
            r == ConsolidatedIngressRoots(v),
    {
        ConsolidatedIngressRoots(v)
    }
}

impl vstd::std_specs::convert::FromSpecImpl<Vec<(Id, H256)>> for ConsolidatedIngressRoots {
    open spec fn obeys_from_spec() -> bool {
        true
    }

    open spec fn from_spec(v: Vec<(Id, H256)>) -> ConsolidatedIngressRoots {
        ConsolidatedIngressRoots(v)
    }
}

/// Identifier of the parachain host runtime API ("parahost").
pub const PARACHAIN_HOST: [u8; 8] = [112, 97, 114, 97, 104, 111, 115, 116];

/// Parachain header raw bytes.
#[derive(Clone, Debug, PartialEq, Eq)]
pub struct Header(pub Vec<u8>);

/// Parachain validation code.
#[derive(Clone, Debug, PartialEq, Eq)]
pub struct ValidationCode(pub Vec<u8>);

/// Queries that chain state answers about parachains at a given block.
pub trait ParachainHost {
    /// The current validators.
    fn validators(&self) -> Vec<ValidatorId>;

    /// The current duty roster.
    fn duty_roster(&self) -> DutyRoster;

    /// The currently active parachains.
    fn active_parachains(&self) -> Vec<Id>;

    /// The head data of a parachain, if it is active.
    fn parachain_head(&self, id: Id) -> Option<Vec<u8>>;

    /// The validation code of a parachain, if it is active.
    fn parachain_code(&self, id: Id) -> Option<Vec<u8>>;

    /// The ingress roots routed to a parachain, if it is active.
    fn ingress(&self, to: Id) -> Option<ConsolidatedIngressRoots>;
}

} // verus!
