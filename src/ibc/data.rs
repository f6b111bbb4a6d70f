//! IBC storage layout: the key segments, the keys of client, port and
//! capability state, and the byte layout of the values stored there.
use vstd::prelude::*;
use crate::address::{valid_id, SLASH};
use crate::codec::{
    append_bytes, append_len_prefixed, bytes_eq, decode_u64, encode_u64, len_prefixed,
    read_len_prefixed, slice_bytes, u32_from_le, u64_to_le, lemma_u32_le_bytes,
};
use crate::key::{Key};
use crate::codec::lemma_u64_round_trip;

verus! {

/// "clients"
pub open spec fn clients() -> Seq<u8> {
    seq![99u8, 108u8, 105u8, 101u8, 110u8, 116u8, 115u8]
}

pub fn clients_bytes() -> (r: Vec<u8>)
    ensures
        r@ == clients(),
{
    vec![99u8, 108u8, 105u8, 101u8, 110u8, 116u8, 115u8]
}

/// "connections"
pub open spec fn connections() -> Seq<u8> {
    seq![99u8, 111u8, 110u8, 110u8, 101u8, 99u8, 116u8, 105u8, 111u8, 110u8, 115u8]
}

pub fn connections_bytes() -> (r: Vec<u8>)
    ensures
        r@ == connections(),
{
    vec![99u8, 111u8, 110u8, 110u8, 101u8, 99u8, 116u8, 105u8, 111u8, 110u8, 115u8]
}

/// "channelEnds"
pub open spec fn channel_ends() -> Seq<u8> {
    seq![99u8, 104u8, 97u8, 110u8, 110u8, 101u8, 108u8, 69u8, 110u8, 100u8, 115u8]
}

pub fn channel_ends_bytes() -> (r: Vec<u8>)
    ensures
        r@ == channel_ends(),
{
    vec![99u8, 104u8, 97u8, 110u8, 110u8, 101u8, 108u8, 69u8, 110u8, 100u8, 115u8]
}

/// "ports"
pub open spec fn ports() -> Seq<u8> {
    seq![112u8, 111u8, 114u8, 116u8, 115u8]
}

pub fn ports_bytes() -> (r: Vec<u8>)
    ensures
        r@ == ports(),
{
    vec![112u8, 111u8, 114u8, 116u8, 115u8]
}

/// "capabilities"
pub open spec fn capabilities() -> Seq<u8> {
    seq![99u8, 97u8, 112u8, 97u8, 98u8, 105u8, 108u8, 105u8, 116u8, 105u8, 101u8, 115u8]
}

pub fn capabilities_bytes() -> (r: Vec<u8>)
    ensures
        r@ == capabilities(),
{
    vec![99u8, 97u8, 112u8, 97u8, 98u8, 105u8, 108u8, 105u8, 116u8, 105u8, 101u8, 115u8]
}

/// "nextSequenceSend"
pub open spec fn next_sequence_send() -> Seq<u8> {
    seq![110u8, 101u8, 120u8, 116u8, 83u8, 101u8, 113u8, 117u8, 101u8, 110u8, 99u8, 101u8, 83u8, 101u8, 110u8, 100u8]
}

pub fn next_sequence_send_bytes() -> (r: Vec<u8>)
    ensures
        r@ == next_sequence_send(),
{
    vec![110u8, 101u8, 120u8, 116u8, 83u8, 101u8, 113u8, 117u8, 101u8, 110u8, 99u8, 101u8, 83u8, 101u8, 110u8, 100u8]
}

/// "nextSequenceRecv"
pub open spec fn next_sequence_recv() -> Seq<u8> {
    seq![110u8, 101u8, 120u8, 116u8, 83u8, 101u8, 113u8, 117u8, 101u8, 110u8, 99u8, 101u8, 82u8, 101u8, 99u8, 118u8]
}

pub fn next_sequence_recv_bytes() -> (r: Vec<u8>)
    ensures
        r@ == next_sequence_recv(),
{
    vec![110u8, 101u8, 120u8, 116u8, 83u8, 101u8, 113u8, 117u8, 101u8, 110u8, 99u8, 101u8, 82u8, 101u8, 99u8, 118u8]
}

/// "nextSequenceAck"
pub open spec fn next_sequence_ack() -> Seq<u8> {
    seq![110u8, 101u8, 120u8, 116u8, 83u8, 101u8, 113u8, 117u8, 101u8, 110u8, 99u8, 101u8, 65u8, 99u8, 107u8]
}

pub fn next_sequence_ack_bytes() -> (r: Vec<u8>)
    ensures
        r@ == next_sequence_ack(),
{
    vec![110u8, 101u8, 120u8, 116u8, 83u8, 101u8, 113u8, 117u8, 101u8, 110u8, 99u8, 101u8, 65u8, 99u8, 107u8]
}

/// "commitments"
pub open spec fn commitments() -> Seq<u8> {
    seq![99u8, 111u8, 109u8, 109u8, 105u8, 116u8, 109u8, 101u8, 110u8, 116u8, 115u8]
}

pub fn commitments_bytes() -> (r: Vec<u8>)
    ensures
        r@ == commitments(),
{
    vec![99u8, 111u8, 109u8, 109u8, 105u8, 116u8, 109u8, 101u8, 110u8, 116u8, 115u8]
}

/// "receipts"
pub open spec fn receipts() -> Seq<u8> {
    seq![114u8, 101u8, 99u8, 101u8, 105u8, 112u8, 116u8, 115u8]
}

pub fn receipts_bytes() -> (r: Vec<u8>)
    ensures
        r@ == receipts(),
{
    vec![114u8, 101u8, 99u8, 101u8, 105u8, 112u8, 116u8, 115u8]
}

/// "acks"
pub open spec fn acks() -> Seq<u8> {
    seq![97u8, 99u8, 107u8, 115u8]
}

pub fn acks_bytes() -> (r: Vec<u8>)
    ensures
        r@ == acks(),
{
    vec![97u8, 99u8, 107u8, 115u8]
}

/// "counter"
pub open spec fn counter() -> Seq<u8> {
    seq![99u8, 111u8, 117u8, 110u8, 116u8, 101u8, 114u8]
}

pub fn counter_bytes() -> (r: Vec<u8>)
    ensures
        r@ == counter(),
{
    vec![99u8, 111u8, 117u8, 110u8, 116u8, 101u8, 114u8]
}

/// "index"
pub open spec fn index() -> Seq<u8> {
    seq![105u8, 110u8, 100u8, 101u8, 120u8]
}

pub fn index_bytes() -> (r: Vec<u8>)
    ensures
        r@ == index(),
{
    vec![105u8, 110u8, 100u8, 101u8, 120u8]
}

/// "clientType"
pub open spec fn client_type_seg() -> Seq<u8> {
    seq![99u8, 108u8, 105u8, 101u8, 110u8, 116u8, 84u8, 121u8, 112u8, 101u8]
}

pub fn client_type_seg_bytes() -> (r: Vec<u8>)
    ensures
        r@ == client_type_seg(),
{
    vec![99u8, 108u8, 105u8, 101u8, 110u8, 116u8, 84u8, 121u8, 112u8, 101u8]
}

/// "clientState"
pub open spec fn client_state_seg() -> Seq<u8> {
    seq![99u8, 108u8, 105u8, 101u8, 110u8, 116u8, 83u8, 116u8, 97u8, 116u8, 101u8]
}

pub fn client_state_seg_bytes() -> (r: Vec<u8>)
    ensures
        r@ == client_state_seg(),
{
    vec![99u8, 108u8, 105u8, 101u8, 110u8, 116u8, 83u8, 116u8, 97u8, 116u8, 101u8]
}

/// "consensusStates"
pub open spec fn consensus_states_seg() -> Seq<u8> {
    seq![99u8, 111u8, 110u8, 115u8, 101u8, 110u8, 115u8, 117u8, 115u8, 83u8, 116u8, 97u8, 116u8, 101u8, 115u8]
}

pub fn consensus_states_seg_bytes() -> (r: Vec<u8>)
    ensures
        r@ == consensus_states_seg(),
{
    vec![99u8, 111u8, 110u8, 115u8, 101u8, 110u8, 115u8, 117u8, 115u8, 83u8, 116u8, 97u8, 116u8, 101u8, 115u8]
}

/// "#IBC"
pub open spec fn ibc_seg() -> Seq<u8> {
    seq![35u8, 73u8, 66u8, 67u8]
}

pub fn ibc_seg_bytes() -> (r: Vec<u8>)
    ensures
        r@ == ibc_seg(),
{
    vec![35u8, 73u8, 66u8, 67u8]
}

/// "mock"
pub open spec fn mock_type() -> Seq<u8> {
    seq![109u8, 111u8, 99u8, 107u8]
}

pub fn mock_type_bytes() -> (r: Vec<u8>)
    ensures
        r@ == mock_type(),
{
    vec![109u8, 111u8, 99u8, 107u8]
}

/// "07-tendermint"
pub open spec fn tendermint_type() -> Seq<u8> {
    seq![48u8, 55u8, 45u8, 116u8, 101u8, 110u8, 100u8, 101u8, 114u8, 109u8, 105u8, 110u8, 116u8]
}

pub fn tendermint_type_bytes() -> (r: Vec<u8>)
    ensures
        r@ == tendermint_type(),
{
    vec![48u8, 55u8, 45u8, 116u8, 101u8, 110u8, 100u8, 101u8, 114u8, 109u8, 105u8, 110u8, 116u8]
}

/// The kind of light client that tracks a counterparty chain.
#[derive(Debug, Clone, Copy, PartialEq, Eq, Structural)]
pub enum ClientType {
    Mock,
    Tendermint,
}

/// A height of a counterparty chain.
#[derive(Debug, Clone, Copy, PartialEq, Eq, Structural)]
pub struct Height {
    pub revision_number: u64,
    pub revision_height: u64,
}

/// What the IBC validity predicate reads of a client state.
#[derive(Debug, Clone, Copy, PartialEq, Eq, Structural)]
pub struct ClientState {
    pub client_type: ClientType,
    pub latest_height: Height,
}

/// What the IBC validity predicate reads of a consensus state: the type of
/// its client and the height of the header it was built from.
#[derive(Debug, Clone, Copy, PartialEq, Eq, Structural)]
pub struct ConsensusState {
    pub client_type: ClientType,
    pub height: Height,
}

/// A header of a counterparty chain.
#[derive(Debug, Clone, Copy, PartialEq, Eq, Structural)]
pub struct Header {
    pub client_type: ClientType,
    pub height: Height,
}

/// Whether height `a` is below height `b`.
pub open spec fn height_lt(a: Height, b: Height) -> bool {
    a.revision_number < b.revision_number || (a.revision_number == b.revision_number
        && a.revision_height < b.revision_height)
}

/// The text of a client type.
pub open spec fn client_type_text(t: ClientType) -> Seq<u8> {
    match t {
        ClientType::Mock => mock_type(),
        ClientType::Tendermint => tendermint_type(),
    }
}

/// The stored form of a client type: its text preceded by its length.
pub open spec fn client_type_encoding(t: ClientType) -> Seq<u8> {
    len_prefixed(client_type_text(t))
}

/// The stored form of a client state, a consensus state or a header: the
/// client type text preceded by its length, then the revision number and the
/// revision height as eight little-endian bytes each.
pub open spec fn state_encoding(t: ClientType, h: Height) -> Seq<u8> {
    client_type_encoding(t) + u64_to_le(h.revision_number) + u64_to_le(h.revision_height)
}

/// The decimal digits of `n`.
pub open spec fn dec(n: nat) -> Seq<u8>
    decreases n,
{
    if n < 10 {
        seq![(48 + n) as u8]
    } else {
        dec(n / 10).push((48 + n % 10) as u8)
    }
}

pub proof fn lemma_dec_valid(n: nat)
    ensures
        valid_id(dec(n)),
        dec(n).len() >= 1,
    decreases n,
{
    if n >= 10 {
        lemma_dec_valid(n / 10);
        assert forall|i: int| 0 <= i < dec(n).len() implies dec(n)[i] != SLASH by {
            if i < dec(n).len() - 1 {
                assert(dec(n)[i] == dec(n / 10)[i]);
            }
        }
    }
}

/// The decimal digits of `n`.
pub fn decimal(n: u64) -> (r: Vec<u8>)
    ensures
        r@ == dec(n as nat),
        valid_id(r@),
    decreases n,
{
    proof {
        lemma_dec_valid(n as nat);
    }
    if n < 10 {
        vec![(48 + n) as u8]
    } else {
        let mut r = decimal(n / 10);
        r.push((48 + n % 10) as u8);
        r
    }
}

/// The value of a string of decimal digits.
pub open spec fn dec_value(s: Seq<u8>) -> int
    decreases s.len(),
{
    if s.len() == 0 {
        0
    } else {
        dec_value(s.drop_last()) * 10 + (s.last() - 48)
    }
}

/// The digits of `n` are digits, their value is `n`, and no prefix of them
/// has a larger value.
pub proof fn lemma_dec_value(n: nat)
    ensures
        dec_value(dec(n)) == n,
        forall|i: int| 0 <= i < dec(n).len() ==> 48 <= #[trigger] dec(n)[i] <= 57,
        forall|k: int| 1 <= k <= dec(n).len() ==> #[trigger] dec_value(dec(n).take(k)) <= n,
    decreases n,
{
    if n >= 10 {
        lemma_dec_value(n / 10);
        let d = dec(n);
        let p = dec(n / 10);
        assert(d.drop_last() =~= p);
        assert(d.last() == (48 + n % 10) as u8);
        assert(dec_value(d) == dec_value(p) * 10 + (n % 10));
        assert((n / 10) * 10 + n % 10 == n);
        assert forall|i: int| 0 <= i < d.len() implies 48 <= #[trigger] d[i] <= 57 by {
            if i < p.len() {
                assert(d[i] == p[i]);
            }
        }
        assert forall|k: int| 1 <= k <= d.len() implies #[trigger] dec_value(d.take(k)) <= n by {
            if k < d.len() {
                assert(d.take(k) =~= p.take(k));
            } else {
                assert(d.take(k) =~= d);
            }
        }
    } else {
        assert(dec(n).take(1) =~= dec(n));
        assert(dec(n).drop_last() =~= Seq::<u8>::empty());
        assert(dec_value(dec(n)) == dec_value(Seq::<u8>::empty()) * 10 + (dec(n).last() - 48));
    }
}

/// The integer whose decimal digits `s` is, without leading zeros.
pub fn parse_decimal(s: &[u8]) -> (r: Option<u64>)
    ensures
        r matches Some(n) ==> dec(n as nat) == s@,
        forall|n: u64| #[trigger] dec(n as nat) == s@ ==> r == Some(n),
{
    if s.len() == 0 {
        proof {
            assert forall|n: u64| #[trigger] dec(n as nat) == s@ implies false by {
                lemma_dec_valid(n as nat);
            }
        }
        return None;
    }
    let mut v: u64 = 0;
    let mut i: usize = 0;
    while i < s.len()
        invariant
            0 <= i <= s@.len(),
            v == dec_value(s@.take(i as int)),
        decreases s@.len() - i,
    {
        let c = s[i];
        assert(s@.take(i + 1).drop_last() =~= s@.take(i as int));
        if c < 48 || c > 57 {
            proof {
                assert forall|n: u64| #[trigger] dec(n as nat) == s@ implies false by {
                    lemma_dec_value(n as nat);
                    assert(48 <= dec(n as nat)[i as int] <= 57);
                }
            }
            return None;
        }
        let d = (c - 48) as u64;
        if v > (u64::MAX - d) / 10 {
            proof {
                assert(v * 10 + d > u64::MAX) by (nonlinear_arith)
                    requires
                        v > (u64::MAX - d) / 10,
                        d <= 9,
                ;
                assert forall|n: u64| #[trigger] dec(n as nat) == s@ implies false by {
                    lemma_dec_value(n as nat);
                    assert(dec_value(s@.take(i + 1)) <= n);
                }
            }
            return None;
        }
        assert(v * 10 + d <= u64::MAX) by (nonlinear_arith)
            requires
                v <= (u64::MAX - d) / 10,
                d <= 9,
        ;
        v = v * 10 + d;
        i = i + 1;
    }
    assert(s@.take(s@.len() as int) =~= s@);
    let t = decimal(v);
    proof {
        assert forall|n: u64| #[trigger] dec(n as nat) == s@ implies n == v by {
            lemma_dec_value(n as nat);
        }
    }
    if bytes_eq(t.as_slice(), s) {
        Some(v)
    } else {
        None
    }
}

/// "-": separates the revision number from the revision height in the key
/// of a consensus state.
pub open spec fn height_seg(h: Height) -> Seq<u8> {
    dec(h.revision_number as nat) + seq![45u8] + dec(h.revision_height as nat)
}

/// The IBC key with the given segments after `#IBC`.
pub open spec fn ibc_key(segs: Seq<Seq<u8>>) -> Seq<Seq<u8>> {
    seq![ibc_seg()] + segs
}

pub open spec fn client_counter_key() -> Seq<Seq<u8>> {
    ibc_key(seq![clients(), counter()])
}

pub open spec fn client_type_key(id: Seq<u8>) -> Seq<Seq<u8>> {
    ibc_key(seq![clients(), id, client_type_seg()])
}

pub open spec fn client_state_key(id: Seq<u8>) -> Seq<Seq<u8>> {
    ibc_key(seq![clients(), id, client_state_seg()])
}

pub open spec fn consensus_state_key(id: Seq<u8>, h: Height) -> Seq<Seq<u8>> {
    ibc_key(seq![clients(), id, consensus_states_seg(), height_seg(h)])
}

pub open spec fn port_key(port: Seq<u8>) -> Seq<Seq<u8>> {
    ibc_key(seq![ports(), port])
}

pub open spec fn capability_key(index: u64) -> Seq<Seq<u8>> {
    ibc_key(seq![capabilities(), dec(index as nat)])
}

pub open spec fn capability_index_key() -> Seq<Seq<u8>> {
    ibc_key(seq![capabilities(), index()])
}

/// Build a key from segments that are each valid.
fn key_of(segs: Vec<Vec<u8>>) -> (r: Key)
    requires
        segs@.len() >= 1,
        forall|i: int| 0 <= i < segs@.len() ==> valid_id(#[trigger] segs@[i]@),
    ensures
        r@ == segs@.map_values(|v: Vec<u8>| v@),
        r.wf(),
{
    let r = Key { segments: segs };
    assert forall|i: int| 0 <= i < r@.len() implies #[trigger] valid_id(r@[i]) by {
        assert(r@[i] == segs@[i]@);
    }
    r
}

/// The key of the client counter.
pub fn make_client_counter_key() -> (r: Key)
    ensures
        r@ == client_counter_key(),
        r.wf(),
{
    let segs: Vec<Vec<u8>> = vec![ibc_seg_bytes(), clients_bytes(), counter_bytes()];
    assert(valid_id(ibc_seg()) && valid_id(clients()) && valid_id(counter()));
    let r = key_of(segs);
    assert(r@ =~= client_counter_key());
    r
}

/// The key of the connection counter.
pub fn make_connection_counter_key() -> (r: Key)
    ensures
        r@ == ibc_key(seq![connections(), counter()]),
        r.wf(),
{
    let segs: Vec<Vec<u8>> = vec![ibc_seg_bytes(), connections_bytes(), counter_bytes()];
    assert(valid_id(ibc_seg()) && valid_id(connections()) && valid_id(counter()));
    let r = key_of(segs);
    assert(r@ =~= ibc_key(seq![connections(), counter()]));
    r
}

/// The key of the channel counter.
pub fn make_channel_counter_key() -> (r: Key)
    ensures
        r@ == ibc_key(seq![channel_ends(), counter()]),
        r.wf(),
{
    let segs: Vec<Vec<u8>> = vec![ibc_seg_bytes(), channel_ends_bytes(), counter_bytes()];
    assert(valid_id(ibc_seg()) && valid_id(channel_ends()) && valid_id(counter()));
    let r = key_of(segs);
    assert(r@ =~= ibc_key(seq![channel_ends(), counter()]));
    r
}

/// The key of the capability index counter.
pub fn make_capability_index_key() -> (r: Key)
    ensures
        r@ == capability_index_key(),
        r.wf(),
{
    let segs: Vec<Vec<u8>> = vec![ibc_seg_bytes(), capabilities_bytes(), index_bytes()];
    assert(valid_id(ibc_seg()) && valid_id(capabilities()) && valid_id(index()));
    let r = key_of(segs);
    assert(r@ =~= capability_index_key());
    r
}

/// The key of the type of client `id`.
pub fn make_client_type_key(id: &[u8]) -> (r: Key)
    requires
        valid_id(id@),
    ensures
        r@ == client_type_key(id@),
        r.wf(),
{
    let segs: Vec<Vec<u8>> = vec![ibc_seg_bytes(), clients_bytes(), slice_bytes(id, 0, id.len()), client_type_seg_bytes()];
    assert(id@.subrange(0, id@.len() as int) =~= id@);
    assert(valid_id(ibc_seg()) && valid_id(clients()) && valid_id(client_type_seg()));
    let r = key_of(segs);
    assert(r@ =~= client_type_key(id@));
    r
}

/// The key of the state of client `id`.
pub fn make_client_state_key(id: &[u8]) -> (r: Key)
    requires
        valid_id(id@),
    ensures
        r@ == client_state_key(id@),
        r.wf(),
{
    let segs: Vec<Vec<u8>> = vec![ibc_seg_bytes(), clients_bytes(), slice_bytes(id, 0, id.len()), client_state_seg_bytes()];
    assert(id@.subrange(0, id@.len() as int) =~= id@);
    assert(valid_id(ibc_seg()) && valid_id(clients()) && valid_id(client_state_seg()));
    let r = key_of(segs);
    assert(r@ =~= client_state_key(id@));
    r
}

/// The key of the consensus state of client `id` at height `h`.
pub fn make_consensus_state_key(id: &[u8], h: Height) -> (r: Key)
    requires
        valid_id(id@),
    ensures
        r@ == consensus_state_key(id@, h),
        r.wf(),
{
    let mut hs = decimal(h.revision_number);
    hs.push(45u8);
    let tail = decimal(h.revision_height);
    append_bytes(&mut hs, tail.as_slice());
    assert(hs@ =~= height_seg(h));
    proof {
        lemma_dec_valid(h.revision_number as nat);
        lemma_dec_valid(h.revision_height as nat);
        assert forall|i: int| 0 <= i < hs@.len() implies hs@[i] != SLASH by {
            let a = dec(h.revision_number as nat);
            if i < a.len() {
                assert(hs@[i] == a[i]);
            } else if i > a.len() {
                assert(hs@[i] == dec(h.revision_height as nat)[i - a.len() - 1]);
            }
        }
    }
    let segs: Vec<Vec<u8>> = vec![ibc_seg_bytes(), clients_bytes(), slice_bytes(id, 0, id.len()), consensus_states_seg_bytes(), hs];
    assert(id@.subrange(0, id@.len() as int) =~= id@);
    assert(valid_id(ibc_seg()) && valid_id(clients()) && valid_id(consensus_states_seg()));
    let r = key_of(segs);
    assert(r@ =~= consensus_state_key(id@, h));
    r
}

/// The key of port `port`.
pub fn make_port_key(port: &[u8]) -> (r: Key)
    requires
        valid_id(port@),
    ensures
        r@ == port_key(port@),
        r.wf(),
{
    let segs: Vec<Vec<u8>> = vec![ibc_seg_bytes(), ports_bytes(), slice_bytes(port, 0, port.len())];
    assert(port@.subrange(0, port@.len() as int) =~= port@);
    assert(valid_id(ibc_seg()) && valid_id(ports()));
    let r = key_of(segs);
    assert(r@ =~= port_key(port@));
    r
}

/// The key of capability `index`.
pub fn make_capability_key(index: u64) -> (r: Key)
    ensures
        r@ == capability_key(index),
        r.wf(),
{
    let segs: Vec<Vec<u8>> = vec![ibc_seg_bytes(), capabilities_bytes(), decimal(index)];
    assert(valid_id(ibc_seg()) && valid_id(capabilities()));
    let r = key_of(segs);
    assert(r@ =~= capability_key(index));
    r
}

/// The first byte of a stored client type tells the type.
pub proof fn lemma_client_type_first_byte(t: ClientType)
    ensures
        client_type_encoding(t).len() >= 4,
        client_type_encoding(t)[0] == if t == ClientType::Mock { 4u8 } else { 13u8 },
{
    assert((4u32 & 0xffu32) as u8 == 4u8) by (bit_vector);
    assert((13u32 & 0xffu32) as u8 == 13u8) by (bit_vector);
    match t {
        ClientType::Mock => {
            assert(client_type_text(t).len() == 4);
        },
        ClientType::Tendermint => {
            assert(client_type_text(t).len() == 13);
        },
    }
}

/// Equal stored states have equal client types and heights.
pub proof fn lemma_state_encoding_injective(a: ClientType, h: Height, b: ClientType, g: Height)
    requires
        state_encoding(a, h) == state_encoding(b, g),
    ensures
        a == b,
        h == g,
{
    lemma_client_type_first_byte(a);
    lemma_client_type_first_byte(b);
    assert(state_encoding(a, h)[0] == client_type_encoding(a)[0]);
    assert(state_encoding(b, g)[0] == client_type_encoding(b)[0]);
    let n: int = client_type_encoding(a).len() as int;
    let e = state_encoding(a, h);
    assert(e.subrange(n, n + 8) =~= u64_to_le(h.revision_number));
    assert(e.subrange(n + 8, n + 16) =~= u64_to_le(h.revision_height));
    assert(state_encoding(b, g).subrange(n, n + 8) =~= u64_to_le(g.revision_number));
    assert(state_encoding(b, g).subrange(n + 8, n + 16) =~= u64_to_le(g.revision_height));
    lemma_u64_round_trip(h.revision_number);
    lemma_u64_round_trip(h.revision_height);
    lemma_u64_round_trip(g.revision_number);
    lemma_u64_round_trip(g.revision_height);
}

/// The parts of a length-prefixed byte string.
pub proof fn lemma_len_prefixed_parts(s: Seq<u8>)
    requires
        s.len() <= u32::MAX,
    ensures
        len_prefixed(s).len() == 4 + s.len(),
        u32_from_le(len_prefixed(s).subrange(0, 4)) == s.len(),
        len_prefixed(s).subrange(4, 4 + s.len() as int) == s,
{
    let b = len_prefixed(s);
    assert(b.subrange(0, 4) =~= crate::codec::u32_to_le(s.len() as u32));
    crate::codec::lemma_u32_round_trip(s.len() as u32);
    assert(b.subrange(4, 4 + s.len() as int) =~= s);
}

/// Two client types with equal stored forms are equal.
pub proof fn lemma_client_type_injective(a: ClientType, b: ClientType)
    requires
        client_type_encoding(a) == client_type_encoding(b),
    ensures
        a == b,
{
    lemma_client_type_first_byte(a);
    lemma_client_type_first_byte(b);
}

/// A byte string stored with its length in front, as strings are stored.
pub fn decode_string(b: &[u8]) -> (r: Option<Vec<u8>>)
    ensures
        r matches Some(s) ==> len_prefixed(s@) == b@ && s@.len() <= u32::MAX,
        b@.len() >= 4 && b@.len() == 4 + u32_from_le(b@.subrange(0, 4)) ==> r is Some,
{
    match read_len_prefixed(b, 0) {
        Some((s, end)) => {
            if end != b.len() {
                return None;
            }
            proof {
                lemma_u32_le_bytes(b@.subrange(0, 4));
                assert(b@ =~= b@.subrange(0, 4) + b@.subrange(4, end as int));
            }
            Some(s)
        },
        None => None,
    }
}

/// Store a byte string with its length in front.
pub fn encode_string(s: &[u8]) -> (r: Vec<u8>)
    requires
        s@.len() <= u32::MAX,
    ensures
        r@ == len_prefixed(s@),
{
    let mut r: Vec<u8> = Vec::new();
    append_len_prefixed(&mut r, s);
    assert(r@ =~= len_prefixed(s@));
    r
}

/// The client type that `text` names.
pub fn parse_client_type(text: &[u8]) -> (r: Option<ClientType>)
    ensures
        r matches Some(t) ==> client_type_text(t) == text@,
        (text@ == mock_type() || text@ == tendermint_type()) ==> r is Some,
{
    let m = mock_type_bytes();
    if bytes_eq(text, m.as_slice()) {
        return Some(ClientType::Mock);
    }
    let t = tendermint_type_bytes();
    if bytes_eq(text, t.as_slice()) {
        return Some(ClientType::Tendermint);
    }
    None
}

/// The text of a client type.
pub fn client_type_bytes(t: ClientType) -> (r: Vec<u8>)
    ensures
        r@ == client_type_text(t),
{
    match t {
        ClientType::Mock => mock_type_bytes(),
        ClientType::Tendermint => tendermint_type_bytes(),
    }
}

/// Decode a stored client type.
pub fn decode_client_type(b: &[u8]) -> (r: Option<ClientType>)
    ensures
        r matches Some(t) ==> client_type_encoding(t) == b@,
        forall|t: ClientType| #[trigger] client_type_encoding(t) == b@ ==> r == Some(t),
{
    proof {
        assert forall|t: ClientType| #[trigger] client_type_encoding(t) == b@ implies b@.len() >= 4 && b@.len() == 4
            + u32_from_le(b@.subrange(0, 4)) by {
            lemma_len_prefixed_parts(client_type_text(t));
        }
    }
    match decode_string(b) {
        Some(s) => {
            proof {
                assert forall|t: ClientType| #[trigger] client_type_encoding(t) == b@ implies s@ == client_type_text(t) by {
                    lemma_len_prefixed_parts(client_type_text(t));
                    lemma_len_prefixed_parts(s@);
                }
            }
            let r = parse_client_type(s.as_slice());
            proof {
                assert forall|t: ClientType| #[trigger] client_type_encoding(t) == b@ implies r == Some(t) by {
                    lemma_client_type_injective(t, r->0);
                }
            }
            r
        },
        None => None,
    }
}

/// The parts of a stored state: the length of the type text, the text, and
/// sixteen bytes of height.
pub proof fn lemma_state_encoding_parts(t: ClientType, h: Height)
    ensures
        ({
            let b = state_encoding(t, h);
            &&& b.len() >= 4
            &&& 4 + u32_from_le(b.subrange(0, 4)) + 16 == b.len()
            &&& b.subrange(4, 4 + client_type_text(t).len() as int) == client_type_text(t)
        }),
{
    let b = state_encoding(t, h);
    lemma_len_prefixed_parts(client_type_text(t));
    assert(b.subrange(0, 4) =~= client_type_encoding(t).subrange(0, 4));
    assert(b.subrange(4, 4 + client_type_text(t).len() as int) =~= client_type_encoding(t).subrange(
        4,
        4 + client_type_text(t).len() as int,
    ));
}

/// Decode a stored client state, consensus state or header.
#[verifier::rlimit(100)]
pub fn decode_state(b: &[u8]) -> (r: Option<(ClientType, Height)>)
    ensures
        r matches Some((t, h)) ==> state_encoding(t, h) == b@,
        forall|t: ClientType, h: Height| #[trigger] state_encoding(t, h) == b@ ==> r == Some((t, h)),
{
    proof {
        assert forall|t: ClientType, h: Height| #[trigger] state_encoding(t, h) == b@ implies b@.len() >= 4 && 4
            + u32_from_le(b@.subrange(0, 4)) + 16 == b@.len() && b@.subrange(4, 4 + client_type_text(t).len() as int)
            == client_type_text(t) by {
            lemma_state_encoding_parts(t, h);
        }
    }
    match read_len_prefixed(b, 0) {
        Some((text, end)) => {
            if b.len() - end != 16 {
                return None;
            }
            let t = match parse_client_type(text.as_slice()) {
                Some(t) => t,
                None => {
                    return None;
                },
            };
            let rn = slice_bytes(b, end, end + 8);
            let rh = slice_bytes(b, end + 8, end + 16);
            let n = decode_u64(rn.as_slice()).unwrap();
            let m = decode_u64(rh.as_slice()).unwrap();
            let h = Height { revision_number: n, revision_height: m };
            proof {
                lemma_u32_le_bytes(b@.subrange(0, 4));
                crate::codec::lemma_u64_le_bytes(rn@);
                crate::codec::lemma_u64_le_bytes(rh@);
                assert(b@ =~= b@.subrange(0, 4) + b@.subrange(4, end as int) + rn@ + rh@);
                assert(client_type_encoding(t) =~= b@.subrange(0, 4) + b@.subrange(4, end as int));
                assert forall|t2: ClientType, h2: Height| #[trigger] state_encoding(t2, h2) == b@ implies (t, h) == (t2, h2) by {
                    lemma_state_encoding_injective(t, h, t2, h2);
                }
            }
            Some((t, h))
        },
        None => None,
    }
}

/// Encode a client state, consensus state or header.
pub fn encode_state(t: ClientType, h: Height) -> (r: Vec<u8>)
    ensures
        r@ == state_encoding(t, h),
{
    let text = client_type_bytes(t);
    let mut r = encode_string(text.as_slice());
    let a = encode_u64(h.revision_number);
    let b = encode_u64(h.revision_height);
    append_bytes(&mut r, a.as_slice());
    append_bytes(&mut r, b.as_slice());
    r
}

} // verus!
