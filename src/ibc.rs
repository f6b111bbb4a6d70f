//! The IBC native validity predicate.
pub mod client;
pub mod data;

use vstd::prelude::*;
use crate::address::Address;
use crate::codec::{decode_u64, encode_u64, len_prefixed, u64_from_le, u64_to_le};
use crate::ibc::client::{client_valid, created_ok, holds_state, valid_client_id};
use crate::ibc::data::{
    acks, capabilities, client_state_key, client_type_encoding, client_type_key, consensus_state_key, state_encoding, ClientType, Height, capability_index_key, capability_key, channel_ends, client_counter_key,
    clients, commitments, connections, dec, decode_string, ibc_seg, ibc_seg_bytes, index, make_capability_index_key,
    make_capability_key, make_channel_counter_key, make_client_counter_key, make_connection_counter_key,
    make_port_key, next_sequence_ack, next_sequence_recv, next_sequence_send, parse_decimal, port_key, ports,
    receipts, acks_bytes, capabilities_bytes, channel_ends_bytes, clients_bytes, commitments_bytes,
    connections_bytes, next_sequence_ack_bytes, next_sequence_recv_bytes,
    next_sequence_send_bytes, ports_bytes, receipts_bytes,
};
use crate::codec::bytes_eq;
use crate::key::Key;
use crate::native_vp::{self, Ctx};
use crate::storage::Storage;
use crate::write_log::{post_has_gas, post_read_gas, pre_has_gas, pre_read_gas, WriteLog};

verus! {

/// Why the IBC validity predicate rejected a transaction.
#[derive(Debug, Clone, Copy, PartialEq, Eq, Structural)]
pub enum Error {
    /// The state could not be read.
    NativeVpError(native_vp::Error),
    /// A changed key is not a known IBC key.
    KeyError,
    /// A counter is missing, undecodable or not increased.
    CounterError,
    /// A change to a client was rejected.
    ClientError(client::Error),
    /// A change to a connection cannot be verified.
    ConnectionError,
    /// A change to a channel cannot be verified.
    ChannelError,
    /// A port and its capability disagree.
    PortError,
    /// A change to packet data cannot be verified.
    PacketError,
    /// A change to a packet sequence cannot be verified.
    SequenceError,
}

/// The IBC validity predicate.
pub struct Ibc<'a> {
    /// The context to read the prior and posterior state.
    pub ctx: Ctx<'a>,
}

/// How the value under a key changed.
#[derive(Debug, Clone, Copy, PartialEq, Eq, Structural)]
pub enum StateChange {
    Created,
    Updated,
    Deleted,
    NotExists,
}

/// The IBC module that a key belongs to: its segment after `#IBC`.
#[derive(Debug, Clone, Copy, PartialEq, Eq, Structural)]
pub enum IbcPrefix {
    Client,
    Connection,
    Channel,
    Port,
    Capability,
    SeqSend,
    SeqRecv,
    SeqAck,
    Commitment,
    Receipt,
    Ack,
    Unknown,
}

/// The module that the second segment of an IBC key names.
pub open spec fn prefix_of(seg: Seq<u8>) -> IbcPrefix {
    if seg == clients() {
        IbcPrefix::Client
    } else if seg == connections() {
        IbcPrefix::Connection
    } else if seg == channel_ends() {
        IbcPrefix::Channel
    } else if seg == ports() {
        IbcPrefix::Port
    } else if seg == capabilities() {
        IbcPrefix::Capability
    } else if seg == next_sequence_send() {
        IbcPrefix::SeqSend
    } else if seg == next_sequence_recv() {
        IbcPrefix::SeqRecv
    } else if seg == next_sequence_ack() {
        IbcPrefix::SeqAck
    } else if seg == commitments() {
        IbcPrefix::Commitment
    } else if seg == receipts() {
        IbcPrefix::Receipt
    } else if seg == acks() {
        IbcPrefix::Ack
    } else {
        IbcPrefix::Unknown
    }
}

/// The module of key `k`.
pub open spec fn ibc_prefix(k: Seq<Seq<u8>>) -> IbcPrefix {
    if k.len() >= 2 {
        prefix_of(k[1])
    } else {
        IbcPrefix::Unknown
    }
}

/// Whether `k` is an IBC key.
pub open spec fn is_ibc_key(k: Seq<Seq<u8>>) -> bool {
    k.len() >= 1 && k[0] == ibc_seg()
}

/// The change between a prior and a posterior presence.
pub open spec fn state_change_of(pre: bool, post: bool) -> StateChange {
    if pre {
        if post { StateChange::Updated } else { StateChange::Deleted }
    } else {
        if post { StateChange::Created } else { StateChange::NotExists }
    }
}

/// The value of a stored counter: its integer where it is eight bytes,
/// otherwise 0.
pub open spec fn counter_value(b: Seq<u8>) -> u64 {
    if b.len() == 8 { u64_from_le(b) } else { 0 }
}

/// Gas of reading a counter's prior and posterior value.
pub open spec fn counter_gas(st: Storage, wl: WriteLog, k: Seq<Seq<u8>>) -> int {
    pre_read_gas(st, k) + post_read_gas(wl, st, k)
}

/// Gas of finding how the value under `k` changed.
pub open spec fn state_change_gas(st: Storage, wl: WriteLog, k: Seq<Seq<u8>>) -> int {
    pre_has_gas(k) + post_has_gas(wl, st, k)
}

/// Whether both values are stored integers and the posterior one is larger.
pub open spec fn counter_increased(pre: Option<Seq<u8>>, post: Option<Seq<u8>>) -> bool {
    &&& pre matches Some(a) && a.len() == 8
    &&& post matches Some(b) && b.len() == 8
    &&& u64_from_le(pre->0) < u64_from_le(post->0)
}

/// A newly bound port with the capability at its index mapping back to it.
pub open spec fn port_valid(st: Storage, wl: WriteLog, port: Seq<u8>) -> bool {
    &&& st.value_of(port_key(port)) is None
    &&& port.len() <= u32::MAX
    &&& exists|i: u64| wl.post_value(&st, port_key(port)) == Some(u64_to_le(i)) && #[trigger] wl.post_value(&st, capability_key(i)) == Some(len_prefixed(port))
}

/// A newly issued capability whose port maps back to it.
pub open spec fn capability_valid(st: Storage, wl: WriteLog, i: u64) -> bool {
    &&& st.value_of(capability_key(i)) is None
    &&& exists|port: Seq<u8>| crate::address::valid_id(port) && port.len() <= u32::MAX && wl.post_value(&st, capability_key(i)) == Some(len_prefixed(port)) && #[trigger] wl.post_value(&st, port_key(port)) == Some(u64_to_le(i))
}

/// Whether the IBC validity predicate accepts the change of key `k`.
pub open spec fn key_accepted(st: Storage, wl: WriteLog, k: Seq<Seq<u8>>, tx_data: Seq<u8>) -> bool {
    if !is_ibc_key(k) {
        true
    } else {
        match ibc_prefix(k) {
            IbcPrefix::Client => if k == client_counter_key() {
                counter_increased(st.value_of(k), wl.post_value(&st, k))
            } else {
                k.len() >= 3 && valid_client_id(k[2]) && client_valid(st, wl, k[2], tx_data)
            },
            IbcPrefix::Port => k.len() >= 3 && port_valid(st, wl, k[2]),
            IbcPrefix::Capability => if k == capability_index_key() {
                counter_increased(st.value_of(k), wl.post_value(&st, k))
            } else {
                k.len() >= 3 && exists|i: u64| dec(i as nat) == k[2] && #[trigger] capability_valid(st, wl, i)
            },
            _ => false,
        }
    }
}

/// Where the IBC validity predicate accepts a change of the client counter,
/// the posterior counter is above the prior one.
pub proof fn law_client_counter_increases(st: Storage, wl: WriteLog, keys: Seq<Seq<Seq<u8>>>, tx_data: Seq<u8>, i: int)
    requires
        0 <= i < keys.len(),
        keys[i] == client_counter_key(),
        forall|j: int| 0 <= j < keys.len() ==> key_accepted(st, wl, #[trigger] keys[j], tx_data),
    ensures
        counter_increased(st.value_of(client_counter_key()), wl.post_value(&st, client_counter_key())),
{
    assert(key_accepted(st, wl, keys[i], tx_data));
    assert(is_ibc_key(client_counter_key()));
    assert(ibc_prefix(client_counter_key()) == IbcPrefix::Client);
}

/// Where the IBC validity predicate accepts the creation of a client, the
/// posterior client type, the type of the posterior client state and the
/// type of the posterior consensus state at the client's latest height are
/// one and the same.
pub proof fn law_created_client_types_agree(
    st: Storage,
    wl: WriteLog,
    id: Seq<u8>,
    t1: ClientType,
    t2: ClientType,
    h: Height,
    t3: ClientType,
    ch: Height,
)
    requires
        created_ok(st, wl, id),
        wl.post_value(&st, client_type_key(id)) == Some(client_type_encoding(t1)),
        wl.post_value(&st, client_state_key(id)) == Some(state_encoding(t2, h)),
        wl.post_value(&st, consensus_state_key(id, h)) == Some(state_encoding(t3, ch)),
    ensures
        t1 == t2,
        t2 == t3,
{
    let (t, hh, cch) = choose|t: ClientType, hh: Height, cch: Height|
        #![trigger holds_state(wl.post_value(&st, client_state_key(id)), t, hh), holds_state(wl.post_value(&st, consensus_state_key(id, hh)), t, cch)]
        wl.post_value(&st, client_type_key(id)) == Some(client_type_encoding(t)) && holds_state(
            wl.post_value(&st, client_state_key(id)),
            t,
            hh,
        ) && holds_state(wl.post_value(&st, consensus_state_key(id, hh)), t, cch);
    crate::ibc::data::lemma_client_type_first_byte(t);
    crate::ibc::data::lemma_client_type_first_byte(t1);
    crate::ibc::data::lemma_state_encoding_injective(t2, h, t, hh);
    crate::ibc::data::lemma_state_encoding_injective(t3, ch, t, cch);
}

/// The capability index that a stored port value names.
pub open spec fn port_index(v: Option<Seq<u8>>) -> u64 {
    match v {
        Some(b) => u64_from_le(b),
        None => 0,
    }
}

/// The port that a stored capability value names.
pub open spec fn cap_port(v: Option<Seq<u8>>) -> Seq<u8> {
    choose|p: Seq<u8>| p.len() <= u32::MAX && v == Some(#[trigger] len_prefixed(p))
}

/// The capability index that the key segment `seg` names.
pub open spec fn seg_index(seg: Seq<u8>) -> u64 {
    choose|i: u64| #[trigger] dec(i as nat) == seg
}

/// Gas of checking a newly bound port.
pub open spec fn port_cost(st: Storage, wl: WriteLog, port: Seq<u8>) -> int {
    state_change_gas(st, wl, port_key(port)) + post_read_gas(wl, st, port_key(port)) + post_read_gas(
        wl,
        st,
        capability_key(port_index(wl.post_value(&st, port_key(port)))),
    )
}

/// Gas of checking a newly issued capability.
pub open spec fn capability_cost(st: Storage, wl: WriteLog, i: u64) -> int {
    state_change_gas(st, wl, capability_key(i)) + post_read_gas(wl, st, capability_key(i)) + post_read_gas(
        wl,
        st,
        port_key(cap_port(wl.post_value(&st, capability_key(i)))),
    )
}

/// Gas of checking the change of one key: an upper bound, since a client
/// checked for an earlier key is not checked again.
pub open spec fn key_cost(st: Storage, wl: WriteLog, k: Seq<Seq<u8>>, tx_data: Seq<u8>) -> int {
    if !is_ibc_key(k) {
        0
    } else {
        match ibc_prefix(k) {
            IbcPrefix::Client => if k == client_counter_key() {
                counter_gas(st, wl, k)
            } else if k.len() >= 3 {
                crate::ibc::client::client_cost(st, wl, k[2])
            } else {
                0
            },
            IbcPrefix::Port => if k.len() >= 3 { port_cost(st, wl, k[2]) } else { 0 },
            IbcPrefix::Capability => if k == capability_index_key() {
                counter_gas(st, wl, k)
            } else if k.len() >= 3 {
                capability_cost(st, wl, seg_index(k[2]))
            } else {
                0
            },
            _ => 0,
        }
    }
}

/// Gas of checking the changes of all keys `ks`.
pub open spec fn keys_cost(st: Storage, wl: WriteLog, ks: Seq<Seq<Seq<u8>>>, tx_data: Seq<u8>) -> int
    decreases ks.len(),
{
    if ks.len() == 0 {
        0
    } else {
        keys_cost(st, wl, ks.drop_last(), tx_data) + key_cost(st, wl, ks.last(), tx_data)
    }
}

proof fn lemma_key_cost_nonneg(st: Storage, wl: WriteLog, k: Seq<Seq<u8>>, tx_data: Seq<u8>)
    ensures
        key_cost(st, wl, k, tx_data) >= 0,
{
}

proof fn lemma_keys_cost_prefix(st: Storage, wl: WriteLog, ks: Seq<Seq<Seq<u8>>>, tx_data: Seq<u8>, i: int)
    requires
        0 <= i <= ks.len(),
    ensures
        keys_cost(st, wl, ks.subrange(0, i), tx_data) <= keys_cost(st, wl, ks, tx_data),
    decreases ks.len() - i,
{
    if i < ks.len() {
        lemma_keys_cost_prefix(st, wl, ks, tx_data, i + 1);
        assert(ks.subrange(0, i + 1).drop_last() =~= ks.subrange(0, i));
    } else {
        assert(ks.subrange(0, i) =~= ks);
    }
}

/// What a client key's rejection with `ce` means.
pub open spec fn client_error_cause(st: Storage, wl: WriteLog, k: Seq<Seq<u8>>, tx_data: Seq<u8>, ce: client::Error) -> bool {
    match ce {
        client::Error::InvalidKey => !(k.len() >= 3 && valid_client_id(k[2])),
        client::Error::InvalidStateChange => k.len() >= 3 && valid_client_id(k[2]) && !(st.value_of(
            client_state_key(k[2]),
        ) is None && wl.post_value(&st, client_state_key(k[2])) is Some) && !(st.value_of(client_state_key(k[2])) is Some
            && wl.post_value(&st, client_state_key(k[2])) is Some),
        _ => k.len() >= 3 && valid_client_id(k[2]) && wl.post_value(&st, client_state_key(k[2])) is Some
            && !client_valid(st, wl, k[2], tx_data),
    }
}

/// What a rejection of the changed keys `ks` with `e` means: some key of the
/// module that `e` names fails that module's check.
pub open spec fn error_cause(st: Storage, wl: WriteLog, ks: Seq<Seq<Seq<u8>>>, tx_data: Seq<u8>, e: Error) -> bool {
    match e {
        Error::NativeVpError(_) => false,
        Error::KeyError => exists|i: int| 0 <= i < ks.len() && is_ibc_key(#[trigger] ks[i]) && ibc_prefix(ks[i]) == IbcPrefix::Unknown,
        Error::CounterError => exists|i: int| 0 <= i < ks.len() && is_ibc_key(#[trigger] ks[i]) && (ks[i] == client_counter_key()
            || ks[i] == capability_index_key()) && !counter_increased(st.value_of(ks[i]), wl.post_value(&st, ks[i])),
        Error::ClientError(ce) => exists|i: int| 0 <= i < ks.len() && is_ibc_key(#[trigger] ks[i]) && ibc_prefix(ks[i])
            == IbcPrefix::Client && ks[i] != client_counter_key() && client_error_cause(st, wl, ks[i], tx_data, ce),
        Error::ConnectionError => exists|i: int| 0 <= i < ks.len() && is_ibc_key(#[trigger] ks[i]) && ibc_prefix(ks[i]) == IbcPrefix::Connection,
        Error::ChannelError => exists|i: int| 0 <= i < ks.len() && is_ibc_key(#[trigger] ks[i]) && ibc_prefix(ks[i]) == IbcPrefix::Channel,
        Error::PortError => exists|i: int| 0 <= i < ks.len() && is_ibc_key(#[trigger] ks[i]) && (ibc_prefix(ks[i]) == IbcPrefix::Port
            || (ibc_prefix(ks[i]) == IbcPrefix::Capability && ks[i] != capability_index_key())) && !key_accepted(st, wl, ks[i], tx_data),
        Error::PacketError => exists|i: int| 0 <= i < ks.len() && is_ibc_key(#[trigger] ks[i]) && (ibc_prefix(ks[i]) == IbcPrefix::Commitment
            || ibc_prefix(ks[i]) == IbcPrefix::Receipt || ibc_prefix(ks[i]) == IbcPrefix::Ack),
        Error::SequenceError => exists|i: int| 0 <= i < ks.len() && is_ibc_key(#[trigger] ks[i]) && (ibc_prefix(ks[i]) == IbcPrefix::SeqSend
            || ibc_prefix(ks[i]) == IbcPrefix::SeqRecv || ibc_prefix(ks[i]) == IbcPrefix::SeqAck),
    }
}

/// Write the initial IBC counters to storage in the genesis block.
pub fn init_genesis_storage(storage: &mut Storage)
    requires
        old(storage).wf(),
    ensures
        final(storage).wf(),
        final(storage).value_of(client_counter_key()) == Some(u64_to_le(0)),
        final(storage).value_of(ibc_key_of_counter(connections())) == Some(u64_to_le(0)),
        final(storage).value_of(ibc_key_of_counter(channel_ends())) == Some(u64_to_le(0)),
        final(storage).value_of(capability_index_key()) == Some(u64_to_le(0)),
        forall|k: Seq<Seq<u8>>| k != client_counter_key() && k != ibc_key_of_counter(connections()) && k
            != ibc_key_of_counter(channel_ends()) && k != capability_index_key() ==> #[trigger] final(storage).value_of(k)
            == old(storage).value_of(k),
        final(storage).chain_id == old(storage).chain_id,
        final(storage).block_height == old(storage).block_height,
        final(storage).block_hash == old(storage).block_hash,
        final(storage).block_epoch == old(storage).block_epoch,
        final(storage).address_gen == old(storage).address_gen,
{
    let zero = encode_u64(0);
    let k1 = make_client_counter_key();
    storage.write(&k1, zero.as_slice());
    let k2 = make_connection_counter_key();
    storage.write(&k2, zero.as_slice());
    let k3 = make_channel_counter_key();
    storage.write(&k3, zero.as_slice());
    let k4 = make_capability_index_key();
    storage.write(&k4, zero.as_slice());
    proof {
        reveal_keys_distinct();
    }
}

/// The key of the counter of a module.
pub open spec fn ibc_key_of_counter(module: Seq<u8>) -> Seq<Seq<u8>> {
    crate::ibc::data::ibc_key(seq![module, crate::ibc::data::counter()])
}

proof fn reveal_keys_distinct()
    ensures
        client_counter_key() != ibc_key_of_counter(connections()),
        client_counter_key() != ibc_key_of_counter(channel_ends()),
        client_counter_key() != capability_index_key(),
        ibc_key_of_counter(connections()) != ibc_key_of_counter(channel_ends()),
        ibc_key_of_counter(connections()) != capability_index_key(),
        ibc_key_of_counter(channel_ends()) != capability_index_key(),
{
    assert(client_counter_key()[1] != connections());
    assert(client_counter_key()[1] != channel_ends());
    assert(client_counter_key()[1] != capabilities());
    assert(ibc_key_of_counter(connections())[1] != channel_ends());
    assert(ibc_key_of_counter(connections())[1] != capabilities());
    assert(ibc_key_of_counter(channel_ends())[1] != capabilities());
}

impl<'a> Ibc<'a> {
    /// The module that `key` belongs to.
    pub fn get_ibc_prefix(key: &Key) -> (r: IbcPrefix)
        ensures
            r == ibc_prefix(key@),
    {
        if key.segments.len() < 2 {
            return IbcPrefix::Unknown;
        }
        let s = key.segments[1].as_slice();
        assert(s@ == key@[1]);
        if bytes_eq(s, clients_bytes().as_slice()) {
            IbcPrefix::Client
        } else if bytes_eq(s, connections_bytes().as_slice()) {
            IbcPrefix::Connection
        } else if bytes_eq(s, channel_ends_bytes().as_slice()) {
            IbcPrefix::Channel
        } else if bytes_eq(s, ports_bytes().as_slice()) {
            IbcPrefix::Port
        } else if bytes_eq(s, capabilities_bytes().as_slice()) {
            IbcPrefix::Capability
        } else if bytes_eq(s, next_sequence_send_bytes().as_slice()) {
            IbcPrefix::SeqSend
        } else if bytes_eq(s, next_sequence_recv_bytes().as_slice()) {
            IbcPrefix::SeqRecv
        } else if bytes_eq(s, next_sequence_ack_bytes().as_slice()) {
            IbcPrefix::SeqAck
        } else if bytes_eq(s, commitments_bytes().as_slice()) {
            IbcPrefix::Commitment
        } else if bytes_eq(s, receipts_bytes().as_slice()) {
            IbcPrefix::Receipt
        } else if bytes_eq(s, acks_bytes().as_slice()) {
            IbcPrefix::Ack
        } else {
            IbcPrefix::Unknown
        }
    }

    /// Whether `key` is an IBC key.
    pub fn is_ibc_key(key: &Key) -> (r: bool)
        ensures
            r == is_ibc_key(key@),
    {
        if key.segments.len() < 1 {
            return false;
        }
        assert(key.segments@[0]@ == key@[0]);
        bytes_eq(key.segments[0].as_slice(), ibc_seg_bytes().as_slice())
    }

    /// How the value under `key` changed.
    pub fn get_state_change(&mut self, key: &Key) -> (r: Result<StateChange, Error>)
        requires
            old(self).ctx.wf(),
        ensures
            final(self).ctx.meter_follows(&old(self).ctx),
            r matches Ok(c) ==> c == state_change_of(old(self).ctx.pre(key@) is Some, old(self).ctx.post(key@) is Some),
            r is Ok ==> final(self).ctx.gas_meter.used == old(self).ctx.gas_meter.used + state_change_gas(
                *old(self).ctx.storage,
                *old(self).ctx.write_log,
                key@,
            ),
            r is Err ==> final(self).ctx.gas_meter.exhausted && (r matches Err(Error::NativeVpError(_))),
            r is Ok ==> !final(self).ctx.gas_meter.exhausted,
            final(self).ctx.gas_meter.used <= old(self).ctx.gas_meter.used + state_change_gas(
                *old(self).ctx.storage,
                *old(self).ctx.write_log,
                key@,
            ),
            old(self).ctx.gas_meter.can_pay(state_change_gas(*old(self).ctx.storage, *old(self).ctx.write_log, key@))
                ==> r is Ok,
    {
        let pre = match self.ctx.has_key_pre(key) {
            Ok(b) => b,
            Err(e) => {
                return Err(Error::NativeVpError(e));
            },
        };
        let post = match self.ctx.has_key_post(key) {
            Ok(b) => b,
            Err(e) => {
                return Err(Error::NativeVpError(e));
            },
        };
        Ok(
            if pre {
                if post { StateChange::Updated } else { StateChange::Deleted }
            } else {
                if post { StateChange::Created } else { StateChange::NotExists }
            },
        )
    }

    /// The prior value of a counter.
    pub fn read_counter_pre(&mut self, key: &Key) -> (r: Result<u64, Error>)
        requires
            old(self).ctx.wf(),
        ensures
            final(self).ctx.meter_follows(&old(self).ctx),
            r matches Ok(n) ==> old(self).ctx.pre(key@) matches Some(b) && b.len() == 8 && n == u64_from_le(b),
            (old(self).ctx.pre(key@) matches Some(b) && b.len() == 8) ==> r is Ok || final(self).ctx.gas_meter.exhausted,
            (old(self).ctx.pre(key@) matches Some(b) && b.len() == 8) && old(self).ctx.gas_meter.can_pay(
                pre_read_gas(*old(self).ctx.storage, key@),
            ) ==> r is Ok,
            r is Ok ==> final(self).ctx.gas_meter.used == old(self).ctx.gas_meter.used + pre_read_gas(*old(self).ctx.storage, key@),
            r matches Err(Error::CounterError) ==> !(old(self).ctx.pre(key@) matches Some(b) && b.len() == 8),
            r matches Err(e) ==> e is CounterError || (e is NativeVpError && final(self).ctx.gas_meter.exhausted),
            r is Ok ==> !final(self).ctx.gas_meter.exhausted,
            old(self).ctx.gas_meter.can_pay(pre_read_gas(*old(self).ctx.storage, key@)) ==> !(r matches Err(Error::NativeVpError(_))),
    {
        match self.ctx.read_pre(key) {
            Ok(Some(value)) => match decode_u64(value.as_slice()) {
                Some(n) => Ok(n),
                None => Err(Error::CounterError),
            },
            Ok(None) => Err(Error::CounterError),
            Err(e) => Err(Error::NativeVpError(e)),
        }
    }

    /// The posterior value of a counter; 0 where the stored bytes are no
    /// integer.
    pub fn read_counter(&mut self, key: &Key) -> (r: Result<u64, Error>)
        requires
            old(self).ctx.wf(),
        ensures
            final(self).ctx.meter_follows(&old(self).ctx),
            r matches Ok(n) ==> old(self).ctx.post(key@) matches Some(b) && n == counter_value(b),
            old(self).ctx.post(key@) is Some ==> r is Ok || final(self).ctx.gas_meter.exhausted,
            old(self).ctx.post(key@) is Some && old(self).ctx.gas_meter.can_pay(
                post_read_gas(*old(self).ctx.write_log, *old(self).ctx.storage, key@),
            ) ==> r is Ok,
            r is Ok ==> final(self).ctx.gas_meter.used == old(self).ctx.gas_meter.used + post_read_gas(
                *old(self).ctx.write_log,
                *old(self).ctx.storage,
                key@,
            ),
            r matches Err(e) ==> (e is CounterError && old(self).ctx.post(key@) is None) || (e is NativeVpError
                && final(self).ctx.gas_meter.exhausted),
            r is Ok ==> !final(self).ctx.gas_meter.exhausted,
            old(self).ctx.gas_meter.can_pay(post_read_gas(*old(self).ctx.write_log, *old(self).ctx.storage, key@))
                ==> !(r matches Err(Error::NativeVpError(_))),
    {
        match self.ctx.read_post(key) {
            Ok(Some(value)) => match decode_u64(value.as_slice()) {
                Some(n) => Ok(n),
                None => Ok(0),
            },
            Ok(None) => Err(Error::CounterError),
            Err(e) => Err(Error::NativeVpError(e)),
        }
    }

    /// The prior value of the client counter.
    pub fn client_counter_pre(&mut self) -> (r: Result<u64, Error>)
        requires
            old(self).ctx.wf(),
        ensures
            final(self).ctx.meter_follows(&old(self).ctx),
            r matches Ok(n) ==> old(self).ctx.pre(client_counter_key()) matches Some(b) && b.len() == 8 && n == u64_from_le(b),
            (old(self).ctx.pre(client_counter_key()) matches Some(b) && b.len() == 8) && old(self).ctx.gas_meter.can_pay(
                pre_read_gas(*old(self).ctx.storage, client_counter_key()),
            ) ==> r is Ok,
            r is Ok ==> final(self).ctx.gas_meter.used == old(self).ctx.gas_meter.used + pre_read_gas(*old(self).ctx.storage, client_counter_key()),
            r matches Err(Error::CounterError) ==> !(old(self).ctx.pre(client_counter_key()) matches Some(b) && b.len() == 8),
            r matches Err(e) ==> e is CounterError || (e is NativeVpError && final(self).ctx.gas_meter.exhausted),
            r is Ok ==> !final(self).ctx.gas_meter.exhausted,
            old(self).ctx.gas_meter.can_pay(pre_read_gas(*old(self).ctx.storage, client_counter_key())) ==> !(r matches Err(Error::NativeVpError(_))),
    {
        let key = make_client_counter_key();
        self.read_counter_pre(&key)
    }

    /// The posterior value of the client counter; 0 where the stored bytes
    /// are no integer.
    pub fn client_counter(&mut self) -> (r: Result<u64, Error>)
        requires
            old(self).ctx.wf(),
        ensures
            r is Ok ==> !final(self).ctx.gas_meter.exhausted,
            final(self).ctx.meter_follows(&old(self).ctx),
            r matches Ok(n) ==> old(self).ctx.post(client_counter_key()) matches Some(b) && n == counter_value(b),
            old(self).ctx.post(client_counter_key()) is Some && old(self).ctx.gas_meter.can_pay(
                post_read_gas(*old(self).ctx.write_log, *old(self).ctx.storage, client_counter_key()),
            ) ==> r is Ok,
            r is Ok ==> final(self).ctx.gas_meter.used == old(self).ctx.gas_meter.used + post_read_gas(
                *old(self).ctx.write_log,
                *old(self).ctx.storage,
                client_counter_key(),
            ),
            r matches Err(e) ==> (e is CounterError && old(self).ctx.post(client_counter_key()) is None) || (e is NativeVpError
                && final(self).ctx.gas_meter.exhausted),
            old(self).ctx.gas_meter.can_pay(post_read_gas(*old(self).ctx.write_log, *old(self).ctx.storage, client_counter_key()))
                ==> !(r matches Err(Error::NativeVpError(_))),
    {
        let key = make_client_counter_key();
        self.read_counter(&key)
    }

    /// Check that a counter increased.
    fn validate_counter(&mut self, key: &Key) -> (r: Result<(), Error>)
        requires
            old(self).ctx.wf(),
        ensures
            r is Ok ==> !final(self).ctx.gas_meter.exhausted,
            final(self).ctx.meter_follows(&old(self).ctx),
            r is Ok ==> counter_increased(old(self).ctx.pre(key@), old(self).ctx.post(key@)),
            counter_increased(old(self).ctx.pre(key@), old(self).ctx.post(key@)) ==> r is Ok || final(self).ctx.gas_meter.exhausted,
            counter_increased(old(self).ctx.pre(key@), old(self).ctx.post(key@)) && old(self).ctx.gas_meter.can_pay(
                counter_gas(*old(self).ctx.storage, *old(self).ctx.write_log, key@),
            ) ==> r is Ok,
            old(self).ctx.gas_meter.can_pay(counter_gas(*old(self).ctx.storage, *old(self).ctx.write_log, key@)) ==> !(r matches Err(
                Error::NativeVpError(_),
            )),
            r matches Err(e) ==> (e is CounterError && !counter_increased(old(self).ctx.pre(key@), old(self).ctx.post(key@)))
                || (e is NativeVpError && final(self).ctx.gas_meter.exhausted),
            r is Ok ==> final(self).ctx.gas_meter.used == old(self).ctx.gas_meter.used + counter_gas(
                *old(self).ctx.storage,
                *old(self).ctx.write_log,
                key@,
            ),
    {
        let pre = self.read_counter_pre(key)?;
        let post = self.read_counter(key)?;
        if pre >= post {
            return Err(Error::CounterError);
        }
        Ok(())
    }

    /// Check a newly bound port against the capability at its index.
    fn validate_port(&mut self, key: &Key) -> (r: Result<(), Error>)
        requires
            old(self).ctx.wf(),
            key.wf(),
        ensures
            r is Ok ==> !final(self).ctx.gas_meter.exhausted,
            final(self).ctx.meter_follows(&old(self).ctx),
            r is Ok ==> key@.len() >= 3 && port_valid(*old(self).ctx.storage, *old(self).ctx.write_log, key@[2]),
            r matches Err(e) ==> e is PortError || final(self).ctx.gas_meter.exhausted,
            key@.len() >= 3 && port_valid(*old(self).ctx.storage, *old(self).ctx.write_log, key@[2]) && old(self).ctx.gas_meter.can_pay(
                port_cost(*old(self).ctx.storage, *old(self).ctx.write_log, key@[2]),
            ) ==> r is Ok,
            r is Ok ==> final(self).ctx.gas_meter.used <= old(self).ctx.gas_meter.used + port_cost(
                *old(self).ctx.storage,
                *old(self).ctx.write_log,
                key@[2],
            ),
            key@.len() >= 3 && port_valid(*old(self).ctx.storage, *old(self).ctx.write_log, key@[2]) ==> r is Ok
                || final(self).ctx.gas_meter.exhausted,
    {
        let port = match key.segment(2) {
            Some(p) => p,
            None => {
                return Err(Error::PortError);
            },
        };
        assert(crate::address::valid_id(key@[2]));
        let pkey = make_port_key(port.as_slice());
        match self.get_state_change(&pkey)? {
            StateChange::Created => {},
            _ => {
                return Err(Error::PortError);
            },
        }
        let ghost mid = self.ctx;
        let idx = match self.ctx.read_post(&pkey) {
            Ok(Some(v)) => match decode_u64(v.as_slice()) {
                Some(n) => {
                    proof {
                        crate::codec::lemma_u64_le_bytes(v@);
                        let st = *old(self).ctx.storage;
                        let wl = *old(self).ctx.write_log;
                        if port_valid(st, wl, key@[2]) {
                            let i = choose|i: u64| wl.post_value(&st, port_key(port@)) == Some(u64_to_le(i)) && #[trigger] wl.post_value(&st, capability_key(i)) == Some(len_prefixed(port@));
                            crate::codec::lemma_u64_round_trip(i);
                            assert(n == i);
                            crate::ibc::data::lemma_len_prefixed_parts(port@);
                        }
                    }
                    n
                },
                None => {
                    return Err(Error::PortError);
                },
            },
            _ => {
                return Err(Error::PortError);
            },
        };
        let ckey = make_capability_key(idx);
        match self.ctx.read_post(&ckey) {
            Ok(Some(v)) => match decode_string(v.as_slice()) {
                Some(p) => {
                    proof {
                        let st = *old(self).ctx.storage;
                        let wl = *old(self).ctx.write_log;
                        if port_valid(st, wl, key@[2]) {
                            crate::ibc::data::lemma_len_prefixed_parts(port@);
                            crate::ibc::data::lemma_len_prefixed_parts(p@);
                        }
                    }
                    if bytes_eq(p.as_slice(), port.as_slice()) {
                        assert(old(self).ctx.post(capability_key(idx)) == Some(len_prefixed(port@)));
                        Ok(())
                    } else {
                        Err(Error::PortError)
                    }
                },
                None => Err(Error::PortError),
            },
            _ => Err(Error::PortError),
        }
    }

    /// Check a newly issued capability against the port it names, or the
    /// increase of the capability index.
    fn validate_capability(&mut self, key: &Key) -> (r: Result<(), Error>)
        requires
            old(self).ctx.wf(),
            key.wf(),
        ensures
            r is Ok ==> !final(self).ctx.gas_meter.exhausted,
            final(self).ctx.meter_follows(&old(self).ctx),
            r matches Err(e) ==> final(self).ctx.gas_meter.exhausted || (e is CounterError && key@ == capability_index_key())
                || (e is PortError && key@ != capability_index_key()),
            key_accepted(*old(self).ctx.storage, *old(self).ctx.write_log, key@, Seq::empty()) && is_ibc_key(key@) && ibc_prefix(key@)
                == IbcPrefix::Capability && old(self).ctx.gas_meter.can_pay(
                key_cost(*old(self).ctx.storage, *old(self).ctx.write_log, key@, Seq::empty()),
            ) ==> r is Ok,
            is_ibc_key(key@) && ibc_prefix(key@) == IbcPrefix::Capability && r is Ok ==> final(self).ctx.gas_meter.used
                <= old(self).ctx.gas_meter.used + key_cost(*old(self).ctx.storage, *old(self).ctx.write_log, key@, Seq::empty()),
            r is Ok ==> if key@ == capability_index_key() {
                counter_increased(old(self).ctx.pre(key@), old(self).ctx.post(key@))
            } else {
                key@.len() >= 3 && exists|i: u64| dec(i as nat) == key@[2] && #[trigger] capability_valid(*old(self).ctx.storage, *old(self).ctx.write_log, i)
            },
            (if key@ == capability_index_key() {
                counter_increased(old(self).ctx.pre(key@), old(self).ctx.post(key@))
            } else {
                key@.len() >= 3 && exists|i: u64| dec(i as nat) == key@[2] && #[trigger] capability_valid(*old(self).ctx.storage, *old(self).ctx.write_log, i)
            }) ==> r is Ok || final(self).ctx.gas_meter.exhausted,
    {
        let index_key = make_capability_index_key();
        if key.same(&index_key) {
            return self.validate_counter(key);
        }
        let seg = match key.segment(2) {
            Some(s) => s,
            None => {
                return Err(Error::PortError);
            },
        };
        let idx = match parse_decimal(seg.as_slice()) {
            Some(n) => n,
            None => {
                return Err(Error::PortError);
            },
        };
        proof {
            assert(dec(idx as nat) == key@[2]);
            let c = seg_index(key@[2]);
            assert(dec(c as nat) == key@[2]);
            assert(c == idx);
        }
        let ckey = make_capability_key(idx);
        match self.get_state_change(&ckey)? {
            StateChange::Created => {},
            _ => {
                return Err(Error::PortError);
            },
        }
        let port = match self.ctx.read_post(&ckey) {
            Ok(Some(v)) => match decode_string(v.as_slice()) {
                Some(p) => {
                    proof {
                        let st = *old(self).ctx.storage;
                        let wl = *old(self).ctx.write_log;
                        if capability_valid(st, wl, idx) {
                            let q = choose|q: Seq<u8>| crate::address::valid_id(q) && q.len() <= u32::MAX && wl.post_value(&st, capability_key(idx)) == Some(len_prefixed(q)) && #[trigger] wl.post_value(&st, port_key(q)) == Some(u64_to_le(idx));
                            crate::ibc::data::lemma_len_prefixed_parts(q);
                            crate::ibc::data::lemma_len_prefixed_parts(p@);
                            assert(p@ == q);
                        }
                        let c = cap_port(wl.post_value(&st, capability_key(idx)));
                        assert(p@.len() <= u32::MAX && wl.post_value(&st, capability_key(idx)) == Some(len_prefixed(p@)));
                        crate::codec::lemma_len_prefixed_split(c, Seq::empty(), p@, Seq::empty());
                        assert(c == p@);
                    }
                    p
                },
                None => {
                    proof {
                        let st = *old(self).ctx.storage;
                        let wl = *old(self).ctx.write_log;
                        if capability_valid(st, wl, idx) {
                            let q = choose|q: Seq<u8>| crate::address::valid_id(q) && q.len() <= u32::MAX && wl.post_value(&st, capability_key(idx)) == Some(len_prefixed(q)) && #[trigger] wl.post_value(&st, port_key(q)) == Some(u64_to_le(idx));
                            crate::ibc::data::lemma_len_prefixed_parts(q);
                        }
                    }
                    return Err(Error::PortError);
                },
            },
            _ => {
                return Err(Error::PortError);
            },
        };
        if port.len() == 0 || !crate::address::has_no_slash(port.as_slice()) {
            return Err(Error::PortError);
        }
        let pkey = make_port_key(port.as_slice());
        match self.ctx.read_post(&pkey) {
            Ok(Some(v)) => match decode_u64(v.as_slice()) {
                Some(n) => {
                    proof {
                        crate::codec::lemma_u64_round_trip(idx);
                    }
                    if n == idx {
                        proof {
                            crate::codec::lemma_u64_le_bytes(v@);
                        }
                        assert(capability_valid(*old(self).ctx.storage, *old(self).ctx.write_log, idx));
                        Ok(())
                    } else {
                        Err(Error::PortError)
                    }
                },
                None => Err(Error::PortError),
            },
            _ => Err(Error::PortError),
        }
    }

    /// Validate the IBC part of a transaction: every changed IBC key must
    /// pass the check of its module. Accepts with `true`.
    pub fn validate_tx(&mut self, tx_data: &[u8], keys_changed: &Vec<Key>, verifiers: &Vec<Address>) -> (r: Result<bool, Error>)
        requires
            old(self).ctx.wf(),
            forall|i: int| 0 <= i < keys_changed@.len() ==> (#[trigger] keys_changed@[i]).wf(),
        ensures
            final(self).ctx.meter_follows(&old(self).ctx),
            r is Ok ==> r == Ok::<bool, Error>(true) && forall|i: int| 0 <= i < keys_changed@.len() ==> key_accepted(
                *old(self).ctx.storage,
                *old(self).ctx.write_log,
                #[trigger] keys_changed@[i]@,
                tx_data@,
            ),
            (forall|i: int| 0 <= i < keys_changed@.len() ==> key_accepted(
                *old(self).ctx.storage,
                *old(self).ctx.write_log,
                #[trigger] keys_changed@[i]@,
                tx_data@,
            )) ==> r is Ok || final(self).ctx.gas_meter.exhausted,
            r matches Err(e) ==> final(self).ctx.gas_meter.exhausted || error_cause(
                *old(self).ctx.storage,
                *old(self).ctx.write_log,
                keys_changed@.map_values(|k: Key| k@),
                tx_data@,
                e,
            ),
            (forall|i: int| 0 <= i < keys_changed@.len() ==> key_accepted(
                *old(self).ctx.storage,
                *old(self).ctx.write_log,
                #[trigger] keys_changed@[i]@,
                tx_data@,
            )) && old(self).ctx.gas_meter.can_pay(
                keys_cost(*old(self).ctx.storage, *old(self).ctx.write_log, keys_changed@.map_values(|k: Key| k@), tx_data@),
            ) ==> r is Ok,
            r is Ok ==> final(self).ctx.gas_meter.used <= old(self).ctx.gas_meter.used + keys_cost(
                *old(self).ctx.storage,
                *old(self).ctx.write_log,
                keys_changed@.map_values(|k: Key| k@),
                tx_data@,
            ),
    {
        let ghost st = *old(self).ctx.storage;
        let ghost wl = *old(self).ctx.write_log;
        let ghost ks = keys_changed@.map_values(|k: Key| k@);
        let mut clients: Vec<Vec<u8>> = Vec::new();
        let counter_key = make_client_counter_key();
        let mut i: usize = 0;
        while i < keys_changed.len()
            invariant
                self.ctx.meter_follows(&old(self).ctx),
                self.ctx.wf(),
                st == *old(self).ctx.storage,
                wl == *old(self).ctx.write_log,
                ks == keys_changed@.map_values(|k: Key| k@),
                counter_key@ == client_counter_key(),
                forall|j: int| 0 <= j < keys_changed@.len() ==> (#[trigger] keys_changed@[j]).wf(),
                0 <= i <= keys_changed@.len(),
                forall|j: int| 0 <= j < i ==> key_accepted(st, wl, #[trigger] keys_changed@[j]@, tx_data@),
                forall|j: int| 0 <= j < clients@.len() ==> valid_client_id(#[trigger] clients@[j]@) && client_valid(st, wl, clients@[j]@, tx_data@),
                self.ctx.gas_meter.used <= old(self).ctx.gas_meter.used + keys_cost(st, wl, ks.subrange(0, i as int), tx_data@),
                !self.ctx.gas_meter.exhausted || old(self).ctx.gas_meter.exhausted,
            decreases keys_changed@.len() - i,
        {
            let key = &keys_changed[i];
            assert(ks[i as int] == key@);
            proof {
                assert(ks.subrange(0, i + 1).drop_last() =~= ks.subrange(0, i as int));
                lemma_keys_cost_prefix(st, wl, ks, tx_data@, i + 1);
                assert(keys_cost(st, wl, ks.subrange(0, i + 1), tx_data@) == keys_cost(st, wl, ks.subrange(0, i as int), tx_data@)
                    + key_cost(st, wl, key@, tx_data@));
                lemma_key_cost_nonneg(st, wl, key@, tx_data@);
            }
            if !Self::is_ibc_key(key) {
                i = i + 1;
                continue;
            }
            match Self::get_ibc_prefix(key) {
                IbcPrefix::Client => {
                    if key.same(&counter_key) {
                        let pre = match self.client_counter_pre() {
                            Ok(n) => n,
                            Err(e) => {
                                assert(self.ctx.gas_meter.exhausted || error_cause(st, wl, ks, tx_data@, e));
                                return Err(e);
                            },
                        };
                        let post = match self.client_counter() {
                            Ok(n) => n,
                            Err(e) => {
                                assert(self.ctx.gas_meter.exhausted || error_cause(st, wl, ks, tx_data@, e));
                                return Err(e);
                            },
                        };
                        if pre >= post {
                            assert(error_cause(st, wl, ks, tx_data@, Error::CounterError));
                            return Err(Error::CounterError);
                        }
                    } else {
                        let id = match Self::get_client_id(key) {
                            Ok(id) => id,
                            Err(e) => {
                                assert(error_cause(st, wl, ks, tx_data@, Error::ClientError(e)));
                                return Err(Error::ClientError(e));
                            },
                        };
                        let mut seen = false;
                        let mut j: usize = 0;
                        while j < clients.len()
                            invariant
                                0 <= j <= clients@.len(),
                                seen ==> exists|m: int| 0 <= m < clients@.len() && (#[trigger] clients@[m])@ == id@,
                            decreases clients@.len() - j,
                        {
                            if bytes_eq(clients[j].as_slice(), id.as_slice()) {
                                seen = true;
                            }
                            j = j + 1;
                        }
                        if !seen {
                            match self.validate_client(id.as_slice(), tx_data) {
                                Ok(()) => {},
                                Err(e) => {
                                    assert(self.ctx.gas_meter.exhausted || client_error_cause(st, wl, key@, tx_data@, e));
                                    assert(self.ctx.gas_meter.exhausted || error_cause(st, wl, ks, tx_data@, Error::ClientError(e)));
                                    return Err(Error::ClientError(e));
                                },
                            }
                            clients.push(id);
                        }
                    }
                },
                IbcPrefix::Port => {
                    match self.validate_port(key) {
                        Ok(()) => {},
                        Err(e) => {
                            assert(self.ctx.gas_meter.exhausted || error_cause(st, wl, ks, tx_data@, e));
                            return Err(e);
                        },
                    }
                },
                IbcPrefix::Capability => {
                    match self.validate_capability(key) {
                        Ok(()) => {},
                        Err(e) => {
                            assert(self.ctx.gas_meter.exhausted || error_cause(st, wl, ks, tx_data@, e));
                            return Err(e);
                        },
                    }
                },
                IbcPrefix::Connection => {
                    assert(error_cause(st, wl, ks, tx_data@, Error::ConnectionError));
                    return Err(Error::ConnectionError);
                },
                IbcPrefix::Channel => {
                    assert(error_cause(st, wl, ks, tx_data@, Error::ChannelError));
                    return Err(Error::ChannelError);
                },
                IbcPrefix::SeqSend | IbcPrefix::SeqRecv | IbcPrefix::SeqAck => {
                    assert(error_cause(st, wl, ks, tx_data@, Error::SequenceError));
                    return Err(Error::SequenceError);
                },
                IbcPrefix::Commitment | IbcPrefix::Receipt | IbcPrefix::Ack => {
                    assert(error_cause(st, wl, ks, tx_data@, Error::PacketError));
                    return Err(Error::PacketError);
                },
                IbcPrefix::Unknown => {
                    assert(error_cause(st, wl, ks, tx_data@, Error::KeyError));
                    return Err(Error::KeyError);
                },
            }
            i = i + 1;
        }
        proof {
            assert(ks.subrange(0, ks.len() as int) =~= ks);
        }
        Ok(true)
    }
}

} // verus!
