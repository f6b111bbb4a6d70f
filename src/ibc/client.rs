//! Validation of changes to IBC clients.
use vstd::prelude::*;
use crate::address::valid_id;
use crate::codec::{decode_byte_list, list_encoding, list_fits, len_prefixed, read_len_prefixed, slice_bytes, lemma_u32_le_bytes};
use crate::ibc::data::{
    client_state_key, client_type_encoding, client_type_text, client_type_key, consensus_state_key, decode_client_type,
    decode_state, height_lt, make_client_state_key, make_client_type_key, make_consensus_state_key,
    state_encoding, ClientState, ClientType, ConsensusState, Header, Height,
};
use crate::ibc::{Ibc, StateChange};
use crate::storage::Storage;
use crate::write_log::{post_read_gas, pre_read_gas, WriteLog};
use crate::key::Key;

verus! {

/// Why a change to a client was rejected.
#[derive(Debug, Clone, Copy, PartialEq, Eq, Structural)]
pub enum Error {
    /// The key names no valid client.
    InvalidKey,
    /// The client state was neither created nor updated, or the state could
    /// not be read.
    InvalidStateChange,
    /// A client's stored data is missing, undecodable or inconsistent.
    InvalidClient,
    /// A header could not be applied to the client.
    InvalidHeader,
    /// An upgrade could not be verified.
    ProofVerificationFailure,
    /// The transaction data is neither a client update nor a client upgrade.
    DecodingTxData,
    /// The client id in the transaction data is invalid.
    DecodingIbcData,
}

/// A byte that a client identifier may hold: a letter, a digit, or one of
/// `. _ + - # [ ] < >`.
pub open spec fn id_char(c: u8) -> bool {
    (48 <= c <= 57) || (65 <= c <= 90) || (97 <= c <= 122) || c == 46u8 || c == 95u8 || c == 43u8
        || c == 45u8 || c == 35u8 || c == 91u8 || c == 93u8 || c == 60u8 || c == 62u8
}

/// A client identifier: 1 to 64 identifier bytes.
pub open spec fn valid_client_id(s: Seq<u8>) -> bool {
    1 <= s.len() <= 64 && forall|i: int| 0 <= i < s.len() ==> id_char(#[trigger] s[i])
}

/// Apply one header to a client: the rule of the client's chain. A mock
/// client takes any mock header above its latest height; headers of other
/// clients cannot be checked here.
pub open spec fn check_header(cs: ClientState, h: Header) -> Option<(ClientState, ConsensusState)> {
    if cs.client_type == ClientType::Mock && h.client_type == ClientType::Mock && height_lt(
        cs.latest_height,
        h.height,
    ) {
        Some(
            (
                ClientState { client_type: ClientType::Mock, latest_height: h.height },
                ConsensusState { client_type: ClientType::Mock, height: h.height },
            ),
        )
    } else {
        None
    }
}

/// Apply headers in order, starting from a client and consensus state.
pub open spec fn fold_headers(cs: ClientState, cons: ConsensusState, hs: Seq<Header>) -> Option<
    (ClientState, ConsensusState),
>
    decreases hs.len(),
{
    if hs.len() == 0 {
        Some((cs, cons))
    } else {
        match fold_headers(cs, cons, hs.drop_last()) {
            Some((c, _)) => check_header(c, hs.last()),
            None => None,
        }
    }
}

/// The encodings of headers, in order.
pub open spec fn header_encodings(hs: Seq<Header>) -> Seq<Seq<u8>> {
    hs.map_values(|h: Header| state_encoding(h.client_type, h.height))
}

/// Client update data: the client id, then the list of header encodings.
pub open spec fn update_data_encoding(id: Seq<u8>, hs: Seq<Header>) -> Seq<u8> {
    len_prefixed(id) + list_encoding(header_encodings(hs))
}

/// Client upgrade data: the client id and the two upgrade proofs.
pub open spec fn upgrade_data_encoding(id: Seq<u8>, proof_client: Seq<u8>, proof_consensus: Seq<u8>) -> Seq<u8> {
    len_prefixed(id) + len_prefixed(proof_client) + len_prefixed(proof_consensus)
}

/// Whether client `id` holds a posterior value under `k` decoding to a state
/// of type `t` at height `h`.
pub open spec fn holds_state(v: Option<Seq<u8>>, t: ClientType, h: Height) -> bool {
    v == Some(state_encoding(t, h))
}

/// Whether every client identifier byte of `s` is valid.
pub fn is_valid_client_id(s: &[u8]) -> (r: bool)
    ensures
        r == valid_client_id(s@),
{
    if s.len() == 0 || s.len() > 64 {
        return false;
    }
    let mut i: usize = 0;
    while i < s.len()
        invariant
            0 <= i <= s@.len(),
            forall|j: int| 0 <= j < i ==> id_char(#[trigger] s@[j]),
        decreases s@.len() - i,
    {
        let c = s[i];
        let ok = (48 <= c && c <= 57) || (65 <= c && c <= 90) || (97 <= c && c <= 122) || c == 46u8
            || c == 95u8 || c == 43u8 || c == 45u8 || c == 35u8 || c == 91u8 || c == 93u8 || c == 60u8
            || c == 62u8;
        if !ok {
            return false;
        }
        i = i + 1;
    }
    true
}

pub proof fn lemma_client_id_valid(s: Seq<u8>)
    requires
        valid_client_id(s),
    ensures
        valid_id(s),
{
    assert forall|i: int| 0 <= i < s.len() implies s[i] != crate::address::SLASH by {
        assert(id_char(s[i]));
    }
}

/// The client id and the headers of update data fit their four-byte lengths.
pub open spec fn update_fits(id: Seq<u8>, hs: Seq<Header>) -> bool {
    id.len() <= u32::MAX && hs.len() <= u32::MAX
}

/// The id and the proofs of upgrade data fit their four-byte lengths.
pub open spec fn upgrade_fits(id: Seq<u8>, pc: Seq<u8>, pcs: Seq<u8>) -> bool {
    id.len() <= u32::MAX && pc.len() <= u32::MAX && pcs.len() <= u32::MAX
}

proof fn lemma_header_encodings_fit(hs: Seq<Header>)
    requires
        hs.len() <= u32::MAX,
    ensures
        list_fits(header_encodings(hs)),
{
    assert forall|i: int| 0 <= i < header_encodings(hs).len() implies (#[trigger] header_encodings(hs)[i]).len() <= u32::MAX by {
        let h = hs[i];
        assert(header_encodings(hs)[i] == state_encoding(h.client_type, h.height));
        crate::ibc::data::lemma_len_prefixed_parts(client_type_text(h.client_type));
    }
}

/// Decode client update data.
pub fn decode_update_data(tx_data: &[u8]) -> (r: Option<(Vec<u8>, Vec<Header>)>)
    ensures
        r matches Some((id, hs)) ==> update_data_encoding(id@, hs@) == tx_data@ && update_fits(id@, hs@),
        forall|id: Seq<u8>, hs: Seq<Header>| #[trigger] update_data_encoding(id, hs) == tx_data@ && update_fits(id, hs)
            ==> (r matches Some((i2, h2)) && i2@ == id && h2@ == hs),
{
    let ghost has = exists|id: Seq<u8>, hs: Seq<Header>| #[trigger] update_data_encoding(id, hs) == tx_data@ && update_fits(id, hs);
    let ghost (wid, whs) = if has {
        choose|id: Seq<u8>, hs: Seq<Header>| #[trigger] update_data_encoding(id, hs) == tx_data@ && update_fits(id, hs)
    } else {
        (Seq::empty(), Seq::empty())
    };
    proof {
        if has {
            crate::ibc::data::lemma_len_prefixed_parts(wid);
            lemma_header_encodings_fit(whs);
            assert(tx_data@.subrange(0, 4) == len_prefixed(wid).subrange(0, 4));
        }
    }
    let (id, end) = match read_len_prefixed(tx_data, 0) {
        Some(p) => p,
        None => {
            return None;
        },
    };
    let rest = slice_bytes(tx_data, end, tx_data.len());
    proof {
        lemma_u32_le_bytes(tx_data@.subrange(0, 4));
        assert(tx_data@ =~= len_prefixed(id@) + rest@);
        if has {
            crate::codec::lemma_len_prefixed_split(id@, rest@, wid, list_encoding(header_encodings(whs)));
        }
    }
    let list = match decode_byte_list(rest.as_slice()) {
        Some(l) => l,
        None => {
            return None;
        },
    };
    let ghost lv = list@.map_values(|v: Vec<u8>| v@);
    let mut hs: Vec<Header> = Vec::new();
    let mut i: usize = 0;
    while i < list.len()
        invariant
            0 <= i <= list@.len(),
            lv == list@.map_values(|v: Vec<u8>| v@),
            hs@.len() == i,
            forall|j: int| 0 <= j < i ==> state_encoding((#[trigger] hs@[j]).client_type, hs@[j].height) == lv[j],
            has == exists|id: Seq<u8>, hs: Seq<Header>| #[trigger] update_data_encoding(id, hs) == tx_data@ && update_fits(id, hs),
            has ==> lv == header_encodings(whs) && hs@ == whs.take(i as int),
        decreases list@.len() - i,
    {
        match decode_state(list[i].as_slice()) {
            Some((t, h)) => {
                proof {
                    if has {
                        assert(lv[i as int] == state_encoding(whs[i as int].client_type, whs[i as int].height));
                        assert(whs.take(i + 1) =~= whs.take(i as int).push(Header { client_type: t, height: h }));
                    }
                }
                hs.push(Header { client_type: t, height: h });
            },
            None => {
                proof {
                    if has {
                        assert(lv[i as int] == state_encoding(whs[i as int].client_type, whs[i as int].height));
                    }
                }
                return None;
            },
        }
        i = i + 1;
    }
    proof {
        assert(header_encodings(hs@) =~= lv);
        if has {
            assert(whs.take(whs.len() as int) =~= whs);
        }
        assert forall|id2: Seq<u8>, hs2: Seq<Header>| #[trigger] update_data_encoding(id2, hs2) == tx_data@ && update_fits(id2, hs2)
            implies id@ == id2 && hs@ == hs2 by {
            lemma_header_encodings_fit(hs2);
            crate::codec::lemma_len_prefixed_split(id@, rest@, id2, list_encoding(header_encodings(hs2)));
            lemma_header_encodings_fit(hs@);
            crate::codec::lemma_list_encoding_injective(lv, header_encodings(hs2));
            assert forall|j: int| 0 <= j < hs@.len() implies hs@[j] == hs2[j] by {
                assert(header_encodings(hs2)[j] == state_encoding(hs2[j].client_type, hs2[j].height));
                crate::ibc::data::lemma_state_encoding_injective(hs@[j].client_type, hs@[j].height, hs2[j].client_type, hs2[j].height);
            }
            assert(hs@ =~= hs2);
        }
    }
    Some((id, hs))
}

/// Decode client upgrade data.
#[verifier::rlimit(80)]
pub fn decode_upgrade_data(tx_data: &[u8]) -> (r: Option<(Vec<u8>, Vec<u8>, Vec<u8>)>)
    ensures
        r matches Some((id, pc, pcs)) ==> upgrade_data_encoding(id@, pc@, pcs@) == tx_data@ && upgrade_fits(id@, pc@, pcs@),
        forall|id: Seq<u8>, pc: Seq<u8>, pcs: Seq<u8>| #[trigger] upgrade_data_encoding(id, pc, pcs) == tx_data@
            && upgrade_fits(id, pc, pcs) ==> (r matches Some((i2, _, _)) && i2@ == id),
{
    let ghost has = exists|id: Seq<u8>, pc: Seq<u8>, pcs: Seq<u8>| #[trigger] upgrade_data_encoding(id, pc, pcs) == tx_data@ && upgrade_fits(id, pc, pcs);
    let ghost (wid, wpc, wpcs) = if has {
        choose|id: Seq<u8>, pc: Seq<u8>, pcs: Seq<u8>| #[trigger] upgrade_data_encoding(id, pc, pcs) == tx_data@ && upgrade_fits(id, pc, pcs)
    } else {
        (Seq::empty(), Seq::empty(), Seq::empty())
    };
    proof {
        if has {
            crate::ibc::data::lemma_len_prefixed_parts(wid);
            assert(tx_data@.subrange(0, 4) == len_prefixed(wid).subrange(0, 4));
        }
    }
    let (id, e1) = match read_len_prefixed(tx_data, 0) {
        Some(p) => p,
        None => {
            return None;
        },
    };
    proof {
        lemma_u32_le_bytes(tx_data@.subrange(0, 4));
        assert(len_prefixed(id@) =~= tx_data@.subrange(0, e1 as int));
        assert(tx_data@ =~= len_prefixed(id@) + tx_data@.subrange(e1 as int, tx_data@.len() as int));
        if has {
            assert(upgrade_data_encoding(wid, wpc, wpcs) =~= len_prefixed(wid) + (len_prefixed(wpc) + len_prefixed(wpcs)));
            crate::codec::lemma_len_prefixed_split(id@, tx_data@.subrange(e1 as int, tx_data@.len() as int), wid, len_prefixed(wpc) + len_prefixed(wpcs));
            crate::ibc::data::lemma_len_prefixed_parts(wpc);
            let r1 = tx_data@.subrange(e1 as int, tx_data@.len() as int);
            assert(tx_data@.subrange(e1 as int, e1 + 4) == r1.subrange(0, 4));
            assert(r1.subrange(0, 4) == len_prefixed(wpc).subrange(0, 4));
        }
    }
    let (pc, e2) = match read_len_prefixed(tx_data, e1) {
        Some(p) => p,
        None => {
            return None;
        },
    };
    proof {
        lemma_u32_le_bytes(tx_data@.subrange(e1 as int, e1 + 4));
        assert(len_prefixed(pc@) =~= tx_data@.subrange(e1 as int, e2 as int));
        assert(tx_data@.subrange(e1 as int, tx_data@.len() as int) =~= len_prefixed(pc@) + tx_data@.subrange(e2 as int, tx_data@.len() as int));
        if has {
            crate::codec::lemma_len_prefixed_split(pc@, tx_data@.subrange(e2 as int, tx_data@.len() as int), wpc, len_prefixed(wpcs));
            crate::ibc::data::lemma_len_prefixed_parts(wpcs);
            let r2 = tx_data@.subrange(e2 as int, tx_data@.len() as int);
            assert(tx_data@.subrange(e2 as int, e2 + 4) == r2.subrange(0, 4));
            assert(r2.subrange(0, 4) == len_prefixed(wpcs).subrange(0, 4));
        }
    }
    let (pcs, e3) = match read_len_prefixed(tx_data, e2) {
        Some(p) => p,
        None => {
            return None;
        },
    };
    proof {
        lemma_u32_le_bytes(tx_data@.subrange(e2 as int, e2 + 4));
        assert(len_prefixed(pcs@) =~= tx_data@.subrange(e2 as int, e3 as int));
        assert(tx_data@.subrange(e2 as int, tx_data@.len() as int) =~= len_prefixed(pcs@) + tx_data@.subrange(e3 as int, tx_data@.len() as int));
        if has {
            crate::codec::lemma_len_prefixed_split(pcs@, tx_data@.subrange(e3 as int, tx_data@.len() as int), wpcs, Seq::empty());
        }
    }
    if e3 != tx_data.len() {
        return None;
    }
    proof {
        assert(tx_data@ =~= tx_data@.subrange(0, e1 as int) + tx_data@.subrange(e1 as int, e2 as int)
            + tx_data@.subrange(e2 as int, e3 as int));
        assert forall|id2: Seq<u8>, pc2: Seq<u8>, pcs2: Seq<u8>| #[trigger] upgrade_data_encoding(id2, pc2, pcs2) == tx_data@
            && upgrade_fits(id2, pc2, pcs2) implies id@ == id2 by {
            assert(upgrade_data_encoding(id2, pc2, pcs2) =~= len_prefixed(id2) + (len_prefixed(pc2) + len_prefixed(pcs2)));
            assert(tx_data@ =~= len_prefixed(id@) + (len_prefixed(pc@) + len_prefixed(pcs@)));
            crate::codec::lemma_len_prefixed_split(id@, len_prefixed(pc@) + len_prefixed(pcs@), id2, len_prefixed(pc2) + len_prefixed(pcs2));
        }
    }
    Some((id, pc, pcs))
}

/// Apply one header to a client.
pub fn check_header_and_update_state(cs: ClientState, h: Header) -> (r: Option<(ClientState, ConsensusState)>)
    ensures
        r == check_header(cs, h),
{
    let above = cs.latest_height.revision_number < h.height.revision_number || (
    cs.latest_height.revision_number == h.height.revision_number && cs.latest_height.revision_height
        < h.height.revision_height);
    match (cs.client_type, h.client_type) {
        (ClientType::Mock, ClientType::Mock) => {
            if above {
                Some(
                    (
                        ClientState { client_type: ClientType::Mock, latest_height: h.height },
                        ConsensusState { client_type: ClientType::Mock, height: h.height },
                    ),
                )
            } else {
                None
            }
        },
        _ => None,
    }
}

/// Apply headers in order.
pub fn apply_headers(cs: ClientState, cons: ConsensusState, hs: &Vec<Header>) -> (r: Option<(ClientState, ConsensusState)>)
    ensures
        r == fold_headers(cs, cons, hs@),
{
    let mut cur = (cs, cons);
    let mut i: usize = 0;
    while i < hs.len()
        invariant
            0 <= i <= hs@.len(),
            fold_headers(cs, cons, hs@.subrange(0, i as int)) == Some(cur),
        decreases hs@.len() - i,
    {
        assert(hs@.subrange(0, i + 1).drop_last() =~= hs@.subrange(0, i as int));
        match check_header_and_update_state(cur.0, hs[i]) {
            Some(next) => {
                cur = next;
            },
            None => {
                proof {
                    lemma_fold_none(cs, cons, hs@, i as int + 1);
                }
                assert(hs@.subrange(0, hs@.len() as int) =~= hs@);
                return None;
            },
        }
        i = i + 1;
    }
    assert(hs@.subrange(0, hs@.len() as int) =~= hs@);
    Some(cur)
}

/// Once a prefix of the headers fails, the whole sequence fails.
pub proof fn lemma_fold_none(cs: ClientState, cons: ConsensusState, hs: Seq<Header>, n: int)
    requires
        0 <= n <= hs.len(),
        fold_headers(cs, cons, hs.subrange(0, n)) is None,
    ensures
        fold_headers(cs, cons, hs) is None,
    decreases hs.len() - n,
{
    if n < hs.len() {
        assert(hs.subrange(0, n + 1).drop_last() =~= hs.subrange(0, n));
        lemma_fold_none(cs, cons, hs, n + 1);
    } else {
        assert(hs.subrange(0, n) =~= hs);
    }
}

/// The client was created with agreeing client type, client state and
/// consensus state at the client's latest height.
pub open spec fn created_ok(st: Storage, wl: WriteLog, id: Seq<u8>) -> bool {
    exists|t: ClientType, h: Height, ch: Height|
        #![trigger holds_state(wl.post_value(&st, client_state_key(id)), t, h), holds_state(wl.post_value(&st, consensus_state_key(id, h)), t, ch)]
        wl.post_value(&st, client_type_key(id)) == Some(client_type_encoding(t)) && holds_state(
            wl.post_value(&st, client_state_key(id)),
            t,
            h,
        ) && holds_state(wl.post_value(&st, consensus_state_key(id, h)), t, ch)
}

/// The posterior client and consensus state of `id` are those that folding
/// the headers of the update into the prior states gives.
pub open spec fn update_ok(st: Storage, wl: WriteLog, id: Seq<u8>, hs: Seq<Header>) -> bool {
    exists|pt: ClientType, ph: Height, pct: ClientType, pch: Height, t: ClientType, h: Height, ct: ClientType, ch: Height|
        #![trigger holds_state(st.value_of(client_state_key(id)), pt, ph), holds_state(wl.post_value(&st, client_state_key(id)), t, h), holds_state(st.value_of(consensus_state_key(id, ph)), pct, pch), holds_state(wl.post_value(&st, consensus_state_key(id, h)), ct, ch)]
        holds_state(st.value_of(client_state_key(id)), pt, ph) && holds_state(
            st.value_of(consensus_state_key(id, ph)),
            pct,
            pch,
        ) && holds_state(wl.post_value(&st, client_state_key(id)), t, h) && holds_state(
            wl.post_value(&st, consensus_state_key(id, h)),
            ct,
            ch,
        ) && fold_headers(
            ClientState { client_type: pt, latest_height: ph },
            ConsensusState { client_type: pct, height: pch },
            hs,
        ) == Some(
            (
                ClientState { client_type: t, latest_height: h },
                ConsensusState { client_type: ct, height: ch },
            ),
        )
}

/// An upgrade of a mock client leaves its client state as it was.
pub open spec fn upgrade_ok(st: Storage, wl: WriteLog, id: Seq<u8>) -> bool {
    exists|t: ClientType, h: Height, ct: ClientType, ch: Height|
        #![trigger holds_state(wl.post_value(&st, client_state_key(id)), t, h), holds_state(wl.post_value(&st, consensus_state_key(id, h)), ct, ch)]
        t == ClientType::Mock && holds_state(st.value_of(client_state_key(id)), t, h) && holds_state(
            wl.post_value(&st, client_state_key(id)),
            t,
            h,
        ) && holds_state(wl.post_value(&st, consensus_state_key(id, h)), ct, ch)
}

/// The transaction data is an update of client `id` by headers that turn
/// the prior into the posterior client state.
pub open spec fn valid_update(st: Storage, wl: WriteLog, id: Seq<u8>, tx_data: Seq<u8>) -> bool {
    exists|hs: Seq<Header>| update_fits(id, hs) && update_data_encoding(id, hs) == tx_data && #[trigger] update_ok(st, wl, id, hs)
}

/// The transaction data is no update data but an upgrade of client `id`,
/// and the upgrade holds.
pub open spec fn valid_upgrade(st: Storage, wl: WriteLog, id: Seq<u8>, tx_data: Seq<u8>) -> bool {
    &&& !exists|id2: Seq<u8>, hs: Seq<Header>| #[trigger] update_data_encoding(id2, hs) == tx_data && update_fits(id2, hs)
    &&& exists|pc: Seq<u8>, pcs: Seq<u8>| #[trigger] upgrade_data_encoding(id, pc, pcs) == tx_data && upgrade_fits(id, pc, pcs)
    &&& upgrade_ok(st, wl, id)
}

/// The change of client `id` is valid: a consistent creation, or an update or
/// upgrade that the transaction data justifies.
pub open spec fn client_valid(st: Storage, wl: WriteLog, id: Seq<u8>, tx_data: Seq<u8>) -> bool {
    let pre = st.value_of(client_state_key(id)) is Some;
    let post = wl.post_value(&st, client_state_key(id)) is Some;
    ||| (!pre && post && created_ok(st, wl, id))
    ||| (pre && post && (valid_update(st, wl, id, tx_data) || valid_upgrade(st, wl, id, tx_data)))
}

/// The height of the state stored as `v`, where `v` holds one.
pub open spec fn decoded_height(v: Option<Seq<u8>>) -> Height {
    decoded_state(v).1
}

/// The client type and height of the state stored as `v`, where `v` holds one.
pub open spec fn decoded_state(v: Option<Seq<u8>>) -> (ClientType, Height) {
    choose|p: (ClientType, Height)| #[trigger] holds_state(v, p.0, p.1)
}

pub proof fn lemma_decoded_height(v: Option<Seq<u8>>, t: ClientType, h: Height)
    requires
        holds_state(v, t, h),
    ensures
        decoded_height(v) == h,
{
    assert(holds_state(v, (t, h).0, (t, h).1));
    let p = decoded_state(v);
    crate::ibc::data::lemma_state_encoding_injective(t, h, p.0, p.1);
}

/// Gas of checking a created client.
pub open spec fn created_cost(st: Storage, wl: WriteLog, id: Seq<u8>) -> int {
    post_read_gas(wl, st, client_type_key(id)) + post_read_gas(wl, st, client_state_key(id)) + post_read_gas(
        wl,
        st,
        consensus_state_key(id, decoded_height(wl.post_value(&st, client_state_key(id)))),
    )
}

/// Gas of checking an update (or, within it, an upgrade) of a client.
pub open spec fn update_cost(st: Storage, wl: WriteLog, id: Seq<u8>) -> int {
    post_read_gas(wl, st, client_state_key(id)) + post_read_gas(
        wl,
        st,
        consensus_state_key(id, decoded_height(wl.post_value(&st, client_state_key(id)))),
    ) + pre_read_gas(st, client_state_key(id)) + pre_read_gas(
        st,
        consensus_state_key(id, decoded_height(st.value_of(client_state_key(id)))),
    )
}

/// Gas of checking the change of client `id`.
pub open spec fn client_cost(st: Storage, wl: WriteLog, id: Seq<u8>) -> int {
    crate::ibc::state_change_gas(st, wl, client_state_key(id)) + if st.value_of(client_state_key(id)) is None {
        created_cost(st, wl, id)
    } else {
        update_cost(st, wl, id)
    }
}

impl<'a> Ibc<'a> {
    /// The client id of a key under `#IBC/clients`.
    pub fn get_client_id(key: &Key) -> (r: Result<Vec<u8>, Error>)
        ensures
            r matches Ok(id) ==> key@.len() >= 3 && id@ == key@[2] && valid_client_id(id@),
            r is Err <==> !(key@.len() >= 3 && valid_client_id(key@[2])),
            r is Err ==> r == Err::<Vec<u8>, Error>(Error::InvalidKey),
    {
        match key.segment(2) {
            Some(id) => {
                if is_valid_client_id(id.as_slice()) {
                    Ok(id)
                } else {
                    Err(Error::InvalidKey)
                }
            },
            None => Err(Error::InvalidKey),
        }
    }

    /// The posterior type of client `id`.
    pub fn client_type(&mut self, id: &[u8]) -> (r: Option<ClientType>)
        requires
            old(self).ctx.wf(),
            valid_id(id@),
        ensures
            r is Some ==> !final(self).ctx.gas_meter.exhausted,
            final(self).ctx.meter_follows(&old(self).ctx),
            r matches Some(t) ==> old(self).ctx.post(client_type_key(id@)) == Some(client_type_encoding(t)),
            forall|t: ClientType| old(self).ctx.post(client_type_key(id@)) == Some(#[trigger] client_type_encoding(t))
                ==> r == Some(t) || final(self).ctx.gas_meter.exhausted,
            final(self).ctx.gas_meter.used <= old(self).ctx.gas_meter.used + post_read_gas(*old(self).ctx.write_log, *old(self).ctx.storage, client_type_key(id@)),
            old(self).ctx.gas_meter.can_pay(post_read_gas(*old(self).ctx.write_log, *old(self).ctx.storage, client_type_key(id@))) ==> !final(self).ctx.gas_meter.exhausted,
    {
        let key = make_client_type_key(id);
        match self.ctx.read_post(&key) {
            Ok(Some(v)) => decode_client_type(v.as_slice()),
            _ => None,
        }
    }

    /// The posterior state of client `id`.
    pub fn client_state(&mut self, id: &[u8]) -> (r: Option<ClientState>)
        requires
            old(self).ctx.wf(),
            valid_id(id@),
        ensures
            r is Some ==> !final(self).ctx.gas_meter.exhausted,
            final(self).ctx.meter_follows(&old(self).ctx),
            r matches Some(cs) ==> holds_state(old(self).ctx.post(client_state_key(id@)), cs.client_type, cs.latest_height),
            forall|t: ClientType, h: Height| #[trigger] holds_state(old(self).ctx.post(client_state_key(id@)), t, h)
                ==> r == Some(ClientState { client_type: t, latest_height: h }) || final(self).ctx.gas_meter.exhausted,
            final(self).ctx.gas_meter.used <= old(self).ctx.gas_meter.used + post_read_gas(*old(self).ctx.write_log, *old(self).ctx.storage, client_state_key(id@)),
            old(self).ctx.gas_meter.can_pay(post_read_gas(*old(self).ctx.write_log, *old(self).ctx.storage, client_state_key(id@))) ==> !final(self).ctx.gas_meter.exhausted,
    {
        let key = make_client_state_key(id);
        match self.ctx.read_post(&key) {
            Ok(Some(v)) => match decode_state(v.as_slice()) {
                Some((t, h)) => Some(ClientState { client_type: t, latest_height: h }),
                None => None,
            },
            _ => None,
        }
    }

    /// The posterior consensus state of client `id` at height `h`.
    pub fn consensus_state(&mut self, id: &[u8], h: Height) -> (r: Option<ConsensusState>)
        requires
            old(self).ctx.wf(),
            valid_id(id@),
        ensures
            r is Some ==> !final(self).ctx.gas_meter.exhausted,
            final(self).ctx.meter_follows(&old(self).ctx),
            r matches Some(c) ==> holds_state(old(self).ctx.post(consensus_state_key(id@, h)), c.client_type, c.height),
            forall|t: ClientType, ch: Height| #[trigger] holds_state(old(self).ctx.post(consensus_state_key(id@, h)), t, ch)
                ==> r == Some(ConsensusState { client_type: t, height: ch }) || final(self).ctx.gas_meter.exhausted,
            final(self).ctx.gas_meter.used <= old(self).ctx.gas_meter.used + post_read_gas(*old(self).ctx.write_log, *old(self).ctx.storage, consensus_state_key(id@, h)),
            old(self).ctx.gas_meter.can_pay(post_read_gas(*old(self).ctx.write_log, *old(self).ctx.storage, consensus_state_key(id@, h))) ==> !final(self).ctx.gas_meter.exhausted,
    {
        let key = make_consensus_state_key(id, h);
        match self.ctx.read_post(&key) {
            Ok(Some(v)) => match decode_state(v.as_slice()) {
                Some((t, ch)) => Some(ConsensusState { client_type: t, height: ch }),
                None => None,
            },
            _ => None,
        }
    }

    /// The prior state of client `id`.
    pub fn client_state_pre(&mut self, id: &[u8]) -> (r: Result<ClientState, Error>)
        requires
            old(self).ctx.wf(),
            valid_id(id@),
        ensures
            r is Ok ==> !final(self).ctx.gas_meter.exhausted,
            final(self).ctx.meter_follows(&old(self).ctx),
            r matches Ok(cs) ==> holds_state(old(self).ctx.pre(client_state_key(id@)), cs.client_type, cs.latest_height),
            forall|t: ClientType, h: Height| #[trigger] holds_state(old(self).ctx.pre(client_state_key(id@)), t, h)
                ==> r == Ok::<ClientState, Error>(ClientState { client_type: t, latest_height: h }) || final(self).ctx.gas_meter.exhausted,
            r is Err ==> r == Err::<ClientState, Error>(Error::InvalidClient),
            final(self).ctx.gas_meter.used <= old(self).ctx.gas_meter.used + pre_read_gas(*old(self).ctx.storage, client_state_key(id@)),
            old(self).ctx.gas_meter.can_pay(pre_read_gas(*old(self).ctx.storage, client_state_key(id@))) ==> !final(self).ctx.gas_meter.exhausted,
    {
        let key = make_client_state_key(id);
        match self.ctx.read_pre(&key) {
            Ok(Some(v)) => match decode_state(v.as_slice()) {
                Some((t, h)) => Ok(ClientState { client_type: t, latest_height: h }),
                None => Err(Error::InvalidClient),
            },
            _ => Err(Error::InvalidClient),
        }
    }

    /// The prior consensus state of client `id` at height `h`.
    pub fn consensus_state_pre(&mut self, id: &[u8], h: Height) -> (r: Result<ConsensusState, Error>)
        requires
            old(self).ctx.wf(),
            valid_id(id@),
        ensures
            r is Ok ==> !final(self).ctx.gas_meter.exhausted,
            final(self).ctx.meter_follows(&old(self).ctx),
            r matches Ok(c) ==> holds_state(old(self).ctx.pre(consensus_state_key(id@, h)), c.client_type, c.height),
            forall|t: ClientType, ch: Height| #[trigger] holds_state(old(self).ctx.pre(consensus_state_key(id@, h)), t, ch)
                ==> r == Ok::<ConsensusState, Error>(ConsensusState { client_type: t, height: ch }) || final(self).ctx.gas_meter.exhausted,
            r is Err ==> r == Err::<ConsensusState, Error>(Error::InvalidClient),
            final(self).ctx.gas_meter.used <= old(self).ctx.gas_meter.used + pre_read_gas(*old(self).ctx.storage, consensus_state_key(id@, h)),
            old(self).ctx.gas_meter.can_pay(pre_read_gas(*old(self).ctx.storage, consensus_state_key(id@, h))) ==> !final(self).ctx.gas_meter.exhausted,
    {
        let key = make_consensus_state_key(id, h);
        match self.ctx.read_pre(&key) {
            Ok(Some(v)) => match decode_state(v.as_slice()) {
                Some((t, ch)) => Ok(ConsensusState { client_type: t, height: ch }),
                None => Err(Error::InvalidClient),
            },
            _ => Err(Error::InvalidClient),
        }
    }

    /// Check a newly created client.
    pub fn validate_created_client(&mut self, id: &[u8]) -> (r: Result<(), Error>)
        requires
            old(self).ctx.wf(),
            valid_id(id@),
        ensures
            r is Ok ==> !final(self).ctx.gas_meter.exhausted,
            !(r matches Err(Error::InvalidKey)),
            final(self).ctx.meter_follows(&old(self).ctx),
            r is Ok ==> created_ok(*old(self).ctx.storage, *old(self).ctx.write_log, id@),
            created_ok(*old(self).ctx.storage, *old(self).ctx.write_log, id@) ==> r is Ok || final(self).ctx.gas_meter.exhausted,
            created_ok(*old(self).ctx.storage, *old(self).ctx.write_log, id@) && old(self).ctx.gas_meter.can_pay(
                created_cost(*old(self).ctx.storage, *old(self).ctx.write_log, id@),
            ) ==> r is Ok,
            final(self).ctx.gas_meter.used <= old(self).ctx.gas_meter.used + created_cost(
                *old(self).ctx.storage,
                *old(self).ctx.write_log,
                id@,
            ),
            r is Err ==> r == Err::<(), Error>(Error::InvalidClient),
    {
        let t = match self.client_type(id) {
            Some(t) => t,
            None => {
                return Err(Error::InvalidClient);
            },
        };
        let cs = match self.client_state(id) {
            Some(cs) => cs,
            None => {
                return Err(Error::InvalidClient);
            },
        };
        proof {
            lemma_decoded_height(old(self).ctx.post(client_state_key(id@)), cs.client_type, cs.latest_height);
        }
        let cons = match self.consensus_state(id, cs.latest_height) {
            Some(c) => c,
            None => {
                return Err(Error::InvalidClient);
            },
        };
        if t == cs.client_type && t == cons.client_type {
            assert(holds_state(old(self).ctx.post(client_state_key(id@)), t, cs.latest_height));
            assert(holds_state(old(self).ctx.post(consensus_state_key(id@, cs.latest_height)), t, cons.height));
            Ok(())
        } else {
            Err(Error::InvalidClient)
        }
    }

    /// Check an update of client `id` by headers.
    pub fn verify_update_client(&mut self, id: &[u8], data_id: &[u8], headers: &Vec<Header>) -> (r: Result<(), Error>)
        requires
            old(self).ctx.wf(),
            valid_client_id(id@),
        ensures
            r is Ok ==> !final(self).ctx.gas_meter.exhausted,
            !(r matches Err(Error::InvalidKey)),
            final(self).ctx.meter_follows(&old(self).ctx),
            r is Ok ==> data_id@ == id@ && update_ok(*old(self).ctx.storage, *old(self).ctx.write_log, id@, headers@),
            data_id@ == id@ && update_ok(*old(self).ctx.storage, *old(self).ctx.write_log, id@, headers@) ==> r is Ok
                || final(self).ctx.gas_meter.exhausted,
            data_id@ == id@ && update_ok(*old(self).ctx.storage, *old(self).ctx.write_log, id@, headers@)
                && old(self).ctx.gas_meter.can_pay(update_cost(*old(self).ctx.storage, *old(self).ctx.write_log, id@)) ==> r is Ok,
            final(self).ctx.gas_meter.used <= old(self).ctx.gas_meter.used + update_cost(
                *old(self).ctx.storage,
                *old(self).ctx.write_log,
                id@,
            ),
            r matches Err(e) ==> (e is DecodingIbcData && !valid_client_id(data_id@)) || (e is InvalidHeader && exists|
                pt: ClientType,
                ph: Height,
                pct: ClientType,
                pch: Height,
            |
                #![trigger holds_state(old(self).ctx.pre(client_state_key(id@)), pt, ph), holds_state(old(self).ctx.pre(consensus_state_key(id@, ph)), pct, pch)]
                holds_state(old(self).ctx.pre(client_state_key(id@)), pt, ph) && holds_state(
                    old(self).ctx.pre(consensus_state_key(id@, ph)),
                    pct,
                    pch,
                ) && fold_headers(
                    ClientState { client_type: pt, latest_height: ph },
                    ConsensusState { client_type: pct, height: pch },
                    headers@,
                ) is None) || (e is InvalidClient && (final(self).ctx.gas_meter.exhausted || data_id@ != id@ || !update_ok(
                *old(self).ctx.storage,
                *old(self).ctx.write_log,
                id@,
                headers@,
            ))),
            !(r matches Err(Error::InvalidStateChange)),
    {
        proof {
            lemma_client_id_valid(id@);
        }
        if !is_valid_client_id(data_id) {
            return Err(Error::DecodingIbcData);
        }
        if !crate::codec::bytes_eq(data_id, id) {
            return Err(Error::InvalidClient);
        }
        let cs = match self.client_state(id) {
            Some(cs) => cs,
            None => {
                return Err(Error::InvalidClient);
            },
        };
        proof {
            lemma_decoded_height(old(self).ctx.post(client_state_key(id@)), cs.client_type, cs.latest_height);
        }
        let cons = match self.consensus_state(id, cs.latest_height) {
            Some(c) => c,
            None => {
                return Err(Error::InvalidClient);
            },
        };
        let prev_cs = self.client_state_pre(id)?;
        proof {
            lemma_decoded_height(old(self).ctx.pre(client_state_key(id@)), prev_cs.client_type, prev_cs.latest_height);
        }
        let prev_cons = self.consensus_state_pre(id, prev_cs.latest_height)?;
        match apply_headers(prev_cs, prev_cons, headers) {
            Some((new_cs, new_cons)) => {
                if new_cs == cs && new_cons == cons {
                    assert(holds_state(old(self).ctx.pre(client_state_key(id@)), prev_cs.client_type, prev_cs.latest_height));
                    assert(holds_state(old(self).ctx.post(client_state_key(id@)), cs.client_type, cs.latest_height));
                    assert(holds_state(old(self).ctx.pre(consensus_state_key(id@, prev_cs.latest_height)), prev_cons.client_type, prev_cons.height));
                    assert(holds_state(old(self).ctx.post(consensus_state_key(id@, cs.latest_height)), cons.client_type, cons.height));
                    Ok(())
                } else {
                    Err(Error::InvalidClient)
                }
            },
            None => Err(Error::InvalidHeader),
        }
    }

    /// Check an upgrade of client `id`.
    pub fn verify_upgrade_client(&mut self, id: &[u8], data_id: &[u8]) -> (r: Result<(), Error>)
        requires
            old(self).ctx.wf(),
            valid_client_id(id@),
        ensures
            r is Ok ==> !final(self).ctx.gas_meter.exhausted,
            !(r matches Err(Error::InvalidKey)),
            final(self).ctx.meter_follows(&old(self).ctx),
            r is Ok ==> data_id@ == id@ && upgrade_ok(*old(self).ctx.storage, *old(self).ctx.write_log, id@),
            data_id@ == id@ && upgrade_ok(*old(self).ctx.storage, *old(self).ctx.write_log, id@) ==> r is Ok
                || final(self).ctx.gas_meter.exhausted,
            data_id@ == id@ && upgrade_ok(*old(self).ctx.storage, *old(self).ctx.write_log, id@)
                && old(self).ctx.gas_meter.can_pay(update_cost(*old(self).ctx.storage, *old(self).ctx.write_log, id@)) ==> r is Ok,
            final(self).ctx.gas_meter.used <= old(self).ctx.gas_meter.used + update_cost(
                *old(self).ctx.storage,
                *old(self).ctx.write_log,
                id@,
            ),
            r matches Err(e) ==> (e is DecodingIbcData && !valid_client_id(data_id@)) || (e is ProofVerificationFailure
                && exists|h: Height| #[trigger] holds_state(old(self).ctx.pre(client_state_key(id@)), ClientType::Tendermint, h))
                || (e is InvalidClient && (final(self).ctx.gas_meter.exhausted || data_id@ != id@ || !upgrade_ok(
                *old(self).ctx.storage,
                *old(self).ctx.write_log,
                id@,
            ))),
            !(r matches Err(Error::InvalidStateChange)),
    {
        proof {
            lemma_client_id_valid(id@);
        }
        if !is_valid_client_id(data_id) {
            return Err(Error::DecodingIbcData);
        }
        if !crate::codec::bytes_eq(data_id, id) {
            return Err(Error::InvalidClient);
        }
        let cs = match self.client_state(id) {
            Some(cs) => cs,
            None => {
                return Err(Error::InvalidClient);
            },
        };
        proof {
            lemma_decoded_height(old(self).ctx.post(client_state_key(id@)), cs.client_type, cs.latest_height);
        }
        let cons = match self.consensus_state(id, cs.latest_height) {
            Some(c) => c,
            None => {
                return Err(Error::InvalidClient);
            },
        };
        let pre_cs = self.client_state_pre(id)?;
        match pre_cs.client_type {
            ClientType::Mock => {
                if pre_cs == cs {
                    assert(holds_state(old(self).ctx.post(client_state_key(id@)), cs.client_type, cs.latest_height));
                    assert(holds_state(old(self).ctx.post(consensus_state_key(id@, cs.latest_height)), cons.client_type, cons.height));
                    Ok(())
                } else {
                    Err(Error::InvalidClient)
                }
            },
            ClientType::Tendermint => Err(Error::ProofVerificationFailure),
        }
    }

    /// Check an updated client against the transaction data.
    pub fn validate_updated_client(&mut self, id: &[u8], tx_data: &[u8]) -> (r: Result<(), Error>)
        requires
            old(self).ctx.wf(),
            valid_client_id(id@),
        ensures
            r is Ok ==> !final(self).ctx.gas_meter.exhausted,
            !(r matches Err(Error::InvalidKey)),
            final(self).ctx.meter_follows(&old(self).ctx),
            r is Ok ==> valid_update(*old(self).ctx.storage, *old(self).ctx.write_log, id@, tx_data@)
                || valid_upgrade(*old(self).ctx.storage, *old(self).ctx.write_log, id@, tx_data@),
            valid_update(*old(self).ctx.storage, *old(self).ctx.write_log, id@, tx_data@)
                || valid_upgrade(*old(self).ctx.storage, *old(self).ctx.write_log, id@, tx_data@) ==> r is Ok
                || final(self).ctx.gas_meter.exhausted,
            (valid_update(*old(self).ctx.storage, *old(self).ctx.write_log, id@, tx_data@)
                || valid_upgrade(*old(self).ctx.storage, *old(self).ctx.write_log, id@, tx_data@))
                && old(self).ctx.gas_meter.can_pay(update_cost(*old(self).ctx.storage, *old(self).ctx.write_log, id@)) ==> r is Ok,
            final(self).ctx.gas_meter.used <= old(self).ctx.gas_meter.used + update_cost(
                *old(self).ctx.storage,
                *old(self).ctx.write_log,
                id@,
            ),
            !(r matches Err(Error::InvalidStateChange)),
    {
        proof {
            lemma_client_id_valid(id@);
        }
        let ghost st = *old(self).ctx.storage;
        let ghost wl = *old(self).ctx.write_log;
        match decode_update_data(tx_data) {
            Some((data_id, headers)) => {
                proof {
                    if valid_update(st, wl, id@, tx_data@) {
                        let hs = choose|hs: Seq<Header>| update_fits(id@, hs) && update_data_encoding(id@, hs) == tx_data@ && #[trigger] update_ok(st, wl, id@, hs);
                        assert(data_id@ == id@ && headers@ == hs);
                    }
                    assert(!valid_upgrade(st, wl, id@, tx_data@));
                }
                let r = self.verify_update_client(id, data_id.as_slice(), &headers);
                proof {
                    if r is Ok {
                        assert(update_ok(st, wl, id@, headers@));
                    }
                }
                r
            },
            None => match decode_upgrade_data(tx_data) {
                Some((data_id, pc, pcs)) => {
                    proof {
                        assert(!valid_update(st, wl, id@, tx_data@));
                        if valid_upgrade(st, wl, id@, tx_data@) {
                            let (a, b) = choose|pc: Seq<u8>, pcs: Seq<u8>| #[trigger] upgrade_data_encoding(id@, pc, pcs) == tx_data@ && upgrade_fits(id@, pc, pcs);
                            assert(data_id@ == id@);
                        }
                    }
                    let r = self.verify_upgrade_client(id, data_id.as_slice());
                    proof {
                        if r is Ok {
                            assert(upgrade_data_encoding(id@, pc@, pcs@) == tx_data@);
                        }
                    }
                    r
                },
                None => {
                    proof {
                        assert(!valid_update(st, wl, id@, tx_data@));
                    }
                    Err(Error::DecodingTxData)
                },
            },
        }
    }

    /// Check the change of client `id`.
    pub fn validate_client(&mut self, id: &[u8], tx_data: &[u8]) -> (r: Result<(), Error>)
        requires
            old(self).ctx.wf(),
            valid_client_id(id@),
        ensures
            r is Ok ==> !final(self).ctx.gas_meter.exhausted,
            final(self).ctx.meter_follows(&old(self).ctx),
            r is Ok ==> client_valid(*old(self).ctx.storage, *old(self).ctx.write_log, id@, tx_data@),
            client_valid(*old(self).ctx.storage, *old(self).ctx.write_log, id@, tx_data@) ==> r is Ok
                || final(self).ctx.gas_meter.exhausted,
            client_valid(*old(self).ctx.storage, *old(self).ctx.write_log, id@, tx_data@) && old(self).ctx.gas_meter.can_pay(
                client_cost(*old(self).ctx.storage, *old(self).ctx.write_log, id@),
            ) ==> r is Ok,
            final(self).ctx.gas_meter.used <= old(self).ctx.gas_meter.used + client_cost(
                *old(self).ctx.storage,
                *old(self).ctx.write_log,
                id@,
            ),
            old(self).ctx.post(client_state_key(id@)) is None && old(self).ctx.gas_meter.can_pay(
                crate::ibc::state_change_gas(*old(self).ctx.storage, *old(self).ctx.write_log, client_state_key(id@)),
            ) ==> r == Err::<(), Error>(Error::InvalidStateChange),
            r is Err && !(r matches Err(Error::InvalidStateChange)) ==> old(self).ctx.post(client_state_key(id@)) is Some,
            !(r matches Err(Error::InvalidKey)),
            r matches Err(Error::InvalidStateChange) ==> final(self).ctx.gas_meter.exhausted || (!(old(self).ctx.pre(
                client_state_key(id@),
            ) is None && old(self).ctx.post(client_state_key(id@)) is Some) && !(old(self).ctx.pre(
                client_state_key(id@),
            ) is Some && old(self).ctx.post(client_state_key(id@)) is Some)),
    {
        proof {
            lemma_client_id_valid(id@);
        }
        let key = make_client_state_key(id);
        match self.get_state_change(&key) {
            Ok(StateChange::Created) => self.validate_created_client(id),
            Ok(StateChange::Updated) => self.validate_updated_client(id, tx_data),
            _ => Err(Error::InvalidStateChange),
        }
    }
}

} // verus!
