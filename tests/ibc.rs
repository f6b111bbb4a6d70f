use anoma_host::codec::encode_u64;
use anoma_host::gas::GasMeter;
use anoma_host::ibc::client::Error as ClientError;
use anoma_host::ibc::data::{
    encode_state, encode_string, make_capability_index_key, make_capability_key, make_client_counter_key,
    make_client_state_key, make_client_type_key, make_consensus_state_key, make_port_key, ClientType, Height,
};
use anoma_host::ibc::{init_genesis_storage, Error, Ibc, IbcPrefix};
use anoma_host::key::Key;
use anoma_host::native_vp::{Ctx, Tx};
use anoma_host::storage::Storage;
use anoma_host::write_log::WriteLog;

const CLIENT_ID: &[u8] = b"test_client";

fn test_storage() -> Storage {
    Storage::new(b"test_chain".to_vec(), 10, vec![0u8; 32], 0)
}

fn key(s: &str) -> Key {
    Key::parse(s.as_bytes()).expect("a valid key")
}

fn height(n: u64, h: u64) -> Height {
    Height { revision_number: n, revision_height: h }
}

/// Storage with genesis counters, and a write log whose block scope holds a
/// mock client at height 1-10.
fn insert_init_states() -> (Storage, WriteLog) {
    let mut storage = test_storage();
    let mut write_log = WriteLog::new();
    init_genesis_storage(&mut storage);
    let h = height(1, 10);
    write_log
        .write(&make_client_type_key(CLIENT_ID), encode_string(b"mock"))
        .expect("write failed");
    write_log
        .write(&make_client_state_key(CLIENT_ID), encode_state(ClientType::Mock, h))
        .expect("write failed");
    write_log
        .write(&make_consensus_state_key(CLIENT_ID, h), encode_state(ClientType::Mock, h))
        .expect("write failed");
    write_log.commit_tx();
    (storage, write_log)
}

fn update_data(id: &[u8], headers: &[(ClientType, Height)]) -> Vec<u8> {
    let mut out = Vec::new();
    out.extend_from_slice(&(id.len() as u32).to_le_bytes());
    out.extend_from_slice(id);
    out.extend_from_slice(&(headers.len() as u32).to_le_bytes());
    for (t, h) in headers {
        let b = encode_state(*t, *h);
        out.extend_from_slice(&(b.len() as u32).to_le_bytes());
        out.extend_from_slice(&b);
    }
    out
}

fn validate(storage: &Storage, write_log: &WriteLog, tx_data: &[u8], keys: Vec<Key>) -> Result<bool, Error> {
    let tx = Tx { code: vec![], data: Some(tx_data.to_vec()) };
    let ctx = Ctx::new(storage, write_log, &tx, GasMeter::new_vp());
    let mut ibc = Ibc { ctx };
    ibc.validate_tx(tx_data, &keys, &vec![])
}

#[test]
fn test_create_client() {
    let (storage, write_log) = insert_init_states();
    let keys = vec![make_client_state_key(CLIENT_ID)];
    assert!(validate(&storage, &write_log, &[], keys).expect("validation failed"));
}

#[test]
fn create_client_with_short_id_is_accepted() {
    let mut storage = test_storage();
    init_genesis_storage(&mut storage);
    let mut write_log = WriteLog::new();
    let id: &[u8] = b"c1";
    let h = height(1, 10);
    write_log.write(&make_client_type_key(id), encode_string(b"mock")).unwrap();
    write_log.write(&make_client_state_key(id), encode_state(ClientType::Mock, h)).unwrap();
    write_log.write(&make_consensus_state_key(id, h), encode_state(ClientType::Mock, h)).unwrap();
    write_log.commit_tx();
    let keys = vec![
        key("#IBC/clients/c1/clientType"),
        key("#IBC/clients/c1/clientState"),
        key("#IBC/clients/c1/consensusStates/1-10"),
    ];
    assert_eq!(validate(&storage, &write_log, &[], keys), Ok(true));
}

#[test]
fn create_client_with_mismatched_types_is_rejected() {
    let mut storage = test_storage();
    init_genesis_storage(&mut storage);
    let mut write_log = WriteLog::new();
    let h = height(1, 10);
    write_log.write(&make_client_type_key(CLIENT_ID), encode_string(b"07-tendermint")).unwrap();
    write_log.write(&make_client_state_key(CLIENT_ID), encode_state(ClientType::Mock, h)).unwrap();
    write_log.write(&make_consensus_state_key(CLIENT_ID, h), encode_state(ClientType::Mock, h)).unwrap();
    write_log.commit_tx();
    let keys = vec![make_client_state_key(CLIENT_ID)];
    assert_eq!(
        validate(&storage, &write_log, &[], keys),
        Err(Error::ClientError(ClientError::InvalidClient))
    );
}

#[test]
fn test_create_client_fail() {
    let storage = test_storage();
    let write_log = WriteLog::new();
    let keys = vec![make_client_state_key(CLIENT_ID)];
    let result = validate(&storage, &write_log, &[], keys).unwrap_err();
    assert!(matches!(result, Error::ClientError(ClientError::InvalidStateChange)));
}

#[test]
fn client_counter_increment_without_client_is_rejected() {
    let mut storage = test_storage();
    init_genesis_storage(&mut storage);
    let mut write_log = WriteLog::new();
    write_log.write(&make_client_counter_key(), encode_u64(1)).unwrap();
    write_log.commit_tx();
    let keys = vec![make_client_counter_key(), make_client_state_key(CLIENT_ID)];
    assert_eq!(
        validate(&storage, &write_log, &[], keys),
        Err(Error::ClientError(ClientError::InvalidStateChange))
    );
}

#[test]
fn client_counter_must_increase() {
    let mut storage = test_storage();
    init_genesis_storage(&mut storage);
    let mut write_log = WriteLog::new();
    write_log.write(&make_client_counter_key(), encode_u64(0)).unwrap();
    write_log.commit_tx();
    assert_eq!(
        validate(&storage, &write_log, &[], vec![make_client_counter_key()]),
        Err(Error::CounterError)
    );
    let mut write_log = WriteLog::new();
    write_log.write(&make_client_counter_key(), encode_u64(1)).unwrap();
    write_log.commit_tx();
    assert_eq!(validate(&storage, &write_log, &[], vec![make_client_counter_key()]), Ok(true));
}

#[test]
fn test_update_client() {
    let (mut storage, mut write_log) = insert_init_states();
    write_log.commit_block(&mut storage);

    let h = height(1, 11);
    write_log
        .write(&make_client_state_key(CLIENT_ID), encode_state(ClientType::Mock, h))
        .expect("write failed");
    write_log
        .write(&make_consensus_state_key(CLIENT_ID, h), encode_state(ClientType::Mock, h))
        .expect("write failed");
    write_log.commit_tx();

    let tx_data = update_data(CLIENT_ID, &[(ClientType::Mock, h)]);
    let keys = vec![make_client_state_key(CLIENT_ID)];
    assert!(validate(&storage, &write_log, &tx_data, keys).expect("validation failed"));
}

#[test]
fn update_client_with_other_height_is_rejected() {
    let (mut storage, mut write_log) = insert_init_states();
    write_log.commit_block(&mut storage);
    let h = height(1, 11);
    write_log.write(&make_client_state_key(CLIENT_ID), encode_state(ClientType::Mock, h)).unwrap();
    write_log.write(&make_consensus_state_key(CLIENT_ID, h), encode_state(ClientType::Mock, h)).unwrap();
    write_log.commit_tx();
    let tx_data = update_data(CLIENT_ID, &[(ClientType::Mock, height(1, 12))]);
    assert_eq!(
        validate(&storage, &write_log, &tx_data, vec![make_client_state_key(CLIENT_ID)]),
        Err(Error::ClientError(ClientError::InvalidClient))
    );
    let stale = update_data(CLIENT_ID, &[(ClientType::Mock, height(1, 9))]);
    assert_eq!(
        validate(&storage, &write_log, &stale, vec![make_client_state_key(CLIENT_ID)]),
        Err(Error::ClientError(ClientError::InvalidHeader))
    );
    assert_eq!(
        validate(&storage, &write_log, &[1, 2, 3], vec![make_client_state_key(CLIENT_ID)]),
        Err(Error::ClientError(ClientError::DecodingTxData))
    );
}

fn set_port(write_log: &mut WriteLog, index: u64) {
    write_log.write(&make_port_key(b"test_port"), encode_u64(index)).expect("write failed");
    write_log
        .write(&make_capability_key(index), encode_string(b"test_port"))
        .expect("write failed");
}

#[test]
fn test_validate_port() {
    let (mut storage, mut write_log) = insert_init_states();
    write_log.commit_block(&mut storage);
    set_port(&mut write_log, 0);
    write_log.commit_tx();
    let keys = vec![make_port_key(b"test_port")];
    assert!(validate(&storage, &write_log, &[], keys).expect("validation failed"));
}

#[test]
fn test_validate_capability() {
    let (mut storage, mut write_log) = insert_init_states();
    write_log.commit_block(&mut storage);
    set_port(&mut write_log, 0);
    write_log.write(&make_capability_index_key(), encode_u64(1)).expect("write failed");
    write_log.commit_tx();
    let keys = vec![make_capability_key(0), make_capability_index_key()];
    assert!(validate(&storage, &write_log, &[], keys).expect("validation failed"));
}

#[test]
fn port_without_capability_is_rejected() {
    let storage = test_storage();
    let mut write_log = WriteLog::new();
    write_log.write(&make_port_key(b"test_port"), encode_u64(3)).unwrap();
    write_log.commit_tx();
    assert_eq!(
        validate(&storage, &write_log, &[], vec![make_port_key(b"test_port")]),
        Err(Error::PortError)
    );
}

#[test]
fn unknown_ibc_prefix_is_rejected() {
    let storage = test_storage();
    let write_log = WriteLog::new();
    assert_eq!(
        validate(&storage, &write_log, &[], vec![key("#IBC/unknown/x")]),
        Err(Error::KeyError)
    );
    assert_eq!(
        validate(&storage, &write_log, &[], vec![key("#IBC/connections/conn0")]),
        Err(Error::ConnectionError)
    );
    assert_eq!(validate(&storage, &write_log, &[], vec![key("other/key")]), Ok(true));
}

#[test]
fn ibc_prefixes_are_classified() {
    assert_eq!(Ibc::get_ibc_prefix(&key("#IBC/clients/x")), IbcPrefix::Client);
    assert_eq!(Ibc::get_ibc_prefix(&key("#IBC/channelEnds/x")), IbcPrefix::Channel);
    assert_eq!(Ibc::get_ibc_prefix(&key("#IBC/nextSequenceAck/x")), IbcPrefix::SeqAck);
    assert_eq!(Ibc::get_ibc_prefix(&key("#IBC/acks/x")), IbcPrefix::Ack);
    assert_eq!(Ibc::get_ibc_prefix(&key("#IBC")), IbcPrefix::Unknown);
}

#[test]
fn genesis_writes_zero_counters() {
    let mut storage = test_storage();
    init_genesis_storage(&mut storage);
    for k in ["#IBC/clients/counter", "#IBC/connections/counter", "#IBC/channelEnds/counter", "#IBC/capabilities/index"] {
        let (v, _) = storage.read(&key(k));
        assert_eq!(v, Some(vec![0u8; 8]));
    }
}

fn upgrade_data(id: &[u8], proof_client: &[u8], proof_consensus: &[u8]) -> Vec<u8> {
    let mut out = Vec::new();
    for part in [id, proof_client, proof_consensus] {
        out.extend_from_slice(&(part.len() as u32).to_le_bytes());
        out.extend_from_slice(part);
    }
    out
}

#[test]
fn other_modules_and_keys_are_rejected() {
    let storage = test_storage();
    let write_log = WriteLog::new();
    assert_eq!(validate(&storage, &write_log, &[], vec![key("#IBC/channelEnds/ch")]), Err(Error::ChannelError));
    assert_eq!(validate(&storage, &write_log, &[], vec![key("#IBC/nextSequenceSend/p")]), Err(Error::SequenceError));
    assert_eq!(validate(&storage, &write_log, &[], vec![key("#IBC/receipts/p")]), Err(Error::PacketError));
    assert_eq!(
        validate(&storage, &write_log, &[], vec![key("#IBC/clients")]),
        Err(Error::ClientError(ClientError::InvalidKey))
    );
}

#[test]
fn out_of_gas_in_the_validity_predicate() {
    let mut storage = test_storage();
    init_genesis_storage(&mut storage);
    let write_log = WriteLog::new();
    let tx = Tx { code: vec![], data: None };
    let ctx = Ctx::new(&storage, &write_log, &tx, GasMeter::new(0));
    let mut ibc = Ibc { ctx };
    let r = ibc.validate_tx(&[], &vec![make_client_counter_key()], &vec![]);
    assert!(matches!(r, Err(Error::NativeVpError(_))));
}

#[test]
fn client_upgrade_paths() {
    let (mut storage, mut write_log) = insert_init_states();
    write_log.commit_block(&mut storage);
    let h = height(1, 10);
    write_log.write(&make_client_state_key(CLIENT_ID), encode_state(ClientType::Mock, h)).unwrap();
    write_log.commit_tx();
    let keys = vec![make_client_state_key(CLIENT_ID)];
    let data = upgrade_data(CLIENT_ID, b"pc", b"pcs");
    assert_eq!(validate(&storage, &write_log, &data, keys.clone()), Ok(true));
    let bad_id = upgrade_data(b"bad/id", b"pc", b"pcs");
    assert_eq!(
        validate(&storage, &write_log, &bad_id, keys.clone()),
        Err(Error::ClientError(ClientError::DecodingIbcData))
    );
    let other = upgrade_data(b"other_client", b"pc", b"pcs");
    assert_eq!(
        validate(&storage, &write_log, &other, keys.clone()),
        Err(Error::ClientError(ClientError::InvalidClient))
    );

    let mut storage = test_storage();
    let mut write_log = WriteLog::new();
    write_log.write(&make_client_type_key(CLIENT_ID), encode_string(b"07-tendermint")).unwrap();
    write_log.write(&make_client_state_key(CLIENT_ID), encode_state(ClientType::Tendermint, h)).unwrap();
    write_log.write(&make_consensus_state_key(CLIENT_ID, h), encode_state(ClientType::Tendermint, h)).unwrap();
    write_log.commit_tx();
    write_log.commit_block(&mut storage);
    write_log.write(&make_client_state_key(CLIENT_ID), encode_state(ClientType::Tendermint, h)).unwrap();
    write_log.commit_tx();
    assert_eq!(
        validate(&storage, &write_log, &data, keys),
        Err(Error::ClientError(ClientError::ProofVerificationFailure))
    );
}

#[test]
fn undecodable_posterior_counter_reads_as_zero() {
    let mut storage = test_storage();
    init_genesis_storage(&mut storage);
    let mut write_log = WriteLog::new();
    write_log.write(&make_client_counter_key(), vec![1, 2, 3]).unwrap();
    write_log.commit_tx();
    let tx = Tx { code: vec![], data: None };
    let ctx = Ctx::new(&storage, &write_log, &tx, GasMeter::new_vp());
    let mut ibc = Ibc { ctx };
    assert_eq!(ibc.client_counter(), Ok(0));
    assert_eq!(validate(&storage, &write_log, &[], vec![make_client_counter_key()]), Err(Error::CounterError));
}
