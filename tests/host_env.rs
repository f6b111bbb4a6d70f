use anoma_host::address::Address;
use anoma_host::gas::{GasError, GasMeter};
use anoma_host::host_env::{
    mm_filter_log_string, mm_remove_intents, mm_send_match, mm_update_state, tx_charge_gas, tx_delete, tx_env,
    tx_get_block_epoch, tx_get_block_height, tx_get_chain_id, tx_has_key, tx_init_account, tx_insert_verifier,
    tx_iter_next, tx_iter_prefix, tx_log_string, tx_read, tx_result_buffer, tx_update_validity_predicate, tx_write,
    FilterEnv, MatchmakerEnv, MatchmakerError, MmRecorder, TxEnv, TxRuntimeError,
};
use anoma_host::key::Key;
use anoma_host::memory::VmMemory;
use anoma_host::prefix_iter::PrefixIterators;
use anoma_host::storage::Storage;
use anoma_host::write_log::{StorageModification, WriteLog, WriteLogError};

const WASM: &[u8] = &[0, 97, 115, 109, 1, 0, 0, 0];

fn key(s: &str) -> Key {
    Key::parse(s.as_bytes()).expect("a valid key")
}

fn storage() -> Storage {
    Storage::new(b"test_chain".to_vec(), 7, vec![9u8; 4], 3)
}

/// Guest memory holding the given pieces one after another; returns the
/// memory and the (offset, length) of each piece.
fn memory(pieces: &[&[u8]], spare: usize) -> (VmMemory, Vec<(u64, u64)>) {
    let mut bytes = Vec::new();
    let mut at = Vec::new();
    for p in pieces {
        at.push((bytes.len() as u64, p.len() as u64));
        bytes.extend_from_slice(p);
    }
    bytes.extend(std::iter::repeat(0u8).take(spare));
    (VmMemory { bytes }, at)
}

fn env_with<'a>(storage: &'a Storage, write_log: WriteLog, limit: u64, pieces: &[&[u8]]) -> (TxEnv<'a>, Vec<(u64, u64)>) {
    let mut env = tx_env(storage, write_log, PrefixIterators::new(), vec![], GasMeter::new(limit), None);
    let (mem, at) = memory(pieces, 256);
    env.memory = mem;
    (env, at)
}

fn fetch(env: &mut TxEnv, len: i64) -> Vec<u8> {
    let ptr = (env.memory.bytes.len() - 200) as u64;
    tx_result_buffer(env, ptr).expect("fetch failed");
    env.memory.bytes[ptr as usize..ptr as usize + len as usize].to_vec()
}

#[test]
fn read_after_write_and_delete() {
    let st = storage();
    let (mut env, at) = env_with(&st, WriteLog::new(), 1_000_000, &[b"a/b", b"hello"]);
    assert_eq!(tx_read(&mut env, at[0].0, at[0].1).unwrap(), -1);
    tx_write(&mut env, at[0].0, at[0].1, at[1].0, at[1].1).unwrap();
    assert_eq!(tx_has_key(&mut env, at[0].0, at[0].1).unwrap(), 1);
    let n = tx_read(&mut env, at[0].0, at[0].1).unwrap();
    assert_eq!(n, 5);
    assert_eq!(fetch(&mut env, n), b"hello".to_vec());
    tx_delete(&mut env, at[0].0, at[0].1).unwrap();
    assert_eq!(tx_read(&mut env, at[0].0, at[0].1).unwrap(), -1);
    assert_eq!(tx_has_key(&mut env, at[0].0, at[0].1).unwrap(), 0);
}

#[test]
fn read_falls_through_to_storage() {
    let mut st = storage();
    st.write(&key("x/y"), b"stored");
    let (mut env, at) = env_with(&st, WriteLog::new(), 1_000_000, &[b"x/y"]);
    let n = tx_read(&mut env, at[0].0, at[0].1).unwrap();
    assert_eq!(n, 6);
    assert_eq!(fetch(&mut env, n), b"stored".to_vec());
    assert!(env.ctx.gas_meter.used > 0);
}

#[test]
fn invalid_key_and_memory_errors() {
    let st = storage();
    let (mut env, at) = env_with(&st, WriteLog::new(), 1_000_000, &[b"a//b"]);
    assert!(matches!(tx_read(&mut env, at[0].0, at[0].1), Err(TxRuntimeError::StorageDataError(_))));
    let far = env.memory.bytes.len() as u64;
    assert!(matches!(tx_read(&mut env, far, 4), Err(TxRuntimeError::MemoryError(_))));
}

#[test]
fn transfer_write_without_vp_is_refused() {
    let st = storage();
    let (mut env, at) = env_with(&st, WriteLog::new(), 1_000_000, &[b"balance/token/#estX", b"100"]);
    let r = tx_write(&mut env, at[0].0, at[0].1, at[1].0, at[1].1);
    match r {
        Err(TxRuntimeError::UnknownAddressStorageModification(Address::Established(id))) => assert_eq!(id, b"X".to_vec()),
        other => panic!("unexpected {:?}", other),
    }
    let (log_val, _) = env.ctx.write_log.read(&key("balance/token/#estX"));
    assert!(log_val.is_none());
}

#[test]
fn write_with_known_account_adds_verifier() {
    let mut st = storage();
    st.write(&key("#validity_predicate/#estX"), WASM);
    let (mut env, at) = env_with(&st, WriteLog::new(), 1_000_000, &[b"balance/token/#estX/#impY", b"100"]);
    tx_write(&mut env, at[0].0, at[0].1, at[1].0, at[1].1).unwrap();
    assert_eq!(env.ctx.verifiers.len(), 1);
    assert!(env.ctx.verifiers[0].same(&Address::Established(b"X".to_vec())));
}

#[test]
fn gas_exhaustion_stops_the_transaction() {
    let st = storage();
    let (mut env, at) = env_with(&st, WriteLog::new(), 10, &[b"a/b", b"v"]);
    assert!(tx_charge_gas(&mut env, 6).is_ok());
    assert!(tx_charge_gas(&mut env, 4).is_ok());
    assert!(matches!(tx_charge_gas(&mut env, 1), Err(TxRuntimeError::OutOfGas(GasError::GasOverflow))));
    assert!(matches!(tx_charge_gas(&mut env, 0), Err(TxRuntimeError::OutOfGas(GasError::Exhausted))));
    assert!(matches!(tx_write(&mut env, at[0].0, at[0].1, at[1].0, at[1].1), Err(TxRuntimeError::OutOfGas(_))));
    assert!(env.ctx.write_log.tx.is_empty());
    assert!(matches!(tx_charge_gas(&mut env, -1), Err(TxRuntimeError::NumConversionError)));
}

#[test]
fn write_out_of_gas_leaves_the_log_unchanged() {
    let st = storage();
    // reading the key (3) and value (1) costs 4; staging the write costs 4 more
    let (mut env, at) = env_with(&st, WriteLog::new(), 7, &[b"a/b", b"v"]);
    assert!(matches!(tx_write(&mut env, at[0].0, at[0].1, at[1].0, at[1].1), Err(TxRuntimeError::OutOfGas(_))));
    assert!(env.ctx.write_log.tx.is_empty());
    assert!(env.ctx.verifiers.is_empty());
}

#[test]
fn unknown_account_adds_no_verifier() {
    let mut st = storage();
    st.write(&key("#validity_predicate/#estT"), WASM);
    let (mut env, at) = env_with(&st, WriteLog::new(), 1_000_000, &[b"balance/#estT/#estX", b"100"]);
    assert!(matches!(
        tx_write(&mut env, at[0].0, at[0].1, at[1].0, at[1].1),
        Err(TxRuntimeError::UnknownAddressStorageModification(_))
    ));
    assert!(env.ctx.verifiers.is_empty());
    assert!(env.ctx.write_log.tx.is_empty());
}

#[test]
fn gas_meter_arithmetic() {
    let mut m = GasMeter::new(100);
    assert_eq!(m.add(60), Ok(()));
    assert_eq!(m.get_used(), 60);
    assert_eq!(m.add(41), Err(GasError::GasOverflow));
    assert!(m.exhausted);
    assert_eq!(m.add(0), Err(GasError::Exhausted));
}

fn pair(key: &[u8], val: &[u8]) -> Vec<u8> {
    let mut out = Vec::new();
    out.extend_from_slice(&(key.len() as u32).to_le_bytes());
    out.extend_from_slice(key);
    out.extend_from_slice(&(val.len() as u32).to_le_bytes());
    out.extend_from_slice(val);
    out
}

#[test]
fn prefix_iterator_with_overlay() {
    let mut st = storage();
    st.write(&key("balance/token/a"), b"1");
    st.write(&key("balance/token/b"), b"2");
    st.write(&key("balance/token/c"), b"3");
    st.write(&key("balance/other/z"), b"9");
    let (mut env, at) = env_with(
        &st,
        WriteLog::new(),
        1_000_000,
        &[b"balance/token/b", b"balance/token/d", b"4", b"balance/token/"],
    );
    tx_delete(&mut env, at[0].0, at[0].1).unwrap();
    tx_write(&mut env, at[1].0, at[1].1, at[2].0, at[2].1).unwrap();
    let id = tx_iter_prefix(&mut env, at[3].0, at[3].1).unwrap();
    let mut seen = Vec::new();
    loop {
        let n = tx_iter_next(&mut env, id).unwrap();
        if n == -1 {
            break;
        }
        seen.push(fetch(&mut env, n));
    }
    assert_eq!(
        seen,
        vec![pair(b"balance/token/a", b"1"), pair(b"balance/token/c", b"3"), pair(b"balance/token/d", b"4")]
    );
    assert_eq!(tx_iter_next(&mut env, 99).unwrap(), -1);
}

#[test]
fn init_account_and_update_vp() {
    let st = storage();
    let (mut env, at) = env_with(&st, WriteLog::new(), 1_000_000, &[WASM, b"not wasm"]);
    let out = (env.memory.bytes.len() - 100) as u64;
    tx_init_account(&mut env, at[0].0, at[0].1, out).unwrap();
    let o = out as usize;
    let len = u32::from_le_bytes([env.memory.bytes[o], env.memory.bytes[o + 1], env.memory.bytes[o + 2], env.memory.bytes[o + 3]]) as usize;
    let text = env.memory.bytes[o + 4..o + 4 + len].to_vec();
    assert_eq!(text, b"est0000000000000000".to_vec());
    let vp_key = key("#validity_predicate/#est0000000000000000");
    let (entry, _) = env.ctx.write_log.read(&vp_key);
    assert!(matches!(entry, Some(StorageModification::InitAccount { vp }) if vp == WASM.to_vec()));
    assert!(matches!(
        tx_init_account(&mut env, at[1].0, at[1].1, out),
        Err(TxRuntimeError::InitAccountInvalidVpWasm(_))
    ));

    let addr: &[u8] = b"est0000000000000000";
    let (mem, at2) = memory(&[addr, WASM, b"bad"], 64);
    env.memory = mem;
    assert!(matches!(
        tx_update_validity_predicate(&mut env, at2[0].0, at2[0].1, at2[1].0, at2[1].1),
        Err(TxRuntimeError::StorageModificationError(WriteLogError::UpdateVpOfNewAccount))
    ));
    let mut st2 = storage();
    st2.write(&key("#validity_predicate/#est0000000000000000"), WASM);
    let (mut env2, _) = env_with(&st2, WriteLog::new(), 1_000_000, &[]);
    let (mem, at3) = memory(&[addr, WASM, b"bad"], 64);
    env2.memory = mem;
    tx_update_validity_predicate(&mut env2, at3[0].0, at3[0].1, at3[1].0, at3[1].1).unwrap();
    assert!(matches!(
        tx_update_validity_predicate(&mut env2, at3[0].0, at3[0].1, at3[2].0, at3[2].1),
        Err(TxRuntimeError::UpdateVpInvalid(_))
    ));
}

#[test]
fn delete_of_vp_is_refused() {
    let st = storage();
    let (mut env, at) = env_with(&st, WriteLog::new(), 1_000_000, &[b"#validity_predicate/#estA"]);
    assert!(matches!(
        tx_delete(&mut env, at[0].0, at[0].1),
        Err(TxRuntimeError::StorageModificationError(WriteLogError::DeleteVp))
    ));
}

#[test]
fn verifiers_chain_metadata_and_log() {
    let st = storage();
    let (mut env, at) = env_with(&st, WriteLog::new(), 1_000_000, &[b"impK", b"impK", b"bogus", b"hi there"]);
    tx_insert_verifier(&mut env, at[0].0, at[0].1).unwrap();
    tx_insert_verifier(&mut env, at[1].0, at[1].1).unwrap();
    assert_eq!(env.ctx.verifiers.len(), 1);
    assert!(matches!(tx_insert_verifier(&mut env, at[2].0, at[2].1), Err(TxRuntimeError::AddressError)));
    assert_eq!(tx_get_block_height(&mut env).unwrap(), 7);
    assert_eq!(tx_get_block_epoch(&mut env).unwrap(), 3);
    let out = (env.memory.bytes.len() - 50) as u64;
    tx_get_chain_id(&mut env, out).unwrap();
    assert_eq!(env.memory.bytes[out as usize..out as usize + 10].to_vec(), b"test_chain".to_vec());
    assert_eq!(tx_log_string(&mut env, at[3].0, at[3].1).unwrap(), b"hi there".to_vec());
}

#[test]
fn write_log_commits() {
    let mut st = storage();
    let mut wl = WriteLog::new();
    wl.write(&key("k/1"), b"a".to_vec()).unwrap();
    assert_eq!(wl.write(&key("k/1"), b"abc".to_vec()), Ok((6, 2)));
    wl.commit_tx();
    wl.delete(&key("k/1")).unwrap();
    wl.drop_tx();
    wl.commit_tx();
    assert!(wl.block.len() == 1);
    wl.commit_block(&mut st);
    assert_eq!(st.read(&key("k/1")).0, Some(b"abc".to_vec()));
    wl.commit_block(&mut st);
    assert_eq!(st.read(&key("k/1")).0, Some(b"abc".to_vec()));
    wl.delete(&key("k/1")).unwrap();
    wl.commit_tx();
    wl.commit_block(&mut st);
    assert_eq!(st.read(&key("k/1")).0, None);
}

#[test]
fn matchmaker_calls() {
    let mut list = Vec::new();
    list.extend_from_slice(&2u32.to_le_bytes());
    list.extend_from_slice(&1u32.to_le_bytes());
    list.push(7);
    list.extend_from_slice(&2u32.to_le_bytes());
    list.extend_from_slice(&[8, 9]);
    let (mem, at) = memory(&[&list, b"tx", b"st", &[1, 0, 0]], 0);
    let mut env = MatchmakerEnv { memory: mem, mm: MmRecorder::new() };
    mm_remove_intents(&mut env, at[0].0, at[0].1).unwrap();
    assert_eq!(env.mm.removed, vec![vec![vec![7u8], vec![8u8, 9u8]]]);
    mm_send_match(&mut env, at[1].0, at[1].1).unwrap();
    assert_eq!(env.mm.injected, vec![b"tx".to_vec()]);
    mm_update_state(&mut env, at[2].0, at[2].1).unwrap();
    assert_eq!(env.mm.state, b"st".to_vec());
    assert_eq!(mm_remove_intents(&mut env, at[3].0, at[3].1), Err(MatchmakerError::Decoding));
    assert_eq!(env.mm.removed.len(), 1);
    assert!(mm_send_match(&mut env, 1000, 1).is_err());
    let f = FilterEnv { memory: VmMemory { bytes: b"log".to_vec() } };
    assert_eq!(mm_filter_log_string(&f, 0, 3), Ok(b"log".to_vec()));
}

#[test]
fn iterator_keeps_the_keys_of_its_creation() {
    let mut st = storage();
    st.write(&key("p/a"), b"1");
    let (mut env, at) = env_with(&st, WriteLog::new(), 1_000_000, &[b"p/", b"p/d", b"4", b"p/a", b"5"]);
    let id = tx_iter_prefix(&mut env, at[0].0, at[0].1).unwrap();
    tx_write(&mut env, at[1].0, at[1].1, at[2].0, at[2].1).unwrap();
    tx_write(&mut env, at[3].0, at[3].1, at[4].0, at[4].1).unwrap();
    let n = tx_iter_next(&mut env, id).unwrap();
    assert_eq!(fetch(&mut env, n), pair(b"p/a", b"5"));
    assert_eq!(tx_iter_next(&mut env, id).unwrap(), -1);
}

#[test]
fn read_succeeds_when_the_meter_pays_its_cost() {
    let st = storage();
    // key transfer 3 + storage access of a 3-byte key with no value 3
    let (mut env, at) = env_with(&st, WriteLog::new(), 6, &[b"a/b"]);
    assert_eq!(tx_read(&mut env, at[0].0, at[0].1).unwrap(), -1);
    assert_eq!(env.ctx.gas_meter.used, 6);
    let (mut env, at) = env_with(&st, WriteLog::new(), 5, &[b"a/b"]);
    assert!(matches!(tx_read(&mut env, at[0].0, at[0].1), Err(TxRuntimeError::OutOfGas(_))));
}
