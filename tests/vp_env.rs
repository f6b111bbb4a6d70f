use anoma_host::address::Address;
use anoma_host::gas::GasMeter;
use anoma_host::key::Key;
use anoma_host::memory::VmMemory;
use anoma_host::native_vp::{Ctx, Tx};
use anoma_host::storage::Storage;
use anoma_host::vp_env::{
    vp_eval, vp_get_block_hash, vp_has_key_post, vp_has_key_pre, vp_iter_post_next, vp_iter_pre_next, vp_iter_prefix,
    vp_read_post, vp_read_pre, vp_result_buffer, vp_verify_tx_signature, vp_env, RejectAll, RuntimeError, VpEnv,
};
use anoma_host::write_log::WriteLog;
use ed25519_dalek::{Keypair, PublicKey, SecretKey, Signer};

fn key(s: &str) -> Key {
    Key::parse(s.as_bytes()).expect("a valid key")
}

fn fetch(env: &mut VpEnv<RejectAll>, len: i64) -> Vec<u8> {
    let ptr = (env.memory.bytes.len() - 200) as u64;
    vp_result_buffer(env, ptr).expect("fetch failed");
    env.memory.bytes[ptr as usize..ptr as usize + len as usize].to_vec()
}

fn memory(pieces: &[&[u8]]) -> (VmMemory, Vec<(u64, u64)>) {
    let mut bytes = Vec::new();
    let mut at = Vec::new();
    for p in pieces {
        at.push((bytes.len() as u64, p.len() as u64));
        bytes.extend_from_slice(p);
    }
    bytes.extend(std::iter::repeat(0u8).take(256));
    (VmMemory { bytes }, at)
}

#[test]
fn prior_and_posterior_reads() {
    let mut storage = Storage::new(b"c".to_vec(), 1, vec![5u8; 3], 0);
    storage.write(&key("a/x"), b"old");
    storage.write(&key("a/y"), b"gone");
    let mut wl = WriteLog::new();
    wl.write(&key("a/x"), b"new".to_vec()).unwrap();
    wl.delete(&key("a/y")).unwrap();
    wl.commit_tx();
    let tx = Tx { code: vec![], data: None };
    let keys = vec![key("a/x"), key("a/y")];
    let verifiers: Vec<Address> = vec![];
    let state = Ctx::new(&storage, &wl, &tx, GasMeter::new_vp());
    let mut env = vp_env(Address::Implicit(b"k".to_vec()), state, &keys, &verifiers, &RejectAll);
    let (mem, at) = memory(&[b"a/x", b"a/y", b"a/"]);
    env.memory = mem;
    let n = vp_read_pre(&mut env, at[0].0, at[0].1).unwrap();
    assert_eq!(fetch(&mut env, n), b"old".to_vec());
    let n = vp_read_post(&mut env, at[0].0, at[0].1).unwrap();
    assert_eq!(fetch(&mut env, n), b"new".to_vec());
    assert_eq!(vp_has_key_pre(&mut env, at[1].0, at[1].1).unwrap(), 1);
    assert_eq!(vp_has_key_post(&mut env, at[1].0, at[1].1).unwrap(), 0);
    assert_eq!(vp_read_post(&mut env, at[1].0, at[1].1).unwrap(), -1);

    let id = vp_iter_prefix(&mut env, at[2].0, at[2].1).unwrap();
    let n = vp_iter_pre_next(&mut env, id).unwrap();
    assert!(n > 0);
    let first = fetch(&mut env, n);
    assert_eq!(&first[4..7], b"a/x");
    assert_eq!(&first[first.len() - 3..], b"old");
    let id2 = vp_iter_prefix(&mut env, at[2].0, at[2].1).unwrap();
    let n = vp_iter_post_next(&mut env, id2).unwrap();
    let first = fetch(&mut env, n);
    assert_eq!(&first[first.len() - 3..], b"new");
    assert_eq!(vp_iter_post_next(&mut env, id2).unwrap(), -1);

    let out = (env.memory.bytes.len() - 10) as u64;
    vp_get_block_hash(&mut env, out).unwrap();
    assert_eq!(env.memory.bytes[out as usize..out as usize + 3].to_vec(), vec![5u8; 3]);
    let before = env.ctx.state.gas_meter.used;
    assert_eq!(vp_eval(&mut env, at[0].0, at[0].1, at[1].0, at[1].1).unwrap(), 0);
    assert_eq!(env.ctx.state.gas_meter.used, before + 3 + 3);
    assert!(matches!(vp_eval(&mut env, 100_000, 1, 0, 0), Err(RuntimeError::MemoryError(_))));
}

#[test]
fn tx_signature_is_verified() {
    let secret = SecretKey::from_bytes(&[7u8; 32]).unwrap();
    let public = PublicKey::from(&secret);
    let keypair = Keypair { secret, public };
    let tx = Tx { code: b"code".to_vec(), data: Some(b"data".to_vec()) };
    let msg = tx.signing_bytes().unwrap();
    let sig = keypair.sign(&msg).to_bytes();
    let other = keypair.sign(b"something else").to_bytes();

    let storage = Storage::new(b"c".to_vec(), 1, vec![], 0);
    let wl = WriteLog::new();
    let keys: Vec<Key> = vec![];
    let verifiers: Vec<Address> = vec![];
    let state = Ctx::new(&storage, &wl, &tx, GasMeter::new_vp());
    let mut env = vp_env(Address::Implicit(b"k".to_vec()), state, &keys, &verifiers, &RejectAll);
    let pk = public.to_bytes();
    let (mem, at) = memory(&[&pk, &sig, &other]);
    env.memory = mem;
    assert_eq!(vp_verify_tx_signature(&mut env, at[0].0, at[0].1, at[1].0, at[1].1).unwrap(), 1);
    assert_eq!(env.ctx.state.gas_meter.used, 32 + 64 + 1000);
    assert_eq!(vp_verify_tx_signature(&mut env, at[0].0, at[0].1, at[2].0, at[2].1).unwrap(), 0);
    assert_eq!(vp_verify_tx_signature(&mut env, at[0].0, 5, at[1].0, at[1].1).unwrap(), 0);
    assert!(env.ctx.state.gas_meter.used >= 3000);
}
