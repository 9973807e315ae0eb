use block_import::import::{
    code_key_bytes, hash_eq, persistence_reply, DecodedHeader, ImportActor, ImportError, PersistReply,
    RuntimeSource, VerifySuccess, WriteOutcome,
};
use block_import::persist::PersistenceChain;
use block_import::storage::{StorageDiff, StorageMirror};

const GENESIS: [u8; 32] = [0u8; 32];
const B1: [u8; 32] = [1u8; 32];
const B2: [u8; 32] = [2u8; 32];

fn genesis_actor() -> ImportActor<String, u32> {
    let mut storage = StorageMirror::new();
    storage.insert(b":code".to_vec(), b"W0".to_vec());
    ImportActor::new(GENESIS, b"genesis".to_vec(), 0, storage, 0)
}

fn diff_of(changes: &[(&[u8], Option<&[u8]>)]) -> StorageDiff {
    let mut d = StorageDiff::new();
    for (k, v) in changes {
        d.set(k.to_vec(), v.map(|v| v.to_vec()));
    }
    d
}

fn header(parent: [u8; 32], number: u64) -> DecodedHeader {
    DecodedHeader { parent_hash: parent, number }
}

fn success(diff: StorageDiff, runtime: &str, trie: u32) -> Result<VerifySuccess<String, u32>, String> {
    Ok(VerifySuccess { diff, parent_runtime: runtime.to_string(), trie_cache: trie })
}

#[test]
fn import_one_block_scenario() {
    let mut actor = genesis_actor();
    let h = actor.check_admission(Ok(header(GENESIS, 1))).unwrap();
    assert_eq!(actor.runtime_source(), RuntimeSource::Build(b"W0".to_vec()));
    actor.install_runtime("vm-W0".to_string());
    assert_eq!(actor.take_trie_cache(), Some(0));
    let diff = diff_of(&[(b"a", Some(b"1"))]);
    let job = actor
        .finish_import(b"block1".to_vec(), B1, h, vec![b"tx".to_vec()], success(diff, "vm-W0", 7))
        .unwrap();
    assert_eq!(job.ticket, 0);
    assert_eq!(job.parent_hash, GENESIS);
    assert_eq!(actor.best_block_number(), 1);
    assert_eq!(actor.best_block_hash(), B1);
    assert_eq!(actor.best_block_header(), &b"block1".to_vec());
    assert_eq!(actor.storage().get(&b"a".to_vec()), Some(&b"1".to_vec()));
    match persistence_reply(job, WriteOutcome::Committed) {
        PersistReply::Reply(Ok(s)) => {
            assert_eq!(s.modified_keys, vec![b"a".to_vec()]);
            assert_eq!(s.scale_encoded_header, b"block1".to_vec());
            assert_eq!(s.body, vec![b"tx".to_vec()]);
        }
        other => panic!("unexpected {:?}", other),
    }
}

#[test]
fn import_same_block_twice_is_refused() {
    let mut actor = genesis_actor();
    let h = actor.check_admission(Ok(header(GENESIS, 1))).unwrap();
    actor.install_runtime("vm".to_string());
    let _ = actor.take_trie_cache();
    let _job = actor
        .finish_import(b"block1".to_vec(), B1, h, vec![], success(diff_of(&[(b"a", Some(b"1"))]), "vm", 1))
        .unwrap();
    assert_eq!(
        actor.check_admission(Ok(header(GENESIS, 1))),
        Err(ImportError::ParentIsntBest { current_best_hash: B1 })
    );
}

#[test]
fn invalid_header_is_refused() {
    let actor = genesis_actor();
    assert_eq!(
        actor.check_admission(Err("bad length".to_string())),
        Err(ImportError::InvalidHeader("bad length".to_string()))
    );
    assert_eq!(actor.best_block_hash(), GENESIS);
}

#[test]
fn wrong_parent_leaves_state_unchanged() {
    let actor = genesis_actor();
    assert_eq!(
        actor.check_admission(Ok(header(B2, 5))),
        Err(ImportError::ParentIsntBest { current_best_hash: GENESIS })
    );
    assert_eq!(actor.best_block_hash(), GENESIS);
    assert_eq!(actor.best_block_number(), 0);
    assert_eq!(actor.storage().len(), 1);
    assert!(actor.runtime().is_none());
}

#[test]
fn verification_failure_changes_nothing() {
    let mut actor = genesis_actor();
    let h = actor.check_admission(Ok(header(GENESIS, 1))).unwrap();
    actor.install_runtime("vm".to_string());
    assert_eq!(actor.take_trie_cache(), Some(0));
    let r = actor.finish_import(b"block1".to_vec(), B1, h, vec![], Err("bad seal".to_string()));
    assert_eq!(r.err(), Some(ImportError::VerificationFailed("bad seal".to_string())));
    assert_eq!(actor.best_block_hash(), GENESIS);
    assert_eq!(actor.best_block_number(), 0);
    assert_eq!(actor.best_block_header(), &b"genesis".to_vec());
    assert_eq!(actor.runtime(), Some(&"vm".to_string()));
    assert_eq!(actor.take_trie_cache(), None);
    assert_eq!(actor.storage().len(), 1);
    assert_eq!(actor.storage().get(&b":code".to_vec()), Some(&b"W0".to_vec()));
}

#[test]
fn runtime_kept_unless_code_changes() {
    let mut actor = genesis_actor();
    let h = actor.check_admission(Ok(header(GENESIS, 1))).unwrap();
    actor.install_runtime("vm-W0".to_string());
    let _ = actor.take_trie_cache();
    actor
        .finish_import(b"b1".to_vec(), B1, h, vec![], success(diff_of(&[(b"x", Some(b"y"))]), "vm-W0", 1))
        .unwrap();
    assert_eq!(actor.runtime(), Some(&"vm-W0".to_string()));
    assert_eq!(actor.runtime_source(), RuntimeSource::Cached);
    let h2 = actor.check_admission(Ok(header(B1, 2))).unwrap();
    assert_eq!(actor.take_trie_cache(), Some(1));
    actor
        .finish_import(b"b2".to_vec(), B2, h2, vec![], success(diff_of(&[(b":code", Some(b"W1"))]), "vm-W0", 2))
        .unwrap();
    assert!(actor.runtime().is_none());
    assert_eq!(actor.runtime_source(), RuntimeSource::Build(b"W1".to_vec()));
}

#[test]
fn missing_code_is_reported() {
    let actor: ImportActor<String, u32> = ImportActor::new(GENESIS, vec![], 0, StorageMirror::new(), 0);
    assert_eq!(actor.runtime_source(), RuntimeSource::MissingCode);
}

#[test]
fn chain_of_imports_replays_diffs() {
    let mut actor = genesis_actor();
    let diffs = vec![
        diff_of(&[(b"a", Some(b"1")), (b"b", Some(b"2"))]),
        diff_of(&[(b"a", None), (b"c", Some(b"3"))]),
        diff_of(&[(b"b", Some(b"22")), (b"a", Some(b"4"))]),
    ];
    let mut parent = GENESIS;
    let mut tickets = Vec::new();
    for (n, d) in diffs.into_iter().enumerate() {
        let hash = [n as u8 + 1; 32];
        let h = actor.check_admission(Ok(header(parent, n as u64 + 1))).unwrap();
        if actor.runtime().is_none() {
            actor.install_runtime("vm".to_string());
        }
        let _ = actor.take_trie_cache();
        let job = actor.finish_import(vec![n as u8], hash, h, vec![], success(d, "vm", n as u32)).unwrap();
        tickets.push(job.ticket);
        parent = hash;
    }
    assert_eq!(tickets, vec![0, 1, 2]);
    let s = actor.storage();
    assert_eq!(s.len(), 4);
    assert_eq!(s.get(&b"a".to_vec()), Some(&b"4".to_vec()));
    assert_eq!(s.get(&b"b".to_vec()), Some(&b"22".to_vec()));
    assert_eq!(s.get(&b"c".to_vec()), Some(&b"3".to_vec()));
    assert_eq!(s.get(&b":code".to_vec()), Some(&b"W0".to_vec()));
    assert_eq!(actor.best_block_number(), 3);
}

#[test]
fn writes_complete_in_acceptance_order() {
    let mut chain = PersistenceChain::new();
    assert_eq!(chain.next_ticket(), 0);
    assert!(!chain.may_write(1));
    assert!(chain.may_write(0));
    chain.complete(0);
    assert!(!chain.may_write(0));
    assert!(chain.may_write(1));
    chain.complete(1);
    assert_eq!(chain.next_ticket(), 2);
}

#[test]
fn obsolete_head_reports_database_head() {
    let mut actor = genesis_actor();
    let h = actor.check_admission(Ok(header(GENESIS, 1))).unwrap();
    actor.install_runtime("vm".to_string());
    let _ = actor.take_trie_cache();
    let job = actor.finish_import(b"b1".to_vec(), B1, h, vec![], success(StorageDiff::new(), "vm", 1)).unwrap();
    assert_eq!(
        persistence_reply(job, WriteOutcome::ObsoleteHead { database_best_hash: B2 }),
        PersistReply::Reply(Err(ImportError::ParentIsntBest { current_best_hash: B2 }))
    );
    // The in-memory head is left ahead of the database.
    assert_eq!(actor.best_block_hash(), B1);
    assert_eq!(actor.best_block_number(), 1);
}

#[test]
fn access_failure_is_fatal() {
    let mut actor = genesis_actor();
    let h = actor.check_admission(Ok(header(GENESIS, 1))).unwrap();
    actor.install_runtime("vm".to_string());
    let job = actor.finish_import(b"b1".to_vec(), B1, h, vec![], success(StorageDiff::new(), "vm", 1)).unwrap();
    assert_eq!(
        persistence_reply(job, WriteOutcome::AccessFailure("disk".to_string())),
        PersistReply::Fatal("disk".to_string())
    );
}

#[test]
fn storage_queries() {
    let mut s = StorageMirror::new();
    for k in [&b"ab"[..], b"abc", b"b", b"a", b"abd"] {
        s.insert(k.to_vec(), k.to_vec());
    }
    let p = s.keys_with_prefix(&b"ab".to_vec());
    assert_eq!(p, vec![b"ab".to_vec(), b"abc".to_vec(), b"abd".to_vec()]);
    assert_eq!(s.keys_with_prefix(&b"".to_vec()).len(), 5);
    assert_eq!(s.keys_with_prefix(&b"c".to_vec()), Vec::<Vec<u8>>::new());
    assert_eq!(s.next_key(&b"ab".to_vec()), Some(b"abc".to_vec()));
    assert_eq!(s.next_key(&b"abd".to_vec()), Some(b"b".to_vec()));
    assert_eq!(s.next_key(&b"".to_vec()), Some(b"a".to_vec()));
    assert_eq!(s.next_key(&b"b".to_vec()), None);
    s.insert(b"a".to_vec(), b"z".to_vec());
    assert_eq!(s.len(), 5);
    assert_eq!(s.get(&b"a".to_vec()), Some(&b"z".to_vec()));
    s.remove(&b"abc".to_vec());
    s.remove(&b"nope".to_vec());
    assert_eq!(s.len(), 4);
    assert_eq!(s.get(&b"abc".to_vec()), None);
    assert_eq!(s.next_key(&b"ab".to_vec()), Some(b"abd".to_vec()));
}

#[test]
fn diff_set_replaces_and_touches() {
    let mut d = StorageDiff::new();
    d.set(b"k".to_vec(), Some(b"1".to_vec()));
    d.set(b"k".to_vec(), None);
    assert!(d.touches(&b"k".to_vec()));
    assert!(!d.touches(&code_key_bytes()));
    assert_eq!(d.keys(), vec![b"k".to_vec()]);
    let mut s = StorageMirror::new();
    s.insert(b"k".to_vec(), b"0".to_vec());
    s.apply_diff(&d);
    assert_eq!(s.get(&b"k".to_vec()), None);
    assert_eq!(s.len(), 0);
}

#[test]
fn hashes_compare_bytewise() {
    assert!(hash_eq(&B1, &B1));
    let mut x = B1;
    x[31] = 0;
    assert!(!hash_eq(&B1, &x));
}

#[test]
fn diff_get_and_queued_writes() {
    let d = diff_of(&[(b"k", None), (b"v", Some(b"1"))]);
    assert_eq!(d.get(&b"k".to_vec()), Some(&None));
    assert_eq!(d.get(&b"v".to_vec()), Some(&Some(b"1".to_vec())));
    assert_eq!(d.get(&b"w".to_vec()), None);
    let mut actor = genesis_actor();
    assert_eq!(actor.queued_writes(), 0);
    let h = actor.check_admission(Ok(header(GENESIS, 1))).unwrap();
    actor.install_runtime("vm".to_string());
    let _ = actor.finish_import(b"b1".to_vec(), B1, h, vec![], success(d, "vm", 1)).unwrap();
    assert_eq!(actor.queued_writes(), 1);
}

#[test]
fn second_block_verified_before_first_write_waits_its_turn() {
    let mut actor = genesis_actor();
    let mut chain = PersistenceChain::new();
    let h1 = actor.check_admission(Ok(header(GENESIS, 1))).unwrap();
    actor.install_runtime("vm".to_string());
    let _ = actor.take_trie_cache();
    let job1 = actor.finish_import(b"b1".to_vec(), B1, h1, vec![], success(diff_of(&[(b"a", Some(b"1"))]), "vm", 1)).unwrap();
    let h2 = actor.check_admission(Ok(header(B1, 2))).unwrap();
    let _ = actor.take_trie_cache();
    let job2 = actor.finish_import(b"b2".to_vec(), B2, h2, vec![], success(diff_of(&[(b"b", Some(b"2"))]), "vm", 2)).unwrap();
    assert_eq!(job2.parent_hash, B1);
    assert!(!chain.may_write(job2.ticket));
    assert!(chain.may_write(job1.ticket));
    chain.complete(job1.ticket);
    assert!(chain.may_write(job2.ticket));
    chain.complete(job2.ticket);
    assert_eq!(chain.next_ticket(), 2);
}
