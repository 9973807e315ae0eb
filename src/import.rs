//! The import actor: admission of a candidate block, the caches handed to the
//! verifier, the in-memory update after a successful verification, and the
//! reply that follows the durable write.
use vstd::prelude::*;

use crate::bytes::copy_bytes;
use crate::storage::{apply_diff_spec, StorageDiff, StorageMirror};

verus! {

/// The storage key that holds the runtime code, `:code`.
pub open spec fn code_key() -> Seq<u8> {
    seq![58u8, 99u8, 111u8, 100u8, 101u8]
}

/// The bytes of `:code`.
pub fn code_key_bytes() -> (r: Vec<u8>)
    ensures
        r@ == code_key(),
{
    let r: Vec<u8> = vec![58u8, 99u8, 111u8, 100u8, 101u8];
    assert(r@ =~= code_key());
    r
}

/// Whether two block hashes are equal.
pub fn hash_eq(a: &[u8; 32], b: &[u8; 32]) -> (r: bool)
    ensures
        r == (a@ == b@),
{
    let mut i: usize = 0;
    while i < 32
        invariant
            a@.len() == 32,
            b@.len() == 32,
            i <= 32,
            forall|j: int| 0 <= j < i ==> a@[j] == b@[j],
        decreases 32 - i,
    {
        if a[i] != b[i] {
            return false;
        }
        i = i + 1;
    }
    assert(a@ =~= b@);
    true
}

/// The fields of a decoded header that the import logic reads.
#[derive(Debug, Clone, Copy, PartialEq, Eq)]
pub struct DecodedHeader {
    /// Hash of the parent block.
    pub parent_hash: [u8; 32],
    /// Height of the block.
    pub number: u64,
}

/// A block that was imported and durably written.
#[derive(Debug, PartialEq, Eq)]
pub struct ImportSuccess {
    /// Header of the block that was imported, as it was handed in.
    pub scale_encoded_header: Vec<u8>,
    /// Body of the block that was imported.
    pub body: Vec<Vec<u8>>,
    /// Every key that appeared, disappeared or changed value in the block.
    pub modified_keys: Vec<Vec<u8>>,
}

/// Error that can happen when importing a block.
#[derive(Debug, PartialEq, Eq)]
pub enum ImportError {
    /// The header could not be decoded.
    InvalidHeader(String),
    /// The parent of the block isn't the current best block.
    ParentIsntBest {
        /// Hash of the current best block.
        current_best_hash: [u8; 32],
    },
    /// The block failed verification and should be thrown away.
    VerificationFailed(String),
}

/// What the verifier hands back for a valid block.
pub struct VerifySuccess<R, T> {
    /// Changes that the block makes to storage.
    pub diff: StorageDiff,
    /// Runtime of the parent block, still usable for the child unless the diff changes `:code`.
    pub parent_runtime: R,
    /// Root calculation cache matching the storage after the diff.
    pub trie_cache: T,
}

/// Where the runtime for the next verification comes from.
#[derive(Debug, PartialEq, Eq)]
pub enum RuntimeSource {
    /// The cached runtime is valid for the head.
    Cached,
    /// No runtime is cached: build one from this `:code` value.
    Build(Vec<u8>),
    /// No runtime is cached and the head's storage has no `:code`: the chain cannot execute blocks.
    MissingCode,
}

/// One durable write, queued in the order in which blocks were accepted.
pub struct PersistJob {
    /// Position of the block in the order of acceptance, from zero.
    pub ticket: u64,
    /// Hash of the best block that the database is expected to hold before the write.
    pub parent_hash: [u8; 32],
    /// Header of the block to write.
    pub scale_encoded_header: Vec<u8>,
    /// Body of the block to write.
    pub body: Vec<Vec<u8>>,
    /// Storage changes of the block.
    pub diff: StorageDiff,
}

/// Outcome of the database's "insert new best block" for one job.
#[derive(Debug, PartialEq, Eq)]
pub enum WriteOutcome {
    /// The block is now the database's best block.
    Committed,
    /// The database's best block was not the expected parent; it holds this one.
    /// The actor's head and storage stay where the import left them, ahead of
    /// the database: they are not resynchronised until the pipeline restarts.
    ObsoleteHead {
        /// The database's actual best block hash.
        database_best_hash: [u8; 32],
    },
    /// The database could not be accessed.
    AccessFailure(String),
}

/// What a persistence step ends with.
#[derive(Debug, PartialEq, Eq)]
pub enum PersistReply {
    /// Send this to the caller that asked for the import.
    Reply(Result<ImportSuccess, ImportError>),
    /// The database cannot be trusted: the pipeline must stop.
    Fatal(String),
}

/// The state that the import actor owns: the head's storage, the runtime and
/// root-calculation caches, the head's identity, and how many writes it queued.
pub struct ImportActor<R, T> {
    storage: StorageMirror,
    runtime: Option<R>,
    trie_cache: Option<T>,
    best_block_hash: [u8; 32],
    best_block_header: Vec<u8>,
    best_block_number: u64,
    writes_issued: u64,
}

impl<R, T> ImportActor<R, T> {
    pub closed spec fn wf(&self) -> bool {
        self.storage.wf()
    }

    /// Storage of the head block.
    pub closed spec fn storage_view(&self) -> Map<Seq<u8>, Seq<u8>> {
        self.storage@
    }

    /// The cached runtime, if any.
    pub closed spec fn runtime_view(&self) -> Option<R> {
        self.runtime
    }

    /// The cached root calculation state, if any.
    pub closed spec fn trie_view(&self) -> Option<T> {
        self.trie_cache
    }

    /// Hash of the head block.
    pub closed spec fn head_hash(&self) -> Seq<u8> {
        self.best_block_hash@
    }

    /// Encoded header of the head block.
    pub closed spec fn head_header(&self) -> Seq<u8> {
        self.best_block_header@
    }

    /// Height of the head block.
    pub closed spec fn head_number(&self) -> u64 {
        self.best_block_number
    }

    /// How many blocks were accepted, and their writes queued.
    pub closed spec fn writes_issued(&self) -> u64 {
        self.writes_issued
    }

    /// An actor whose head is the given block, with its storage loaded.
    pub fn new(
        best_block_hash: [u8; 32],
        best_block_header: Vec<u8>,
        best_block_number: u64,
        storage: StorageMirror,
        trie_cache: T,
    ) -> (r: Self)
        requires
            storage.wf(),
        ensures
            r.wf(),
            r.storage_view() == storage@,
            r.runtime_view() is None,
            r.trie_view() == Some(trie_cache),
            r.head_hash() == best_block_hash@,
            r.head_header() == best_block_header@,
            r.head_number() == best_block_number,
            r.writes_issued() == 0,
    {
        ImportActor {
            storage,
            runtime: None,
            trie_cache: Some(trie_cache),
            best_block_hash,
            best_block_header,
            best_block_number,
            writes_issued: 0,
        }
    }

    /// Height of the head block.
    pub fn best_block_number(&self) -> (r: u64)
        ensures
            r == self.head_number(),
    {
        self.best_block_number
    }

    /// Hash of the head block.
    pub fn best_block_hash(&self) -> (r: [u8; 32])
        ensures
            r@ == self.head_hash(),
    {
        self.best_block_hash
    }

    /// How many blocks were accepted, and their writes queued.
    pub fn queued_writes(&self) -> (r: u64)
        ensures
            r == self.writes_issued(),
    {
        self.writes_issued
    }

    /// Encoded header of the head block.
    pub fn best_block_header(&self) -> (r: &Vec<u8>)
        ensures
            r@ == self.head_header(),
    {
        &self.best_block_header
    }

    /// Read access to the head's storage, for the verifier.
    pub fn storage(&self) -> (r: &StorageMirror)
        requires
            self.wf(),
        ensures
            r.wf(),
            r@ == self.storage_view(),
    {
        &self.storage
    }

    /// The cached runtime, if any.
    pub fn runtime(&self) -> (r: Option<&R>)
        ensures
            r == match self.runtime_view() {
                Some(x) => Some(&x),
                None => None::<&R>,
            },
    {
        match &self.runtime {
            Some(x) => Some(x),
            None => None,
        }
    }

    /// Admission rule: a candidate whose header decoded and whose parent is
    /// the head is admitted; any other is refused, and nothing changes.
    pub fn check_admission(&self, header: Result<DecodedHeader, String>) -> (r: Result<DecodedHeader, ImportError>)
        ensures
            match header {
                Err(e) => r == Err::<DecodedHeader, ImportError>(ImportError::InvalidHeader(e)),
                Ok(h) => if h.parent_hash@ == self.head_hash() {
                    r == Ok::<DecodedHeader, ImportError>(h)
                } else {
                    r matches Err(ImportError::ParentIsntBest { current_best_hash })
                        && current_best_hash@ == self.head_hash()
                },
            },
    {
        match header {
            Err(e) => Err(ImportError::InvalidHeader(e)),
            Ok(h) => {
                if hash_eq(&h.parent_hash, &self.best_block_hash) {
                    Ok(h)
                } else {
                    Err(ImportError::ParentIsntBest { current_best_hash: self.best_block_hash })
                }
            },
        }
    }

    /// Where the runtime for the next verification comes from: the cache if
    /// it holds one, else the head's `:code` value.
    pub fn runtime_source(&self) -> (r: RuntimeSource)
        requires
            self.wf(),
        ensures
            self.runtime_view() is Some ==> r == RuntimeSource::Cached,
            self.runtime_view() is None && self.storage_view().contains_key(code_key()) ==> (r matches RuntimeSource::Build(c)
                && c@ == self.storage_view()[code_key()]),
            self.runtime_view() is None && !self.storage_view().contains_key(code_key()) ==> r == RuntimeSource::MissingCode,
    {
        if self.runtime.is_some() {
            return RuntimeSource::Cached;
        }
        let key = code_key_bytes();
        match self.storage.get(&key) {
            Some(code) => RuntimeSource::Build(copy_bytes(code)),
            None => RuntimeSource::MissingCode,
        }
    }

    /// Puts a runtime built from the head's `:code` into the empty cache.
    pub fn install_runtime(&mut self, runtime: R)
        requires
            old(self).runtime_view() is None,
        ensures
            final(self).runtime_view() == Some(runtime),
            final(self).wf() == old(self).wf(),
            final(self).storage_view() == old(self).storage_view(),
            final(self).trie_view() == old(self).trie_view(),
            final(self).head_hash() == old(self).head_hash(),
            final(self).head_header() == old(self).head_header(),
            final(self).head_number() == old(self).head_number(),
            final(self).writes_issued() == old(self).writes_issued(),
    {
        self.runtime = Some(runtime);
    }

    /// Takes the root calculation cache out, to hand it to the verifier. It
    /// stays empty until a verification succeeds.
    pub fn take_trie_cache(&mut self) -> (r: Option<T>)
        ensures
            r == old(self).trie_view(),
            final(self).trie_view() is None,
            final(self).wf() == old(self).wf(),
            final(self).storage_view() == old(self).storage_view(),
            final(self).runtime_view() == old(self).runtime_view(),
            final(self).head_hash() == old(self).head_hash(),
            final(self).head_header() == old(self).head_header(),
            final(self).head_number() == old(self).head_number(),
            final(self).writes_issued() == old(self).writes_issued(),
    {
        self.trie_cache.take()
    }

    /// Ends the import of an admitted block with the verifier's outcome.
    ///
    /// On failure nothing changes and the caller gets the verifier's error.
    /// On success the diff is applied to storage, the runtime is kept unless
    /// the diff touches `:code`, the verifier's root cache is stored, the
    /// block becomes the head, and its write is queued with the next ticket.
    pub fn finish_import(
        &mut self,
        scale_encoded_header: Vec<u8>,
        header_hash: [u8; 32],
        header: DecodedHeader,
        body: Vec<Vec<u8>>,
        outcome: Result<VerifySuccess<R, T>, String>,
    ) -> (r: Result<PersistJob, ImportError>)
        requires
            old(self).wf(),
            old(self).writes_issued() < u64::MAX,
            outcome matches Ok(v) ==> v.diff.wf(),
        ensures
            final(self).wf(),
            match outcome {
                Err(e) => {
                    &&& r == Err::<PersistJob, ImportError>(ImportError::VerificationFailed(e))
                    &&& *final(self) == *old(self)
                },
                Ok(v) => {
                    &&& final(self).storage_view() == apply_diff_spec(old(self).storage_view(), v.diff@)
                    &&& final(self).runtime_view() == if v.diff@.contains_key(code_key()) {
                        None
                    } else {
                        Some(v.parent_runtime)
                    }
                    &&& final(self).trie_view() == Some(v.trie_cache)
                    &&& final(self).head_hash() == header_hash@
                    &&& final(self).head_header() == scale_encoded_header@
                    &&& final(self).head_number() == header.number
                    &&& final(self).writes_issued() == old(self).writes_issued() + 1
                    &&& r matches Ok(job)
                    &&& job.ticket == old(self).writes_issued()
                    &&& job.parent_hash@ == old(self).head_hash()
                    &&& job.scale_encoded_header@ == scale_encoded_header@
                    &&& job.body == body
                    &&& job.diff == v.diff
                },
            },
    {
        let v = match outcome {
            Err(e) => {
                return Err(ImportError::VerificationFailed(e));
            },
            Ok(v) => v,
        };
        let VerifySuccess { diff, parent_runtime, trie_cache } = v;
        self.trie_cache = Some(trie_cache);
        let code = code_key_bytes();
        if diff.touches(&code) {
            self.runtime = None;
        } else {
            self.runtime = Some(parent_runtime);
        }
        self.storage.apply_diff(&diff);
        let parent_hash = self.best_block_hash;
        self.best_block_hash = header_hash;
        self.best_block_header = copy_bytes(&scale_encoded_header);
        self.best_block_number = header.number;
        let ticket = self.writes_issued;
        self.writes_issued = self.writes_issued + 1;
        Ok(PersistJob { ticket, parent_hash, scale_encoded_header, body, diff })
    }
}

/// A block whose diff sets `:code` leaves the storage holding the new code,
/// so the next import builds its runtime from that value rather than reusing
/// the old one (which the import dropped from the cache).
pub proof fn lemma_code_change_rebuilds_from_new_code(
    state: Map<Seq<u8>, Seq<u8>>,
    diff: Map<Seq<u8>, Option<Seq<u8>>>,
)
    requires
        diff.contains_key(code_key()),
        diff[code_key()] is Some,
    ensures
        apply_diff_spec(state, diff).contains_key(code_key()),
        apply_diff_spec(state, diff)[code_key()] == diff[code_key()]->Some_0,
{
}

/// A block whose diff leaves `:code` alone keeps the runtime of its parent
/// and the head's code unchanged.
pub proof fn lemma_code_untouched_keeps_code(
    state: Map<Seq<u8>, Seq<u8>>,
    diff: Map<Seq<u8>, Option<Seq<u8>>>,
)
    requires
        !diff.contains_key(code_key()),
    ensures
        apply_diff_spec(state, diff).contains_key(code_key()) == state.contains_key(code_key()),
        state.contains_key(code_key()) ==> apply_diff_spec(state, diff)[code_key()] == state[code_key()],
{
}

/// The reply that a persistence step sends once the database has answered:
/// success with every key the diff names, `ParentIsntBest` with the
/// database's actual head when it held another one, and a fatal stop when the
/// database could not be accessed.
pub fn persistence_reply(job: PersistJob, write: WriteOutcome) -> (r: PersistReply)
    requires
        job.diff.wf(),
    ensures
        match write {
            WriteOutcome::Committed => {
                &&& r matches PersistReply::Reply(Ok(s))
                &&& s.scale_encoded_header == job.scale_encoded_header
                &&& s.body == job.body
                &&& forall|i: int, j: int|
                    0 <= i < s.modified_keys@.len() && 0 <= j < s.modified_keys@.len() && i != j
                        ==> #[trigger] s.modified_keys@[i]@ != #[trigger] s.modified_keys@[j]@
                &&& forall|i: int| 0 <= i < s.modified_keys@.len() ==> job.diff@.contains_key(#[trigger] s.modified_keys@[i]@)
                &&& forall|k: Seq<u8>| #[trigger] job.diff@.contains_key(k) ==> exists|i: int|
                    0 <= i < s.modified_keys@.len() && #[trigger] s.modified_keys@[i]@ == k
            },
            WriteOutcome::ObsoleteHead { database_best_hash } => r == PersistReply::Reply(
                Err(ImportError::ParentIsntBest { current_best_hash: database_best_hash }),
            ),
            WriteOutcome::AccessFailure(e) => r == PersistReply::Fatal(e),
        },
{
    match write {
        WriteOutcome::Committed => {
            let modified_keys = job.diff.keys();
            let ghost d = job.diff@;
            assert forall|k: Seq<u8>| #[trigger] d.contains_key(k) implies exists|i: int|
                0 <= i < modified_keys@.len() && #[trigger] modified_keys@[i]@ == k by {
                assert(job.diff@.contains_key(k));
            }
            let s = ImportSuccess { scale_encoded_header: job.scale_encoded_header, body: job.body, modified_keys };
            assert(s.modified_keys@ == modified_keys@);
            assert(d == job.diff@);
            assert(s.body == job.body);
            PersistReply::Reply(Ok(s))
        },
        WriteOutcome::ObsoleteHead { database_best_hash } => PersistReply::Reply(
            Err(ImportError::ParentIsntBest { current_best_hash: database_best_hash }),
        ),
        WriteOutcome::AccessFailure(e) => PersistReply::Fatal(e),
    }
}

} // verus!
