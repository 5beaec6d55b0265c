//! The index's side of a file: which files it takes and why it refuses the
//! rest, reading a chunk's text back only from the file it was cut from, how
//! a sync reports itself, and how overlapping sync requests fold into one
//! run without any being lost.

use vstd::prelude::*;

use vstd::utf8::{decode_utf8, valid_utf8};

use crate::grep::{has_nul_prefix, looks_binary, utf8_text};
use crate::resolve::owned_text;
use crate::text::{decimal, push_decimal};

verus! {

// ----- files the index takes -----

/// Why a file is not in the index.
#[derive(Debug, PartialEq, Eq)]
pub enum SourceSkip {
    TooLarge { size: u64, limit: u64 },
    Binary,
    /// Text in some other encoding.
    NotUtf8,
    /// It could not be read; the reason.
    Io(String),
}

impl SourceSkip {
    /// The reason as a person reads it.
    pub fn message(&self) -> (s: String)
        ensures
            s@ == match self {
                SourceSkip::TooLarge { size, limit } => "too large: "@ + decimal(*size as nat) + " bytes, the limit is "@
                    + decimal(*limit as nat),
                SourceSkip::Binary => "binary"@,
                SourceSkip::NotUtf8 => "not UTF-8"@,
                SourceSkip::Io(e) => "unreadable: "@ + e@,
            },
    {
        let mut s = String::new();
        match self {
            SourceSkip::TooLarge { size, limit } => {
                s.append("too large: ");
                push_decimal(&mut s, *size as u128);
                s.append(" bytes, the limit is ");
                push_decimal(&mut s, *limit as u128);
            },
            SourceSkip::Binary => s.append("binary"),
            SourceSkip::NotUtf8 => s.append("not UTF-8"),
            SourceSkip::Io(e) => {
                s.append("unreadable: ");
                s.append(e.as_str());
            },
        }
        s
    }
}

/// Whether a file of `size` bytes on disk may be read at all: checked before
/// reading, so a large dump is refused without being loaded.
pub fn check_size(size: u64, limit: u64) -> (r: Result<(), SourceSkip>)
    ensures
        size > limit ==> r == Err::<(), SourceSkip>(SourceSkip::TooLarge { size, limit }),
        size <= limit ==> r is Ok,
{
    if size > limit {
        Err(SourceSkip::TooLarge { size, limit })
    } else {
        Ok(())
    }
}

/// The text of a file the index should have, from its bytes: refused when
/// it grew past the limit since its size was checked, when it looks binary,
/// or when it is not UTF-8.
pub open spec fn source_outcome(bytes: Seq<u8>, limit: u64) -> Result<Seq<char>, SourceSkip> {
    if bytes.len() > limit {
        Err(SourceSkip::TooLarge { size: bytes.len() as u64, limit })
    } else if looks_binary(bytes) {
        Err(SourceSkip::Binary)
    } else if !valid_utf8(bytes) {
        Err(SourceSkip::NotUtf8)
    } else {
        Ok(decode_utf8(bytes))
    }
}

pub fn read_source(bytes: &[u8], limit: u64) -> (r: Result<String, SourceSkip>)
    requires
        bytes@.len() <= u64::MAX,
    ensures
        match source_outcome(bytes@, limit) {
            Ok(t) => r matches Ok(s) && s@ == t,
            Err(e) => r == Err::<String, SourceSkip>(e),
        },
{
    if bytes.len() as u64 > limit {
        return Err(SourceSkip::TooLarge { size: bytes.len() as u64, limit });
    }
    if has_nul_prefix(bytes) {
        return Err(SourceSkip::Binary);
    }
    match utf8_text(bytes) {
        Some(s) => Ok(s),
        None => Err(SourceSkip::NotUtf8),
    }
}

// ----- a chunk's text -----

/// Why a chunk's text could not be read back.
#[derive(Debug, PartialEq, Eq)]
pub enum ChunkTextError {
    Io(String),
    /// The file changed since the chunk was cut from it; the file's path.
    Stale(String),
    /// The chunk's range does not fit the file, or does not fall on
    /// character boundaries; the chunk's id.
    OutOfBounds(String),
}

impl ChunkTextError {
    pub fn message(&self) -> (s: String)
        ensures
            s@ == match self {
                ChunkTextError::Io(e) => "unreadable: "@ + e@,
                ChunkTextError::Stale(p) => "changed since it was indexed: "@ + p@,
                ChunkTextError::OutOfBounds(id) => "chunk range out of bounds: "@ + id@,
            },
    {
        let mut s = String::new();
        match self {
            ChunkTextError::Io(e) => {
                s.append("unreadable: ");
                s.append(e.as_str());
            },
            ChunkTextError::Stale(p) => {
                s.append("changed since it was indexed: ");
                s.append(p.as_str());
            },
            ChunkTextError::OutOfBounds(id) => {
                s.append("chunk range out of bounds: ");
                s.append(id.as_str());
            },
        }
        s
    }
}

/// What `blake3::hash` gives for `bytes`, as the 32 bytes of the hash.
pub uninterp spec fn blake3_digest(bytes: Seq<u8>) -> Seq<u8>;

/// `blake3::hash`, as its bytes. Claimed: the result is [`blake3_digest`] of
/// the input; nothing is said of what that is.
#[verifier::external_body]
fn blake3_hash(bytes: &[u8]) -> (h: [u8; 32])
    ensures
        h@ == blake3_digest(bytes@),
{
    *blake3::hash(bytes).as_bytes()
}

fn bytes_eq(a: &[u8; 32], b: &[u8; 32]) -> (r: bool)
    ensures
        r == (a@ == b@),
{
    let mut i: usize = 0;
    while i < 32
        invariant
            i <= 32,
            a@.len() == 32,
            b@.len() == 32,
            forall|j: int| 0 <= j < i ==> a@[j] == b@[j],
        decreases 32 - i,
    {
        if a[i] != b[i] {
            return false;
        }
        i = i + 1;
    }
    assert(a@ =~= b@);
    true
}

/// The text of a chunk, `content[start..end]`, where `content` is what the
/// chunk's file holds now: refused as stale where the file no longer hashes
/// to `file_hash`, and as out of bounds where the range does not fit or is
/// not UTF-8.
pub open spec fn chunk_text_outcome(
    content: Seq<u8>,
    file_hash: Seq<u8>,
    start: nat,
    end: nat,
) -> Option<Option<Seq<char>>> {
    if blake3_digest(content) != file_hash {
        None
    } else if start <= end <= content.len() && valid_utf8(content.subrange(start as int, end as int)) {
        Some(Some(decode_utf8(content.subrange(start as int, end as int))))
    } else {
        Some(None)
    }
}

pub fn resolve_text(
    content: &[u8],
    file_hash: &[u8; 32],
    start_byte: u64,
    end_byte: u64,
    file_id: &str,
    chunk_id: &str,
) -> (r: Result<String, ChunkTextError>)
    ensures
        match chunk_text_outcome(content@, file_hash@, start_byte as nat, end_byte as nat) {
            None => r matches Err(ChunkTextError::Stale(p)) && p@ == file_id@,
            Some(None) => r matches Err(ChunkTextError::OutOfBounds(id)) && id@ == chunk_id@,
            Some(Some(t)) => r matches Ok(s) && s@ == t,
        },
{
    let h = blake3_hash(content);
    if !bytes_eq(&h, file_hash) {
        return Err(ChunkTextError::Stale(owned_text(file_id)));
    }
    if start_byte > end_byte || end_byte > content.len() as u64 {
        return Err(ChunkTextError::OutOfBounds(owned_text(chunk_id)));
    }
    let from = start_byte as usize;
    let to = end_byte as usize;
    let mut part: Vec<u8> = Vec::new();
    let mut i = from;
    while i < to
        invariant
            from <= i <= to <= content@.len(),
            part@ == content@.subrange(from as int, i as int),
        decreases to - i,
    {
        part.push(content[i]);
        i = i + 1;
    }
    match utf8_text(part.as_slice()) {
        Some(s) => Ok(s),
        None => Err(ChunkTextError::OutOfBounds(owned_text(chunk_id))),
    }
}

// ----- how a sync reports itself -----

/// What one embedding sync did.
#[derive(Debug, PartialEq, Eq)]
pub struct EmbedStats {
    pub embedded: usize,
    pub unchanged: usize,
    pub removed: usize,
    /// Files whose bytes no longer match the chunks cut from them.
    pub stale_files: usize,
}

/// Why an embedding sync failed.
#[derive(Debug, PartialEq, Eq)]
pub enum EmbedSyncError {
    /// The model's own error, as it put it.
    Model(String),
    /// The store's own error, as it put it.
    Store(String),
    WrongCount { expected: usize, got: usize },
}

impl EmbedSyncError {
    pub fn message(&self) -> (s: String)
        ensures
            s@ == match self {
                EmbedSyncError::Model(e) => e@,
                EmbedSyncError::Store(e) => e@,
                EmbedSyncError::WrongCount { expected, got } => "the model returned "@ + decimal(*got as nat)
                    + " vectors for "@ + decimal(*expected as nat) + " texts"@,
            },
    {
        let mut s = String::new();
        match self {
            EmbedSyncError::Model(e) => s.append(e.as_str()),
            EmbedSyncError::Store(e) => s.append(e.as_str()),
            EmbedSyncError::WrongCount { expected, got } => {
                s.append("the model returned ");
                push_decimal(&mut s, *got as u128);
                s.append(" vectors for ");
                push_decimal(&mut s, *expected as u128);
                s.append(" texts");
            },
        }
        s
    }
}

// ----- what a sync embeds -----

/// A chunk as the store lists it, or a vector as the index holds it: the
/// chunk's id and the hash of its text.
pub open spec fn key_view(k: (String, [u8; 32])) -> (Seq<char>, Seq<u8>) {
    (k.0@, k.1@)
}

pub open spec fn keys_view(ks: Seq<(String, [u8; 32])>) -> Seq<(Seq<char>, Seq<u8>)> {
    ks.map_values(|k: (String, [u8; 32])| key_view(k))
}

/// Whether the store still lists a chunk with this id.
pub open spec fn is_current(chunks: Seq<(Seq<char>, Seq<u8>)>, id: Seq<char>) -> bool {
    exists|i: int| 0 <= i < chunks.len() && (#[trigger] chunks[i]).0 == id
}

/// Whether the index holds a vector for this chunk's id and text.
pub open spec fn up_to_date(held: Seq<(Seq<char>, Seq<u8>)>, chunk: (Seq<char>, Seq<u8>)) -> bool {
    exists|j: int| 0 <= j < held.len() && #[trigger] held[j] == chunk
}

/// How many of the first `n` held vectors belong to chunks that are gone.
pub open spec fn gone_upto(held: Seq<(Seq<char>, Seq<u8>)>, chunks: Seq<(Seq<char>, Seq<u8>)>, n: nat) -> nat
    decreases n,
{
    if n == 0 {
        0
    } else {
        gone_upto(held, chunks, (n - 1) as nat) + if is_current(chunks, held[n - 1].0) {
            0nat
        } else {
            1nat
        }
    }
}

/// The positions among the first `n` chunks of those that need a vector,
/// in order.
pub open spec fn pending_upto(held: Seq<(Seq<char>, Seq<u8>)>, chunks: Seq<(Seq<char>, Seq<u8>)>, n: nat) -> Seq<int>
    decreases n,
{
    if n == 0 {
        seq![]
    } else if up_to_date(held, chunks[n - 1]) {
        pending_upto(held, chunks, (n - 1) as nat)
    } else {
        pending_upto(held, chunks, (n - 1) as nat).push(n - 1)
    }
}

/// What a sync finds before it embeds anything: which held vectors stay,
/// how many go, how many chunks are already up to date, and which need a
/// vector.
pub struct SyncPlan {
    /// For each held vector, whether its chunk is still listed.
    pub keep: Vec<bool>,
    pub removed: usize,
    pub unchanged: usize,
    /// The positions of the chunks to embed, in the store's order.
    pub pending: Vec<usize>,
}

fn key_eq(a: &(String, [u8; 32]), b: &(String, [u8; 32])) -> (r: bool)
    ensures
        r == (key_view(*a) == key_view(*b)),
{
    if !crate::text::str_eq(a.0.as_str(), b.0.as_str()) {
        return false;
    }
    let mut i: usize = 0;
    while i < 32
        invariant
            i <= 32,
            a.1@.len() == 32,
            b.1@.len() == 32,
            forall|k: int| 0 <= k < i ==> a.1@[k] == b.1@[k],
        decreases 32 - i,
    {
        if a.1[i] != b.1[i] {
            return false;
        }
        i = i + 1;
    }
    assert(a.1@ =~= b.1@);
    true
}

fn is_current_exec(chunks: &Vec<(String, [u8; 32])>, id: &String) -> (r: bool)
    ensures
        r == is_current(keys_view(chunks@), id@),
{
    let ghost cv = keys_view(chunks@);
    let mut i: usize = 0;
    while i < chunks.len()
        invariant
            i <= chunks@.len(),
            cv == keys_view(chunks@),
            forall|k: int| 0 <= k < i ==> (#[trigger] cv[k]).0 != id@,
        decreases chunks.len() - i,
    {
        if crate::text::str_eq(chunks[i].0.as_str(), id.as_str()) {
            assert(cv[i as int].0 == id@);
            return true;
        }
        i = i + 1;
    }
    false
}

fn up_to_date_exec(held: &Vec<(String, [u8; 32])>, chunk: &(String, [u8; 32])) -> (r: bool)
    ensures
        r == up_to_date(keys_view(held@), key_view(*chunk)),
{
    let ghost hv = keys_view(held@);
    let mut j: usize = 0;
    while j < held.len()
        invariant
            j <= held@.len(),
            hv == keys_view(held@),
            forall|k: int| 0 <= k < j ==> #[trigger] hv[k] != key_view(*chunk),
        decreases held.len() - j,
    {
        if key_eq(&held[j], chunk) {
            assert(hv[j as int] == key_view(*chunk));
            return true;
        }
        j = j + 1;
    }
    false
}

/// The plan for a sync of the index holding `held` against the chunks the
/// store lists: a held vector stays exactly when its chunk is still listed;
/// a chunk needs a vector exactly when none is held for its id and text.
/// Every chunk is either up to date or pending.
pub fn plan_sync(held: &Vec<(String, [u8; 32])>, chunks: &Vec<(String, [u8; 32])>) -> (p: SyncPlan)
    ensures
        p.keep@.len() == held@.len(),
        forall|j: int| 0 <= j < held@.len() ==> p.keep@[j] == is_current(keys_view(chunks@), #[trigger] held@[j].0@),
        p.removed == gone_upto(keys_view(held@), keys_view(chunks@), held@.len() as nat),
        p.pending@.map_values(|i: usize| i as int) == pending_upto(keys_view(held@), keys_view(chunks@), chunks@.len() as nat),
        p.unchanged + p.pending@.len() == chunks@.len(),
{
    let ghost hv = keys_view(held@);
    let ghost cv = keys_view(chunks@);
    let mut keep: Vec<bool> = Vec::new();
    let mut removed: usize = 0;
    let mut j: usize = 0;
    while j < held.len()
        invariant
            j <= held@.len(),
            hv == keys_view(held@),
            cv == keys_view(chunks@),
            keep@.len() == j,
            forall|k: int| 0 <= k < j ==> keep@[k] == is_current(cv, #[trigger] held@[k].0@),
            removed == gone_upto(hv, cv, j as nat),
            removed <= j,
        decreases held.len() - j,
    {
        let current = is_current_exec(chunks, &held[j].0);
        assert(hv[j as int].0 == held@[j as int].0@);
        if !current {
            removed = removed + 1;
        }
        keep.push(current);
        j = j + 1;
    }
    let mut unchanged: usize = 0;
    let mut pending: Vec<usize> = Vec::new();
    let mut i: usize = 0;
    while i < chunks.len()
        invariant
            i <= chunks@.len(),
            hv == keys_view(held@),
            cv == keys_view(chunks@),
            pending@.map_values(|x: usize| x as int) == pending_upto(hv, cv, i as nat),
            unchanged + pending@.len() == i,
        decreases chunks.len() - i,
    {
        assert(cv[i as int] == key_view(chunks@[i as int]));
        if up_to_date_exec(held, &chunks[i]) {
            unchanged = unchanged + 1;
        } else {
            let ghost before = pending@;
            pending.push(i);
            assert(pending@.map_values(|x: usize| x as int) =~= before.map_values(|x: usize| x as int).push(i as int));
        }
        i = i + 1;
    }
    SyncPlan { keep, removed, unchanged, pending }
}

proof fn lemma_nothing_pending(held: Seq<(Seq<char>, Seq<u8>)>, chunks: Seq<(Seq<char>, Seq<u8>)>, n: nat)
    requires
        n <= chunks.len(),
        forall|i: int| 0 <= i < chunks.len() ==> up_to_date(held, #[trigger] chunks[i]),
    ensures
        pending_upto(held, chunks, n).len() == 0,
    decreases n,
{
    if n > 0 {
        assert(up_to_date(held, chunks[n - 1]));
        lemma_nothing_pending(held, chunks, (n - 1) as nat);
    }
}

/// A sync right after one that embedded everything embeds nothing: where
/// the index holds a vector for every chunk's id and text, no chunk is
/// pending and every one counts as unchanged.
pub proof fn law_a_synced_index_embeds_nothing(held: Seq<(Seq<char>, Seq<u8>)>, chunks: Seq<(Seq<char>, Seq<u8>)>)
    requires
        forall|i: int| 0 <= i < chunks.len() ==> up_to_date(held, #[trigger] chunks[i]),
    ensures
        pending_upto(held, chunks, chunks.len()).len() == 0,
{
    lemma_nothing_pending(held, chunks, chunks.len());
}

/// A batch of vectors must answer its texts one for one.
pub fn check_batch(expected: usize, got: usize) -> (r: Result<(), EmbedSyncError>)
    ensures
        expected == got ==> r is Ok,
        expected != got ==> r == Err::<(), EmbedSyncError>(EmbedSyncError::WrongCount { expected, got }),
{
    if expected == got {
        Ok(())
    } else {
        Err(EmbedSyncError::WrongCount { expected, got })
    }
}

/// What the last sync left behind, for a status line.
#[derive(Debug, PartialEq, Eq)]
pub struct IndexStatus {
    pub syncing: bool,
    /// Chunks with a vector.
    pub embedded: usize,
    /// Each file the last sync would not take, with the reason.
    pub skipped: Vec<(String, String)>,
    pub embedding_error: Option<String>,
}

impl IndexStatus {
    /// Nothing synced yet.
    pub fn new() -> (s: Self)
        ensures
            !s.syncing,
            s.embedded == 0,
            s.skipped@.len() == 0,
            s.embedding_error is None,
    {
        IndexStatus { syncing: false, embedded: 0, skipped: Vec::new(), embedding_error: None }
    }
}

// ----- sync requests -----

/// Whether a sync is running, and whether another was asked for while it
/// ran. A request during a run folds into it: the run goes round once more
/// rather than starting a second sync beside it.
pub struct SyncRun {
    pub running: bool,
    pub again: bool,
}

/// A request for a sync: whether the caller now runs it (nothing was
/// running), and the state after; a request while one runs makes it go round
/// again.
pub open spec fn claim_step(s: SyncRun) -> (SyncRun, bool) {
    if s.running {
        (SyncRun { running: true, again: true }, false)
    } else {
        (SyncRun { running: true, again: s.again }, true)
    }
}

/// The end of a pass: another pass where a request arrived during it;
/// otherwise the run is given up in the same step.
pub open spec fn go_again_step(s: SyncRun) -> (SyncRun, bool) {
    if s.again {
        (SyncRun { running: s.running, again: false }, true)
    } else {
        (SyncRun { running: false, again: false }, false)
    }
}

impl SyncRun {
    /// Only a running sync can owe another pass.
    pub open spec fn wf(&self) -> bool {
        self.again ==> self.running
    }

    pub fn new() -> (s: Self)
        ensures
            s.wf(),
            !s.running,
            !s.again,
    {
        SyncRun { running: false, again: false }
    }

    /// A request for a sync: `true` where the caller now runs it.
    pub fn claim(&mut self) -> (run: bool)
        requires
            old(self).wf(),
        ensures
            final(self).wf(),
            (*final(self), run) == claim_step(*old(self)),
    {
        if self.running {
            self.again = true;
            false
        } else {
            self.running = true;
            true
        }
    }

    /// At the end of a pass: `true` where the run goes round again.
    pub fn go_again(&mut self) -> (more: bool)
        requires
            old(self).wf(),
        ensures
            final(self).wf(),
            (*final(self), more) == go_again_step(*old(self)),
    {
        if self.again {
            self.again = false;
            true
        } else {
            self.running = false;
            false
        }
    }

    /// A run that ends by an error gives itself up, and what it owed with
    /// it: the next request starts afresh.
    pub fn release(&mut self)
        ensures
            final(self).wf(),
            !final(self).running,
            !final(self).again,
    {
        self.running = false;
        self.again = false;
    }
}

/// A request that arrives while a sync runs is never lost: it does not start
/// a second sync, and the running one goes round again at the end of its
/// pass.
pub proof fn law_a_request_during_a_run_is_not_lost(s: SyncRun)
    requires
        s.wf(),
        s.running,
    ensures
        !claim_step(s).1,
        go_again_step(claim_step(s).0).1,
        go_again_step(claim_step(s).0).0.running,
{
}

/// At most one sync runs: whoever finds none running runs it, and every
/// request after that folds into it until it is given up.
pub proof fn law_one_sync_at_a_time(s: SyncRun)
    requires
        s.wf(),
    ensures
        claim_step(s).0.running,
        claim_step(s).0.wf(),
        !claim_step(claim_step(s).0).1,
{
}

/// A pass that ends with nothing asked for gives the run up, so the next
/// request runs a sync of its own.
pub proof fn law_an_idle_end_releases_the_run(s: SyncRun)
    requires
        s.wf(),
        !s.again,
    ensures
        !go_again_step(s).1,
        claim_step(go_again_step(s).0).1,
{
}

} // verus!
