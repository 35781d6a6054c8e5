//! Artifacts: shared libraries that earlier compilations left in a store.
use crate::config::OptimizationLevel;
use crate::keys::RuntimeCacheKey;
use vstd::prelude::*;

verus! {

/// The compiler that made an artifact.
#[derive(Clone, Copy, Debug, PartialEq, Eq, Structural)]
pub enum BackendSelection {
    Llvm,
}

/// Key of an artifact in the store.
#[derive(Clone, Copy, Debug, PartialEq, Eq, Structural)]
pub struct ArtifactKey {
    pub runtime: RuntimeCacheKey,
    pub backend: BackendSelection,
    pub opt_level: OptimizationLevel,
}

/// What the store records of an artifact.
#[derive(Debug, PartialEq, Eq)]
pub struct ArtifactManifest {
    pub artifact_key: ArtifactKey,
    /// Symbol of the program in the library.
    pub symbol_name: String,
    /// Length of the bytecode the program was compiled from.
    pub bytecode_len: usize,
    /// Length of the library.
    pub artifact_len: usize,
    /// When the artifact was made, in seconds of Unix time.
    pub created_at_unix_secs: u64,
    /// Keccak-256 digest of the library.
    pub content_hash: [u8; 32],
}

/// An artifact in the store.
#[derive(Debug, PartialEq, Eq)]
pub struct StoredArtifact {
    pub manifest: ArtifactManifest,
    /// Where the library lies.
    pub dylib_path: String,
}

impl ArtifactManifest {
    /// An equal manifest.
    pub fn duplicate(&self) -> (r: ArtifactManifest)
        ensures
            r == *self,
    {
        ArtifactManifest {
            artifact_key: self.artifact_key,
            symbol_name: self.symbol_name.clone(),
            bytecode_len: self.bytecode_len,
            artifact_len: self.artifact_len,
            created_at_unix_secs: self.created_at_unix_secs,
            content_hash: self.content_hash,
        }
    }
}

impl StoredArtifact {
    /// An equal artifact.
    pub fn duplicate(&self) -> (r: StoredArtifact)
        ensures
            r == *self,
    {
        StoredArtifact {
            manifest: self.manifest.duplicate(),
            dylib_path: self.dylib_path.clone(),
        }
    }
}

/// The Keccak-256 digest of a byte string.
pub uninterp spec fn keccak256_digest(bytes: Seq<u8>) -> Seq<u8>;

/// `alloy_primitives::keccak256`: the Keccak-256 digest of the bytes, which is a function of them
/// alone.
#[verifier::external_body]
fn keccak256(bytes: &Vec<u8>) -> (digest: [u8; 32])
    ensures
        digest@ == keccak256_digest(bytes@),
{
    alloy_primitives::keccak256(bytes).0
}

/// A library that an AOT compilation produced.
pub struct AotSuccess {
    /// The library itself.
    pub dylib_bytes: Vec<u8>,
    /// Symbol of the program in the library.
    pub symbol_name: String,
    /// Length of the bytecode the program was compiled from.
    pub bytecode_len: usize,
}

/// What the store is to record of a library, given the digest of its bytes.
pub fn manifest_with_digest(
    artifact_key: ArtifactKey,
    success: &AotSuccess,
    created_at: Option<u64>,
    content_hash: [u8; 32],
) -> (m: ArtifactManifest)
    ensures
        m.artifact_key == artifact_key,
        m.symbol_name == success.symbol_name,
        m.bytecode_len == success.bytecode_len,
        m.artifact_len == success.dylib_bytes@.len(),
        m.created_at_unix_secs == (match created_at {
            Some(secs) => secs,
            None => 0,
        }),
        m.content_hash == content_hash,
{
    ArtifactManifest {
        artifact_key,
        symbol_name: success.symbol_name.clone(),
        bytecode_len: success.bytecode_len,
        artifact_len: success.dylib_bytes.len(),
        created_at_unix_secs: match created_at {
            Some(secs) => secs,
            None => 0,
        },
        content_hash,
    }
}

/// Whether `m` is what the store is to record of a library that was made at `created_at`; a clock
/// before the epoch counts as the epoch.
pub open spec fn describes(
    m: ArtifactManifest,
    artifact_key: ArtifactKey,
    success: AotSuccess,
    created_at: Option<u64>,
) -> bool {
    &&& m.artifact_key == artifact_key
    &&& m.symbol_name == success.symbol_name
    &&& m.bytecode_len == success.bytecode_len
    &&& m.artifact_len == success.dylib_bytes@.len()
    &&& m.created_at_unix_secs == (match created_at {
        Some(secs) => secs,
        None => 0,
    })
    &&& m.content_hash@ == keccak256_digest(success.dylib_bytes@)
}

/// What the store is to record of a library.
pub fn manifest_for(
    artifact_key: ArtifactKey,
    success: &AotSuccess,
    created_at: Option<u64>,
) -> (m: ArtifactManifest)
    ensures
        describes(m, artifact_key, *success, created_at),
{
    let content_hash = keccak256(&success.dylib_bytes);
    manifest_with_digest(artifact_key, success, created_at, content_hash)
}

} // verus!
