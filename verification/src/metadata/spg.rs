//! Groups of storage units that the cluster runs itself.

use vstd::prelude::*;
use crate::codec::error::DecodeError;
use crate::codec::reader::ByteReader;
use crate::codec::sequence::{lemma_join2, lemma_join3, lemma_join4, lemma_skip_joined};
use crate::codec::traits::{Decoder, Encoder, Version};

verus! {

/// One variable of the environment of a storage unit.
#[derive(Debug, Clone, PartialEq, Eq)]
pub struct EnvVar {
    pub name: String,
    pub value: String,
}

/// The mathematical model of `EnvVar`.
pub struct EnvVarView {
    pub name: Seq<char>,
    pub value: Seq<char>,
}

impl DeepView for EnvVar {
    type V = EnvVarView;

    open spec fn deep_view(&self) -> EnvVarView {
        EnvVarView {
            name: self.name.deep_view(),
            value: self.value.deep_view(),
        }
    }
}

impl EnvVar {
    /// The value that stands where nothing was set.
    pub open spec fn blank() -> EnvVarView {
        EnvVarView {
            name: Seq::<char>::empty(),
            value: Seq::<char>::empty(),
        }
    }
}

impl Default for EnvVar {
    fn default() -> (r: Self)
        ensures
            r.deep_view() == EnvVar::blank(),
    {
        EnvVar {
            name: String::new(),
            value: String::new(),
        }
    }
}

/// The fields of `EnvVar`, one after the other.
#[verifier::opaque]
pub open spec fn env_var_encoding(v: EnvVarView, version: Version) -> Seq<u8> {
    String::encoding(v.name, version) + String::encoding(v.value, version)
}

/// The `EnvVar` whose fields follow each other at the start of `src`.
#[verifier::opaque]
pub open spec fn env_var_decoding(src: Seq<u8>, version: Version) -> Result<
    (EnvVarView, nat),
    DecodeError,
> {
    match String::decoding(src, version) {
        Err(e) => Err(e),
        Ok((name, n0)) => {
            let src = src.skip(n0 as int);
            match String::decoding(src, version) {
                Err(e) => Err(e),
                Ok((value, n1)) => {
                    Ok((
                        EnvVarView { name, value },
                        n0 + n1,
                    ))
                },
            }
        },
    }
}

/// How many bytes of `src` have been read when reading a `EnvVar` fails:
/// the fields before the one that fails, and what was read of that one.
#[verifier::opaque]
pub open spec fn env_var_failure_at(src: Seq<u8>, version: Version) -> nat {
    match String::decoding(src, version) {
        Err(_) => String::failure_at(src, version),
        Ok((_, n0)) => {
            let src = src.skip(n0 as int);
            n0 + String::failure_at(src, version)
        },
    }
}

impl Encoder for EnvVar {
    open spec fn encoding(v: EnvVarView, version: Version) -> Seq<u8> {
        env_var_encoding(v, version)
    }

    open spec fn encodable(v: EnvVarView, version: Version) -> bool {
        &&& String::encodable(v.name, version)
        &&& String::encodable(v.value, version)
    }

    fn write_size(&self, version: Version) -> (n: usize) {
        reveal(env_var_encoding);
        self.name.write_size(version) + self.value.write_size(version)
    }

    fn encode(&self, dest: &mut Vec<u8>, version: Version) {
        self.name.encode(dest, version);
        self.value.encode(dest, version);
        assert(dest@ =~= old(dest)@ + env_var_encoding(self.deep_view(), version)) by {
            reveal(env_var_encoding);
        }
    }
}

impl Decoder for EnvVar {
    open spec fn decoding(src: Seq<u8>, version: Version) -> Result<
        (EnvVarView, nat),
        DecodeError,
    > {
        env_var_decoding(src, version)
    }

    open spec fn failure_at(src: Seq<u8>, version: Version) -> nat {
        env_var_failure_at(src, version)
    }

    fn decode(&mut self, src: &mut ByteReader<'_>, version: Version) -> (r: Result<
        (),
        DecodeError,
    >) {
        reveal(env_var_decoding);
        reveal(env_var_failure_at);
        let ghost rest0 = src.rest();
        let mut name: String = String::new();
        name.decode(src, version)?;
        let mut value: String = String::new();
        value.decode(src, version)?;
        proof {
            use_type_invariant(&*src);
            assert(src.rest() =~= rest0.skip(src.position() - old(src).position()));
        }
        *self = EnvVar { name, value };
        Ok(())
    }

    proof fn lemma_decoding_in_bounds(src: Seq<u8>, version: Version) {
        reveal(env_var_decoding);
        String::lemma_decoding_in_bounds(src, version);
        if let Ok((_, n0)) = String::decoding(src, version) {
            let src = src.skip(n0 as int);
            String::lemma_decoding_in_bounds(src, version);
        }
    }

    proof fn lemma_round_trip(v: EnvVarView, version: Version, tail: Seq<u8>) {
        reveal(env_var_encoding);
        reveal(env_var_decoding);
        let e0 = String::encoding(v.name, version);
        let e1 = String::encoding(v.value, version);
        let r0 = e1 + tail;
        lemma_join2(e0, e1, tail);
        String::lemma_round_trip(v.name, version, r0);
        lemma_skip_joined(e0, r0);
        String::lemma_round_trip(v.value, version, tail);
    }
}

/// Where a storage unit keeps its logs, and how much room it may take.
#[derive(Debug, Clone, PartialEq, Eq)]
pub struct StorageConfig {
    pub log_dir: Option<String>,
    pub size: Option<String>,
}

/// The mathematical model of `StorageConfig`.
pub struct StorageConfigView {
    pub log_dir: Option<Seq<char>>,
    pub size: Option<Seq<char>>,
}

impl DeepView for StorageConfig {
    type V = StorageConfigView;

    open spec fn deep_view(&self) -> StorageConfigView {
        StorageConfigView {
            log_dir: self.log_dir.deep_view(),
            size: self.size.deep_view(),
        }
    }
}

impl StorageConfig {
    /// The value that stands where nothing was set.
    pub open spec fn blank() -> StorageConfigView {
        StorageConfigView {
            log_dir: None::<Seq<char>>,
            size: None::<Seq<char>>,
        }
    }
}

impl Default for StorageConfig {
    fn default() -> (r: Self)
        ensures
            r.deep_view() == StorageConfig::blank(),
    {
        StorageConfig {
            log_dir: None,
            size: None,
        }
    }
}

/// The fields of `StorageConfig`, one after the other.
#[verifier::opaque]
pub open spec fn storage_config_encoding(v: StorageConfigView, version: Version) -> Seq<u8> {
    Option::<String>::encoding(v.log_dir, version) + Option::<String>::encoding(v.size, version)
}

/// The `StorageConfig` whose fields follow each other at the start of `src`.
#[verifier::opaque]
pub open spec fn storage_config_decoding(src: Seq<u8>, version: Version) -> Result<
    (StorageConfigView, nat),
    DecodeError,
> {
    match Option::<String>::decoding(src, version) {
        Err(e) => Err(e),
        Ok((log_dir, n0)) => {
            let src = src.skip(n0 as int);
            match Option::<String>::decoding(src, version) {
                Err(e) => Err(e),
                Ok((size, n1)) => {
                    Ok((
                        StorageConfigView { log_dir, size },
                        n0 + n1,
                    ))
                },
            }
        },
    }
}

/// How many bytes of `src` have been read when reading a `StorageConfig` fails:
/// the fields before the one that fails, and what was read of that one.
#[verifier::opaque]
pub open spec fn storage_config_failure_at(src: Seq<u8>, version: Version) -> nat {
    match Option::<String>::decoding(src, version) {
        Err(_) => Option::<String>::failure_at(src, version),
        Ok((_, n0)) => {
            let src = src.skip(n0 as int);
            n0 + Option::<String>::failure_at(src, version)
        },
    }
}

impl Encoder for StorageConfig {
    open spec fn encoding(v: StorageConfigView, version: Version) -> Seq<u8> {
        storage_config_encoding(v, version)
    }

    open spec fn encodable(v: StorageConfigView, version: Version) -> bool {
        &&& Option::<String>::encodable(v.log_dir, version)
        &&& Option::<String>::encodable(v.size, version)
    }

    fn write_size(&self, version: Version) -> (n: usize) {
        reveal(storage_config_encoding);
        self.log_dir.write_size(version) + self.size.write_size(version)
    }

    fn encode(&self, dest: &mut Vec<u8>, version: Version) {
        self.log_dir.encode(dest, version);
        self.size.encode(dest, version);
        assert(dest@ =~= old(dest)@ + storage_config_encoding(self.deep_view(), version)) by {
            reveal(storage_config_encoding);
        }
    }
}

impl Decoder for StorageConfig {
    open spec fn decoding(src: Seq<u8>, version: Version) -> Result<
        (StorageConfigView, nat),
        DecodeError,
    > {
        storage_config_decoding(src, version)
    }

    open spec fn failure_at(src: Seq<u8>, version: Version) -> nat {
        storage_config_failure_at(src, version)
    }

    fn decode(&mut self, src: &mut ByteReader<'_>, version: Version) -> (r: Result<
        (),
        DecodeError,
    >) {
        reveal(storage_config_decoding);
        reveal(storage_config_failure_at);
        let ghost rest0 = src.rest();
        let mut log_dir: Option<String> = None;
        log_dir.decode(src, version)?;
        let mut size: Option<String> = None;
        size.decode(src, version)?;
        proof {
            use_type_invariant(&*src);
            assert(src.rest() =~= rest0.skip(src.position() - old(src).position()));
        }
        *self = StorageConfig { log_dir, size };
        Ok(())
    }

    proof fn lemma_decoding_in_bounds(src: Seq<u8>, version: Version) {
        reveal(storage_config_decoding);
        Option::<String>::lemma_decoding_in_bounds(src, version);
        if let Ok((_, n0)) = Option::<String>::decoding(src, version) {
            let src = src.skip(n0 as int);
            Option::<String>::lemma_decoding_in_bounds(src, version);
        }
    }

    proof fn lemma_round_trip(v: StorageConfigView, version: Version, tail: Seq<u8>) {
        reveal(storage_config_encoding);
        reveal(storage_config_decoding);
        let e0 = Option::<String>::encoding(v.log_dir, version);
        let e1 = Option::<String>::encoding(v.size, version);
        let r0 = e1 + tail;
        lemma_join2(e0, e1, tail);
        Option::<String>::lemma_round_trip(v.log_dir, version, r0);
        lemma_skip_joined(e0, r0);
        Option::<String>::lemma_round_trip(v.size, version, tail);
    }
}

/// How a storage unit replicates.
#[derive(Debug, Clone, PartialEq, Eq)]
pub struct ReplicationConfig {
    pub in_sync_replica_min: Option<u16>,
}

/// The mathematical model of `ReplicationConfig`.
pub struct ReplicationConfigView {
    pub in_sync_replica_min: Option<u16>,
}

impl DeepView for ReplicationConfig {
    type V = ReplicationConfigView;

    open spec fn deep_view(&self) -> ReplicationConfigView {
        ReplicationConfigView {
            in_sync_replica_min: self.in_sync_replica_min.deep_view(),
        }
    }
}

impl ReplicationConfig {
    /// The value that stands where nothing was set.
    pub open spec fn blank() -> ReplicationConfigView {
        ReplicationConfigView {
            in_sync_replica_min: None::<u16>,
        }
    }
}

impl Default for ReplicationConfig {
    fn default() -> (r: Self)
        ensures
            r.deep_view() == ReplicationConfig::blank(),
    {
        ReplicationConfig {
            in_sync_replica_min: None,
        }
    }
}

/// The fields of `ReplicationConfig`, one after the other.
#[verifier::opaque]
pub open spec fn replication_config_encoding(
    v: ReplicationConfigView,
    version: Version,
) -> Seq<u8> {
    Option::<u16>::encoding(v.in_sync_replica_min, version)
}

/// The `ReplicationConfig` whose fields follow each other at the start of `src`.
#[verifier::opaque]
pub open spec fn replication_config_decoding(src: Seq<u8>, version: Version) -> Result<
    (ReplicationConfigView, nat),
    DecodeError,
> {
    match Option::<u16>::decoding(src, version) {
        Err(e) => Err(e),
        Ok((in_sync_replica_min, n0)) => {
            Ok((
                ReplicationConfigView { in_sync_replica_min },
                n0,
            ))
        },
    }
}

/// How many bytes of `src` have been read when reading a `ReplicationConfig` fails:
/// the fields before the one that fails, and what was read of that one.
#[verifier::opaque]
pub open spec fn replication_config_failure_at(src: Seq<u8>, version: Version) -> nat {
    Option::<u16>::failure_at(src, version)
}

impl Encoder for ReplicationConfig {
    open spec fn encoding(v: ReplicationConfigView, version: Version) -> Seq<u8> {
        replication_config_encoding(v, version)
    }

    open spec fn encodable(v: ReplicationConfigView, version: Version) -> bool {
        &&& Option::<u16>::encodable(v.in_sync_replica_min, version)
    }

    fn write_size(&self, version: Version) -> (n: usize) {
        reveal(replication_config_encoding);
        self.in_sync_replica_min.write_size(version)
    }

    fn encode(&self, dest: &mut Vec<u8>, version: Version) {
        self.in_sync_replica_min.encode(dest, version);
        assert(dest@ =~= old(dest)@ + replication_config_encoding(self.deep_view(), version)) by {
            reveal(replication_config_encoding);
        }
    }
}

impl Decoder for ReplicationConfig {
    open spec fn decoding(src: Seq<u8>, version: Version) -> Result<
        (ReplicationConfigView, nat),
        DecodeError,
    > {
        replication_config_decoding(src, version)
    }

    open spec fn failure_at(src: Seq<u8>, version: Version) -> nat {
        replication_config_failure_at(src, version)
    }

    fn decode(&mut self, src: &mut ByteReader<'_>, version: Version) -> (r: Result<
        (),
        DecodeError,
    >) {
        reveal(replication_config_decoding);
        reveal(replication_config_failure_at);
        let ghost rest0 = src.rest();
        let mut in_sync_replica_min: Option<u16> = None;
        in_sync_replica_min.decode(src, version)?;
        proof {
            use_type_invariant(&*src);
            assert(src.rest() =~= rest0.skip(src.position() - old(src).position()));
        }
        *self = ReplicationConfig { in_sync_replica_min };
        Ok(())
    }

    proof fn lemma_decoding_in_bounds(src: Seq<u8>, version: Version) {
        reveal(replication_config_decoding);
        Option::<u16>::lemma_decoding_in_bounds(src, version);
    }

    proof fn lemma_round_trip(v: ReplicationConfigView, version: Version, tail: Seq<u8>) {
        reveal(replication_config_encoding);
        reveal(replication_config_decoding);
        let e0 = Option::<u16>::encoding(v.in_sync_replica_min, version);
        Option::<u16>::lemma_round_trip(v.in_sync_replica_min, version, tail);
    }
}

/// The settings shared by the storage units of a group.
#[derive(Debug, Clone, PartialEq, Eq)]
pub struct SpuConfig {
    pub rack: Option<String>,
    pub replication: Option<ReplicationConfig>,
    pub storage: Option<StorageConfig>,
    pub env: Vec<EnvVar>,
}

/// The mathematical model of `SpuConfig`.
pub struct SpuConfigView {
    pub rack: Option<Seq<char>>,
    pub replication: Option<ReplicationConfigView>,
    pub storage: Option<StorageConfigView>,
    pub env: Seq<EnvVarView>,
}

impl DeepView for SpuConfig {
    type V = SpuConfigView;

    open spec fn deep_view(&self) -> SpuConfigView {
        SpuConfigView {
            rack: self.rack.deep_view(),
            replication: self.replication.deep_view(),
            storage: self.storage.deep_view(),
            env: self.env.deep_view(),
        }
    }
}

impl SpuConfig {
    /// The value that stands where nothing was set.
    pub open spec fn blank() -> SpuConfigView {
        SpuConfigView {
            rack: None::<Seq<char>>,
            replication: None::<ReplicationConfigView>,
            storage: None::<StorageConfigView>,
            env: Seq::<EnvVarView>::empty(),
        }
    }
}

impl Default for SpuConfig {
    fn default() -> (r: Self)
        ensures
            r.deep_view() == SpuConfig::blank(),
    {
        let r = SpuConfig {
            rack: None,
            replication: None,
            storage: None,
            env: Vec::new(),
        };
        assert(r.env.deep_view() =~= Seq::<EnvVarView>::empty());
        r
    }
}

/// The fields of `SpuConfig`, one after the other.
#[verifier::opaque]
pub open spec fn spu_config_encoding(v: SpuConfigView, version: Version) -> Seq<u8> {
    Option::<String>::encoding(v.rack, version)
        + Option::<ReplicationConfig>::encoding(v.replication, version)
        + Option::<StorageConfig>::encoding(v.storage, version)
        + Vec::<EnvVar>::encoding(v.env, version)
}

/// The `SpuConfig` whose fields follow each other at the start of `src`.
#[verifier::opaque]
pub open spec fn spu_config_decoding(src: Seq<u8>, version: Version) -> Result<
    (SpuConfigView, nat),
    DecodeError,
> {
    match Option::<String>::decoding(src, version) {
        Err(e) => Err(e),
        Ok((rack, n0)) => {
            let src = src.skip(n0 as int);
            match Option::<ReplicationConfig>::decoding(src, version) {
                Err(e) => Err(e),
                Ok((replication, n1)) => {
                    let src = src.skip(n1 as int);
                    match Option::<StorageConfig>::decoding(src, version) {
                        Err(e) => Err(e),
                        Ok((storage, n2)) => {
                            let src = src.skip(n2 as int);
                            match Vec::<EnvVar>::decoding(src, version) {
                                Err(e) => Err(e),
                                Ok((env, n3)) => {
                                    Ok((
                                        SpuConfigView { rack, replication, storage, env },
                                        n0 + n1 + n2 + n3,
                                    ))
                                },
                            }
                        },
                    }
                },
            }
        },
    }
}

/// How many bytes of `src` have been read when reading a `SpuConfig` fails:
/// the fields before the one that fails, and what was read of that one.
#[verifier::opaque]
pub open spec fn spu_config_failure_at(src: Seq<u8>, version: Version) -> nat {
    match Option::<String>::decoding(src, version) {
        Err(_) => Option::<String>::failure_at(src, version),
        Ok((_, n0)) => {
            let src = src.skip(n0 as int);
            match Option::<ReplicationConfig>::decoding(src, version) {
                Err(_) => n0 + Option::<ReplicationConfig>::failure_at(src, version),
                Ok((_, n1)) => {
                    let src = src.skip(n1 as int);
                    match Option::<StorageConfig>::decoding(src, version) {
                        Err(_) => n0 + n1 + Option::<StorageConfig>::failure_at(src, version),
                        Ok((_, n2)) => {
                            let src = src.skip(n2 as int);
                            n0 + n1 + n2 + Vec::<EnvVar>::failure_at(src, version)
                        },
                    }
                },
            }
        },
    }
}

impl Encoder for SpuConfig {
    open spec fn encoding(v: SpuConfigView, version: Version) -> Seq<u8> {
        spu_config_encoding(v, version)
    }

    open spec fn encodable(v: SpuConfigView, version: Version) -> bool {
        &&& Option::<String>::encodable(v.rack, version)
        &&& Option::<ReplicationConfig>::encodable(v.replication, version)
        &&& Option::<StorageConfig>::encodable(v.storage, version)
        &&& Vec::<EnvVar>::encodable(v.env, version)
    }

    fn write_size(&self, version: Version) -> (n: usize) {
        reveal(spu_config_encoding);
        self.rack.write_size(version)
            + self.replication.write_size(version)
            + self.storage.write_size(version)
            + self.env.write_size(version)
    }

    fn encode(&self, dest: &mut Vec<u8>, version: Version) {
        self.rack.encode(dest, version);
        self.replication.encode(dest, version);
        self.storage.encode(dest, version);
        self.env.encode(dest, version);
        assert(dest@ =~= old(dest)@ + spu_config_encoding(self.deep_view(), version)) by {
            reveal(spu_config_encoding);
        }
    }
}

impl Decoder for SpuConfig {
    open spec fn decoding(src: Seq<u8>, version: Version) -> Result<
        (SpuConfigView, nat),
        DecodeError,
    > {
        spu_config_decoding(src, version)
    }

    open spec fn failure_at(src: Seq<u8>, version: Version) -> nat {
        spu_config_failure_at(src, version)
    }

    fn decode(&mut self, src: &mut ByteReader<'_>, version: Version) -> (r: Result<
        (),
        DecodeError,
    >) {
        reveal(spu_config_decoding);
        reveal(spu_config_failure_at);
        let ghost rest0 = src.rest();
        let mut rack: Option<String> = None;
        rack.decode(src, version)?;
        let mut replication: Option<ReplicationConfig> = None;
        replication.decode(src, version)?;
        let mut storage: Option<StorageConfig> = None;
        storage.decode(src, version)?;
        let mut env: Vec<EnvVar> = Vec::new();
        assert(env.deep_view() =~= Seq::<EnvVarView>::empty());
        env.decode(src, version)?;
        proof {
            use_type_invariant(&*src);
            assert(src.rest() =~= rest0.skip(src.position() - old(src).position()));
        }
        *self = SpuConfig { rack, replication, storage, env };
        Ok(())
    }

    proof fn lemma_decoding_in_bounds(src: Seq<u8>, version: Version) {
        reveal(spu_config_decoding);
        Option::<String>::lemma_decoding_in_bounds(src, version);
        if let Ok((_, n0)) = Option::<String>::decoding(src, version) {
            let src = src.skip(n0 as int);
            Option::<ReplicationConfig>::lemma_decoding_in_bounds(src, version);
            if let Ok((_, n1)) = Option::<ReplicationConfig>::decoding(src, version) {
                let src = src.skip(n1 as int);
                Option::<StorageConfig>::lemma_decoding_in_bounds(src, version);
                if let Ok((_, n2)) = Option::<StorageConfig>::decoding(src, version) {
                    let src = src.skip(n2 as int);
                    Vec::<EnvVar>::lemma_decoding_in_bounds(src, version);
                }
            }
        }
    }

    proof fn lemma_round_trip(v: SpuConfigView, version: Version, tail: Seq<u8>) {
        reveal(spu_config_encoding);
        reveal(spu_config_decoding);
        let e0 = Option::<String>::encoding(v.rack, version);
        let e1 = Option::<ReplicationConfig>::encoding(v.replication, version);
        let e2 = Option::<StorageConfig>::encoding(v.storage, version);
        let e3 = Vec::<EnvVar>::encoding(v.env, version);
        let r2 = e3 + tail;
        let r1 = e2 + r2;
        let r0 = e1 + r1;
        lemma_join4(e0, e1, e2, e3, tail);
        Option::<String>::lemma_round_trip(v.rack, version, r0);
        lemma_skip_joined(e0, r0);
        Option::<ReplicationConfig>::lemma_round_trip(v.replication, version, r1);
        lemma_skip_joined(e1, r1);
        Option::<StorageConfig>::lemma_round_trip(v.storage, version, r2);
        lemma_skip_joined(e2, r2);
        Vec::<EnvVar>::lemma_round_trip(v.env, version, tail);
    }
}

/// A group of storage units that the cluster runs itself.
#[derive(Debug, Clone, PartialEq, Eq)]
pub struct SpuGroupSpec {
    /// How many storage units the group has.
    pub replicas: u16,
    /// The id of the first storage unit of the group.
    pub min_id: i32,
    pub spu_config: SpuConfig,
}

/// The mathematical model of `SpuGroupSpec`.
pub struct SpuGroupSpecView {
    pub replicas: u16,
    pub min_id: i32,
    pub spu_config: SpuConfigView,
}

impl DeepView for SpuGroupSpec {
    type V = SpuGroupSpecView;

    open spec fn deep_view(&self) -> SpuGroupSpecView {
        SpuGroupSpecView {
            replicas: self.replicas.deep_view(),
            min_id: self.min_id.deep_view(),
            spu_config: self.spu_config.deep_view(),
        }
    }
}

impl SpuGroupSpec {
    /// The value that stands where nothing was set.
    pub open spec fn blank() -> SpuGroupSpecView {
        SpuGroupSpecView {
            replicas: 0,
            min_id: 0,
            spu_config: SpuConfig::blank(),
        }
    }
}

impl Default for SpuGroupSpec {
    fn default() -> (r: Self)
        ensures
            r.deep_view() == SpuGroupSpec::blank(),
    {
        SpuGroupSpec {
            replicas: 0,
            min_id: 0,
            spu_config: SpuConfig::default(),
        }
    }
}

/// The fields of `SpuGroupSpec`, one after the other.
#[verifier::opaque]
pub open spec fn spu_group_spec_encoding(v: SpuGroupSpecView, version: Version) -> Seq<u8> {
    u16::encoding(v.replicas, version)
        + i32::encoding(v.min_id, version)
        + SpuConfig::encoding(v.spu_config, version)
}

/// The `SpuGroupSpec` whose fields follow each other at the start of `src`.
#[verifier::opaque]
pub open spec fn spu_group_spec_decoding(src: Seq<u8>, version: Version) -> Result<
    (SpuGroupSpecView, nat),
    DecodeError,
> {
    match u16::decoding(src, version) {
        Err(e) => Err(e),
        Ok((replicas, n0)) => {
            let src = src.skip(n0 as int);
            match i32::decoding(src, version) {
                Err(e) => Err(e),
                Ok((min_id, n1)) => {
                    let src = src.skip(n1 as int);
                    match SpuConfig::decoding(src, version) {
                        Err(e) => Err(e),
                        Ok((spu_config, n2)) => {
                            Ok((
                                SpuGroupSpecView { replicas, min_id, spu_config },
                                n0 + n1 + n2,
                            ))
                        },
                    }
                },
            }
        },
    }
}

/// How many bytes of `src` have been read when reading a `SpuGroupSpec` fails:
/// the fields before the one that fails, and what was read of that one.
#[verifier::opaque]
pub open spec fn spu_group_spec_failure_at(src: Seq<u8>, version: Version) -> nat {
    match u16::decoding(src, version) {
        Err(_) => u16::failure_at(src, version),
        Ok((_, n0)) => {
            let src = src.skip(n0 as int);
            match i32::decoding(src, version) {
                Err(_) => n0 + i32::failure_at(src, version),
                Ok((_, n1)) => {
                    let src = src.skip(n1 as int);
                    n0 + n1 + SpuConfig::failure_at(src, version)
                },
            }
        },
    }
}

impl Encoder for SpuGroupSpec {
    open spec fn encoding(v: SpuGroupSpecView, version: Version) -> Seq<u8> {
        spu_group_spec_encoding(v, version)
    }

    open spec fn encodable(v: SpuGroupSpecView, version: Version) -> bool {
        &&& u16::encodable(v.replicas, version)
        &&& i32::encodable(v.min_id, version)
        &&& SpuConfig::encodable(v.spu_config, version)
    }

    fn write_size(&self, version: Version) -> (n: usize) {
        reveal(spu_group_spec_encoding);
        self.replicas.write_size(version)
            + self.min_id.write_size(version)
            + self.spu_config.write_size(version)
    }

    fn encode(&self, dest: &mut Vec<u8>, version: Version) {
        self.replicas.encode(dest, version);
        self.min_id.encode(dest, version);
        self.spu_config.encode(dest, version);
        assert(dest@ =~= old(dest)@ + spu_group_spec_encoding(self.deep_view(), version)) by {
            reveal(spu_group_spec_encoding);
        }
    }
}

impl Decoder for SpuGroupSpec {
    open spec fn decoding(src: Seq<u8>, version: Version) -> Result<
        (SpuGroupSpecView, nat),
        DecodeError,
    > {
        spu_group_spec_decoding(src, version)
    }

    open spec fn failure_at(src: Seq<u8>, version: Version) -> nat {
        spu_group_spec_failure_at(src, version)
    }

    fn decode(&mut self, src: &mut ByteReader<'_>, version: Version) -> (r: Result<
        (),
        DecodeError,
    >) {
        reveal(spu_group_spec_decoding);
        reveal(spu_group_spec_failure_at);
        let ghost rest0 = src.rest();
        let mut replicas: u16 = 0;
        replicas.decode(src, version)?;
        let mut min_id: i32 = 0;
        min_id.decode(src, version)?;
        let mut spu_config: SpuConfig = SpuConfig::default();
        spu_config.decode(src, version)?;
        proof {
            use_type_invariant(&*src);
            assert(src.rest() =~= rest0.skip(src.position() - old(src).position()));
        }
        *self = SpuGroupSpec { replicas, min_id, spu_config };
        Ok(())
    }

    proof fn lemma_decoding_in_bounds(src: Seq<u8>, version: Version) {
        reveal(spu_group_spec_decoding);
        u16::lemma_decoding_in_bounds(src, version);
        if let Ok((_, n0)) = u16::decoding(src, version) {
            let src = src.skip(n0 as int);
            i32::lemma_decoding_in_bounds(src, version);
            if let Ok((_, n1)) = i32::decoding(src, version) {
                let src = src.skip(n1 as int);
                SpuConfig::lemma_decoding_in_bounds(src, version);
            }
        }
    }

    proof fn lemma_round_trip(v: SpuGroupSpecView, version: Version, tail: Seq<u8>) {
        reveal(spu_group_spec_encoding);
        reveal(spu_group_spec_decoding);
        let e0 = u16::encoding(v.replicas, version);
        let e1 = i32::encoding(v.min_id, version);
        let e2 = SpuConfig::encoding(v.spu_config, version);
        let r1 = e2 + tail;
        let r0 = e1 + r1;
        lemma_join3(e0, e1, e2, tail);
        u16::lemma_round_trip(v.replicas, version, r0);
        lemma_skip_joined(e0, r0);
        i32::lemma_round_trip(v.min_id, version, r1);
        lemma_skip_joined(e1, r1);
        SpuConfig::lemma_round_trip(v.spu_config, version, tail);
    }
}

} // verus!
