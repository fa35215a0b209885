//! Topics: named streams of records, split into partitions.

use vstd::prelude::*;
use crate::codec::error::{DecodeError, Invalid};
use crate::codec::reader::ByteReader;
use crate::codec::sequence::{lemma_join2, lemma_join3, lemma_skip_joined};
use crate::codec::traits::{Decoder, Encoder, Version};

verus! {

/// Identifies a storage unit.
pub type SpuId = i32;

/// Identifies a partition of a topic.
pub type PartitionId = i32;

/// How many partitions a topic has and how often each is replicated, where the
/// system places the replicas.
#[derive(Debug, Clone, Copy, PartialEq, Eq, Structural)]
pub struct TopicReplicaParam {
    pub partitions: i32,
    pub replication_factor: i32,
    pub ignore_rack_assignment: bool,
}

impl DeepView for TopicReplicaParam {
    type V = TopicReplicaParam;

    open spec fn deep_view(&self) -> TopicReplicaParam {
        *self
    }
}

impl TopicReplicaParam {
    /// The value that stands where nothing was set.
    pub open spec fn blank() -> TopicReplicaParam {
        TopicReplicaParam {
            partitions: 0,
            replication_factor: 0,
            ignore_rack_assignment: false,
        }
    }
}

impl Default for TopicReplicaParam {
    fn default() -> (r: Self)
        ensures
            r.deep_view() == TopicReplicaParam::blank(),
    {
        TopicReplicaParam {
            partitions: 0,
            replication_factor: 0,
            ignore_rack_assignment: false,
        }
    }
}

/// The fields of `TopicReplicaParam`, one after the other.
#[verifier::opaque]
pub open spec fn topic_replica_param_encoding(v: TopicReplicaParam, version: Version) -> Seq<u8> {
    i32::encoding(v.partitions, version)
        + i32::encoding(v.replication_factor, version)
        + bool::encoding(v.ignore_rack_assignment, version)
}

/// The `TopicReplicaParam` whose fields follow each other at the start of `src`.
#[verifier::opaque]
pub open spec fn topic_replica_param_decoding(src: Seq<u8>, version: Version) -> Result<
    (TopicReplicaParam, nat),
    DecodeError,
> {
    match i32::decoding(src, version) {
        Err(e) => Err(e),
        Ok((partitions, n0)) => {
            let src = src.skip(n0 as int);
            match i32::decoding(src, version) {
                Err(e) => Err(e),
                Ok((replication_factor, n1)) => {
                    let src = src.skip(n1 as int);
                    match bool::decoding(src, version) {
                        Err(e) => Err(e),
                        Ok((ignore_rack_assignment, n2)) => {
                            Ok((
                                TopicReplicaParam {
                                    partitions,
                                    replication_factor,
                                    ignore_rack_assignment,
                                },
                                n0 + n1 + n2,
                            ))
                        },
                    }
                },
            }
        },
    }
}

/// How many bytes of `src` have been read when reading a `TopicReplicaParam` fails:
/// the fields before the one that fails, and what was read of that one.
#[verifier::opaque]
pub open spec fn topic_replica_param_failure_at(src: Seq<u8>, version: Version) -> nat {
    match i32::decoding(src, version) {
        Err(_) => i32::failure_at(src, version),
        Ok((_, n0)) => {
            let src = src.skip(n0 as int);
            match i32::decoding(src, version) {
                Err(_) => n0 + i32::failure_at(src, version),
                Ok((_, n1)) => {
                    let src = src.skip(n1 as int);
                    n0 + n1 + bool::failure_at(src, version)
                },
            }
        },
    }
}

impl Encoder for TopicReplicaParam {
    open spec fn encoding(v: TopicReplicaParam, version: Version) -> Seq<u8> {
        topic_replica_param_encoding(v, version)
    }

    open spec fn encodable(v: TopicReplicaParam, version: Version) -> bool {
        &&& i32::encodable(v.partitions, version)
        &&& i32::encodable(v.replication_factor, version)
        &&& bool::encodable(v.ignore_rack_assignment, version)
    }

    fn write_size(&self, version: Version) -> (n: usize) {
        reveal(topic_replica_param_encoding);
        self.partitions.write_size(version)
            + self.replication_factor.write_size(version)
            + self.ignore_rack_assignment.write_size(version)
    }

    fn encode(&self, dest: &mut Vec<u8>, version: Version) {
        self.partitions.encode(dest, version);
        self.replication_factor.encode(dest, version);
        self.ignore_rack_assignment.encode(dest, version);
        assert(dest@ =~= old(dest)@ + topic_replica_param_encoding(self.deep_view(), version)) by {
            reveal(topic_replica_param_encoding);
        }
    }
}

impl Decoder for TopicReplicaParam {
    open spec fn decoding(src: Seq<u8>, version: Version) -> Result<
        (TopicReplicaParam, nat),
        DecodeError,
    > {
        topic_replica_param_decoding(src, version)
    }

    open spec fn failure_at(src: Seq<u8>, version: Version) -> nat {
        topic_replica_param_failure_at(src, version)
    }

    fn decode(&mut self, src: &mut ByteReader<'_>, version: Version) -> (r: Result<
        (),
        DecodeError,
    >) {
        reveal(topic_replica_param_decoding);
        reveal(topic_replica_param_failure_at);
        let ghost rest0 = src.rest();
        let mut partitions: i32 = 0;
        partitions.decode(src, version)?;
        let mut replication_factor: i32 = 0;
        replication_factor.decode(src, version)?;
        let mut ignore_rack_assignment: bool = false;
        ignore_rack_assignment.decode(src, version)?;
        proof {
            use_type_invariant(&*src);
            assert(src.rest() =~= rest0.skip(src.position() - old(src).position()));
        }
        *self = TopicReplicaParam { partitions, replication_factor, ignore_rack_assignment };
        Ok(())
    }

    proof fn lemma_decoding_in_bounds(src: Seq<u8>, version: Version) {
        reveal(topic_replica_param_decoding);
        i32::lemma_decoding_in_bounds(src, version);
        if let Ok((_, n0)) = i32::decoding(src, version) {
            let src = src.skip(n0 as int);
            i32::lemma_decoding_in_bounds(src, version);
            if let Ok((_, n1)) = i32::decoding(src, version) {
                let src = src.skip(n1 as int);
                bool::lemma_decoding_in_bounds(src, version);
            }
        }
    }

    proof fn lemma_round_trip(v: TopicReplicaParam, version: Version, tail: Seq<u8>) {
        reveal(topic_replica_param_encoding);
        reveal(topic_replica_param_decoding);
        let e0 = i32::encoding(v.partitions, version);
        let e1 = i32::encoding(v.replication_factor, version);
        let e2 = bool::encoding(v.ignore_rack_assignment, version);
        let r1 = e2 + tail;
        let r0 = e1 + r1;
        lemma_join3(e0, e1, e2, tail);
        i32::lemma_round_trip(v.partitions, version, r0);
        lemma_skip_joined(e0, r0);
        i32::lemma_round_trip(v.replication_factor, version, r1);
        lemma_skip_joined(e1, r1);
        bool::lemma_round_trip(v.ignore_rack_assignment, version, tail);
    }
}

/// The storage units that hold the replicas of one partition.
#[derive(Debug, Clone, PartialEq, Eq)]
pub struct PartitionMap {
    pub id: PartitionId,
    pub replicas: Vec<SpuId>,
}

/// The mathematical model of `PartitionMap`.
pub struct PartitionMapView {
    pub id: PartitionId,
    pub replicas: Seq<SpuId>,
}

impl DeepView for PartitionMap {
    type V = PartitionMapView;

    open spec fn deep_view(&self) -> PartitionMapView {
        PartitionMapView {
            id: self.id.deep_view(),
            replicas: self.replicas.deep_view(),
        }
    }
}

impl PartitionMap {
    /// The value that stands where nothing was set.
    pub open spec fn blank() -> PartitionMapView {
        PartitionMapView {
            id: 0,
            replicas: Seq::<SpuId>::empty(),
        }
    }
}

impl Default for PartitionMap {
    fn default() -> (r: Self)
        ensures
            r.deep_view() == PartitionMap::blank(),
    {
        let r = PartitionMap {
            id: 0,
            replicas: Vec::new(),
        };
        assert(r.replicas.deep_view() =~= Seq::<SpuId>::empty());
        r
    }
}

/// The fields of `PartitionMap`, one after the other.
#[verifier::opaque]
pub open spec fn partition_map_encoding(v: PartitionMapView, version: Version) -> Seq<u8> {
    PartitionId::encoding(v.id, version) + Vec::<SpuId>::encoding(v.replicas, version)
}

/// The `PartitionMap` whose fields follow each other at the start of `src`.
#[verifier::opaque]
pub open spec fn partition_map_decoding(src: Seq<u8>, version: Version) -> Result<
    (PartitionMapView, nat),
    DecodeError,
> {
    match PartitionId::decoding(src, version) {
        Err(e) => Err(e),
        Ok((id, n0)) => {
            let src = src.skip(n0 as int);
            match Vec::<SpuId>::decoding(src, version) {
                Err(e) => Err(e),
                Ok((replicas, n1)) => {
                    Ok((
                        PartitionMapView { id, replicas },
                        n0 + n1,
                    ))
                },
            }
        },
    }
}

/// How many bytes of `src` have been read when reading a `PartitionMap` fails:
/// the fields before the one that fails, and what was read of that one.
#[verifier::opaque]
pub open spec fn partition_map_failure_at(src: Seq<u8>, version: Version) -> nat {
    match PartitionId::decoding(src, version) {
        Err(_) => PartitionId::failure_at(src, version),
        Ok((_, n0)) => {
            let src = src.skip(n0 as int);
            n0 + Vec::<SpuId>::failure_at(src, version)
        },
    }
}

impl Encoder for PartitionMap {
    open spec fn encoding(v: PartitionMapView, version: Version) -> Seq<u8> {
        partition_map_encoding(v, version)
    }

    open spec fn encodable(v: PartitionMapView, version: Version) -> bool {
        &&& PartitionId::encodable(v.id, version)
        &&& Vec::<SpuId>::encodable(v.replicas, version)
    }

    fn write_size(&self, version: Version) -> (n: usize) {
        reveal(partition_map_encoding);
        self.id.write_size(version) + self.replicas.write_size(version)
    }

    fn encode(&self, dest: &mut Vec<u8>, version: Version) {
        self.id.encode(dest, version);
        self.replicas.encode(dest, version);
        assert(dest@ =~= old(dest)@ + partition_map_encoding(self.deep_view(), version)) by {
            reveal(partition_map_encoding);
        }
    }
}

impl Decoder for PartitionMap {
    open spec fn decoding(src: Seq<u8>, version: Version) -> Result<
        (PartitionMapView, nat),
        DecodeError,
    > {
        partition_map_decoding(src, version)
    }

    open spec fn failure_at(src: Seq<u8>, version: Version) -> nat {
        partition_map_failure_at(src, version)
    }

    fn decode(&mut self, src: &mut ByteReader<'_>, version: Version) -> (r: Result<
        (),
        DecodeError,
    >) {
        reveal(partition_map_decoding);
        reveal(partition_map_failure_at);
        let ghost rest0 = src.rest();
        let mut id: PartitionId = 0;
        id.decode(src, version)?;
        let mut replicas: Vec<SpuId> = Vec::new();
        assert(replicas.deep_view() =~= Seq::<SpuId>::empty());
        replicas.decode(src, version)?;
        proof {
            use_type_invariant(&*src);
            assert(src.rest() =~= rest0.skip(src.position() - old(src).position()));
        }
        *self = PartitionMap { id, replicas };
        Ok(())
    }

    proof fn lemma_decoding_in_bounds(src: Seq<u8>, version: Version) {
        reveal(partition_map_decoding);
        PartitionId::lemma_decoding_in_bounds(src, version);
        if let Ok((_, n0)) = PartitionId::decoding(src, version) {
            let src = src.skip(n0 as int);
            Vec::<SpuId>::lemma_decoding_in_bounds(src, version);
        }
    }

    proof fn lemma_round_trip(v: PartitionMapView, version: Version, tail: Seq<u8>) {
        reveal(partition_map_encoding);
        reveal(partition_map_decoding);
        let e0 = PartitionId::encoding(v.id, version);
        let e1 = Vec::<SpuId>::encoding(v.replicas, version);
        let r0 = e1 + tail;
        lemma_join2(e0, e1, tail);
        PartitionId::lemma_round_trip(v.id, version, r0);
        lemma_skip_joined(e0, r0);
        Vec::<SpuId>::lemma_round_trip(v.replicas, version, tail);
    }
}

/// The placement of every partition of a topic, where the user assigns it.
#[derive(Debug, Clone, PartialEq, Eq)]
pub struct PartitionMaps {
    pub maps: Vec<PartitionMap>,
}

/// The mathematical model of `PartitionMaps`.
pub struct PartitionMapsView {
    pub maps: Seq<PartitionMapView>,
}

impl DeepView for PartitionMaps {
    type V = PartitionMapsView;

    open spec fn deep_view(&self) -> PartitionMapsView {
        PartitionMapsView {
            maps: self.maps.deep_view(),
        }
    }
}

impl PartitionMaps {
    /// The value that stands where nothing was set.
    pub open spec fn blank() -> PartitionMapsView {
        PartitionMapsView {
            maps: Seq::<PartitionMapView>::empty(),
        }
    }
}

impl Default for PartitionMaps {
    fn default() -> (r: Self)
        ensures
            r.deep_view() == PartitionMaps::blank(),
    {
        let r = PartitionMaps {
            maps: Vec::new(),
        };
        assert(r.maps.deep_view() =~= Seq::<PartitionMapView>::empty());
        r
    }
}

/// The fields of `PartitionMaps`, one after the other.
#[verifier::opaque]
pub open spec fn partition_maps_encoding(v: PartitionMapsView, version: Version) -> Seq<u8> {
    Vec::<PartitionMap>::encoding(v.maps, version)
}

/// The `PartitionMaps` whose fields follow each other at the start of `src`.
#[verifier::opaque]
pub open spec fn partition_maps_decoding(src: Seq<u8>, version: Version) -> Result<
    (PartitionMapsView, nat),
    DecodeError,
> {
    match Vec::<PartitionMap>::decoding(src, version) {
        Err(e) => Err(e),
        Ok((maps, n0)) => {
            Ok((
                PartitionMapsView { maps },
                n0,
            ))
        },
    }
}

/// How many bytes of `src` have been read when reading a `PartitionMaps` fails:
/// the fields before the one that fails, and what was read of that one.
#[verifier::opaque]
pub open spec fn partition_maps_failure_at(src: Seq<u8>, version: Version) -> nat {
    Vec::<PartitionMap>::failure_at(src, version)
}

impl Encoder for PartitionMaps {
    open spec fn encoding(v: PartitionMapsView, version: Version) -> Seq<u8> {
        partition_maps_encoding(v, version)
    }

    open spec fn encodable(v: PartitionMapsView, version: Version) -> bool {
        &&& Vec::<PartitionMap>::encodable(v.maps, version)
    }

    fn write_size(&self, version: Version) -> (n: usize) {
        reveal(partition_maps_encoding);
        self.maps.write_size(version)
    }

    fn encode(&self, dest: &mut Vec<u8>, version: Version) {
        self.maps.encode(dest, version);
        assert(dest@ =~= old(dest)@ + partition_maps_encoding(self.deep_view(), version)) by {
            reveal(partition_maps_encoding);
        }
    }
}

impl Decoder for PartitionMaps {
    open spec fn decoding(src: Seq<u8>, version: Version) -> Result<
        (PartitionMapsView, nat),
        DecodeError,
    > {
        partition_maps_decoding(src, version)
    }

    open spec fn failure_at(src: Seq<u8>, version: Version) -> nat {
        partition_maps_failure_at(src, version)
    }

    fn decode(&mut self, src: &mut ByteReader<'_>, version: Version) -> (r: Result<
        (),
        DecodeError,
    >) {
        reveal(partition_maps_decoding);
        reveal(partition_maps_failure_at);
        let ghost rest0 = src.rest();
        let mut maps: Vec<PartitionMap> = Vec::new();
        assert(maps.deep_view() =~= Seq::<PartitionMapView>::empty());
        maps.decode(src, version)?;
        proof {
            use_type_invariant(&*src);
            assert(src.rest() =~= rest0.skip(src.position() - old(src).position()));
        }
        *self = PartitionMaps { maps };
        Ok(())
    }

    proof fn lemma_decoding_in_bounds(src: Seq<u8>, version: Version) {
        reveal(partition_maps_decoding);
        Vec::<PartitionMap>::lemma_decoding_in_bounds(src, version);
    }

    proof fn lemma_round_trip(v: PartitionMapsView, version: Version, tail: Seq<u8>) {
        reveal(partition_maps_encoding);
        reveal(partition_maps_decoding);
        let e0 = Vec::<PartitionMap>::encoding(v.maps, version);
        Vec::<PartitionMap>::lemma_round_trip(v.maps, version, tail);
    }
}

/// The tag of a topic whose replicas the user assigned.
pub const ASSIGNED: u8 = 0;

/// The tag of a topic whose replicas the system places.
pub const COMPUTED: u8 = 1;

/// What a topic is asked to be.
#[derive(Debug, Clone, PartialEq, Eq)]
pub enum TopicSpec {
    /// The user names the storage units of every partition.
    Assigned(PartitionMaps),
    /// The system places the replicas.
    Computed(TopicReplicaParam),
}

/// The mathematical model of `TopicSpec`.
pub enum TopicSpecView {
    Assigned(PartitionMapsView),
    Computed(TopicReplicaParam),
}

impl DeepView for TopicSpec {
    type V = TopicSpecView;

    open spec fn deep_view(&self) -> TopicSpecView {
        match self {
            TopicSpec::Assigned(s) => TopicSpecView::Assigned(s.deep_view()),
            TopicSpec::Computed(s) => TopicSpecView::Computed(s.deep_view()),
        }
    }
}

impl TopicSpec {
    /// The value that stands where nothing was set: a fixed variant,
    /// itself blank.
    pub open spec fn blank() -> TopicSpecView {
        TopicSpecView::Assigned(PartitionMaps::blank())
    }
}

impl Default for TopicSpec {
    fn default() -> (r: Self)
        ensures
            r.deep_view() == TopicSpec::blank(),
    {
        TopicSpec::Assigned(PartitionMaps::default())
    }
}

/// The tag of the variant, then the variant itself.
#[verifier::opaque]
pub open spec fn topic_spec_encoding(v: TopicSpecView, version: Version) -> Seq<u8> {
    match v {
        TopicSpecView::Assigned(s) => u8::encoding(ASSIGNED, version)
            + PartitionMaps::encoding(s, version),
        TopicSpecView::Computed(s) => u8::encoding(COMPUTED, version)
            + TopicReplicaParam::encoding(s, version),
    }
}

/// The `TopicSpec` at the start of `src`: the variant that the tag byte names.
/// A tag that names no variant is an error; no variant stands in for it.
#[verifier::opaque]
pub open spec fn topic_spec_decoding(src: Seq<u8>, version: Version) -> Result<
    (TopicSpecView, nat),
    DecodeError,
> {
    match u8::decoding(src, version) {
        Err(e) => Err(e),
        Ok((tag, _)) => {
            if tag == ASSIGNED {
                match PartitionMaps::decoding(src.skip(1), version) {
                    Err(e) => Err(e),
                    Ok((s, n)) => Ok((TopicSpecView::Assigned(s), n + 1)),
                }
            } else if tag == COMPUTED {
                match TopicReplicaParam::decoding(src.skip(1), version) {
                    Err(e) => Err(e),
                    Ok((s, n)) => Ok((TopicSpecView::Computed(s), n + 1)),
                }
            } else {
                Err(DecodeError::InvalidData { reason: Invalid::Tag(tag) })
            }
        },
    }
}

/// How many bytes of `src` have been read when reading a `TopicSpec` fails:
/// none where the tag is missing, the tag where it names no variant, and
/// the tag and what was read of the variant where the variant fails.
#[verifier::opaque]
pub open spec fn topic_spec_failure_at(src: Seq<u8>, version: Version) -> nat {
    match u8::decoding(src, version) {
        Err(_) => 0,
        Ok((tag, _)) => {
            if tag == ASSIGNED {
                1 + PartitionMaps::failure_at(src.skip(1), version)
            } else if tag == COMPUTED {
                1 + TopicReplicaParam::failure_at(src.skip(1), version)
            } else {
                1
            }
        },
    }
}

impl Encoder for TopicSpec {
    open spec fn encoding(v: TopicSpecView, version: Version) -> Seq<u8> {
        topic_spec_encoding(v, version)
    }

    open spec fn encodable(v: TopicSpecView, version: Version) -> bool {
        match v {
            TopicSpecView::Assigned(s) => PartitionMaps::encodable(s, version),
            TopicSpecView::Computed(s) => TopicReplicaParam::encodable(s, version),
        }
    }

    fn write_size(&self, version: Version) -> (n: usize) {
        reveal(topic_spec_encoding);
        let type_size: usize = (0u8).write_size(version);
        type_size + match self {
            Self::Assigned(s) => s.write_size(version),
            Self::Computed(s) => s.write_size(version),
        }
    }

    fn encode(&self, dest: &mut Vec<u8>, version: Version) {
        reveal(topic_spec_encoding);
        match self {
            Self::Assigned(s) => {
                let typ: u8 = ASSIGNED;
                typ.encode(dest, version);
                s.encode(dest, version);
                assert(dest@ =~= old(dest)@ + (u8::encoding(ASSIGNED, version)
                    + PartitionMaps::encoding(s.deep_view(), version)));
            },
            Self::Computed(s) => {
                let typ: u8 = COMPUTED;
                typ.encode(dest, version);
                s.encode(dest, version);
                assert(dest@ =~= old(dest)@ + (u8::encoding(COMPUTED, version)
                    + TopicReplicaParam::encoding(s.deep_view(), version)));
            },
        }
    }
}

impl Decoder for TopicSpec {
    open spec fn decoding(src: Seq<u8>, version: Version) -> Result<
        (TopicSpecView, nat),
        DecodeError,
    > {
        topic_spec_decoding(src, version)
    }

    open spec fn failure_at(src: Seq<u8>, version: Version) -> nat {
        topic_spec_failure_at(src, version)
    }

    fn decode(&mut self, src: &mut ByteReader<'_>, version: Version) -> (r: Result<
        (),
        DecodeError,
    >) {
        reveal(topic_spec_decoding);
        reveal(topic_spec_failure_at);
        let ghost rest0 = src.rest();
        let mut typ: u8 = 0;
        typ.decode(src, version)?;
        match typ {
            ASSIGNED => {
                let mut response = PartitionMaps::default();
                response.decode(src, version)?;
                proof {
                    use_type_invariant(&*src);
                    assert(src.rest() =~= rest0.skip(src.position() - old(src).position()));
                }
                *self = Self::Assigned(response);
                Ok(())
            },
            COMPUTED => {
                let mut response = TopicReplicaParam::default();
                response.decode(src, version)?;
                proof {
                    use_type_invariant(&*src);
                    assert(src.rest() =~= rest0.skip(src.position() - old(src).position()));
                }
                *self = Self::Computed(response);
                Ok(())
            },
            // Unexpected type
            _ => Err(DecodeError::unknown_tag(typ)),
        }
    }

    proof fn lemma_decoding_in_bounds(src: Seq<u8>, version: Version) {
        reveal(topic_spec_decoding);
        if src.len() >= 1 {
            PartitionMaps::lemma_decoding_in_bounds(src.skip(1), version);
            TopicReplicaParam::lemma_decoding_in_bounds(src.skip(1), version);
        }
    }

    proof fn lemma_round_trip(v: TopicSpecView, version: Version, tail: Seq<u8>) {
        reveal(topic_spec_encoding);
        reveal(topic_spec_decoding);
        match v {
            TopicSpecView::Assigned(s) => {
                let tag = u8::encoding(ASSIGNED, version);
                let body = PartitionMaps::encoding(s, version);
                lemma_join2(tag, body, tail);
                u8::lemma_round_trip(ASSIGNED, version, body + tail);
                lemma_skip_joined(tag, body + tail);
                PartitionMaps::lemma_round_trip(s, version, tail);
            },
            TopicSpecView::Computed(s) => {
                let tag = u8::encoding(COMPUTED, version);
                let body = TopicReplicaParam::encoding(s, version);
                lemma_join2(tag, body, tail);
                u8::lemma_round_trip(COMPUTED, version, body + tail);
                lemma_skip_joined(tag, body + tail);
                TopicReplicaParam::lemma_round_trip(s, version, tail);
            },
        }
    }
}

} // verus!
