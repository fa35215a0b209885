//! The request to create something in the cluster.

use vstd::prelude::*;
use crate::codec::error::{DecodeError, Invalid};
use crate::codec::reader::ByteReader;
use crate::codec::sequence::{lemma_join2, lemma_join3, lemma_skip_joined};
use crate::codec::traits::{Decoder, Encoder, Version};
use crate::metadata::connector::{ManagedConnectorSpec, ManagedConnectorSpecView};
use crate::metadata::spg::{SpuGroupSpec, SpuGroupSpecView};
use crate::metadata::spu::{CustomSpuSpec, CustomSpuSpecView};
use crate::metadata::topic::{TopicSpec, TopicSpecView};

verus! {

/// The tag of a topic.
pub const TOPIC: u8 = 0;

/// The tag of a custom storage unit.
pub const CUSTOM_SPU: u8 = 1;

/// The tag of a group of storage units.
pub const SPG: u8 = 2;

/// The tag of a managed connector.
pub const MANAGED_CONNECTOR: u8 = 3;

/// Everything that can be created, each kind under a tag that never changes.
#[derive(Debug, Clone, PartialEq, Eq)]
pub enum AllCreatableSpec {
    Topic(TopicSpec),
    CustomSpu(CustomSpuSpec),
    SpuGroup(SpuGroupSpec),
    ManagedConnector(ManagedConnectorSpec),
}

/// The mathematical model of `AllCreatableSpec`.
pub enum AllCreatableSpecView {
    Topic(TopicSpecView),
    CustomSpu(CustomSpuSpecView),
    SpuGroup(SpuGroupSpecView),
    ManagedConnector(ManagedConnectorSpecView),
}

impl DeepView for AllCreatableSpec {
    type V = AllCreatableSpecView;

    open spec fn deep_view(&self) -> AllCreatableSpecView {
        match self {
            AllCreatableSpec::Topic(s) => AllCreatableSpecView::Topic(s.deep_view()),
            AllCreatableSpec::CustomSpu(s) => AllCreatableSpecView::CustomSpu(s.deep_view()),
            AllCreatableSpec::SpuGroup(s) => AllCreatableSpecView::SpuGroup(s.deep_view()),
            AllCreatableSpec::ManagedConnector(s) => AllCreatableSpecView::ManagedConnector(
                s.deep_view(),
            ),
        }
    }
}

impl AllCreatableSpec {
    /// The value that stands where nothing was set: a fixed variant,
    /// itself blank.
    pub open spec fn blank() -> AllCreatableSpecView {
        AllCreatableSpecView::Topic(TopicSpec::blank())
    }
}

impl Default for AllCreatableSpec {
    fn default() -> (r: Self)
        ensures
            r.deep_view() == AllCreatableSpec::blank(),
    {
        AllCreatableSpec::Topic(TopicSpec::default())
    }
}

/// The tag of the variant, then the variant itself.
#[verifier::opaque]
pub open spec fn all_creatable_spec_encoding(v: AllCreatableSpecView, version: Version) -> Seq<u8> {
    match v {
        AllCreatableSpecView::Topic(s) => u8::encoding(TOPIC, version)
            + TopicSpec::encoding(s, version),
        AllCreatableSpecView::CustomSpu(s) => u8::encoding(CUSTOM_SPU, version)
            + CustomSpuSpec::encoding(s, version),
        AllCreatableSpecView::SpuGroup(s) => u8::encoding(SPG, version)
            + SpuGroupSpec::encoding(s, version),
        AllCreatableSpecView::ManagedConnector(s) => u8::encoding(MANAGED_CONNECTOR, version)
            + ManagedConnectorSpec::encoding(s, version),
    }
}

/// The `AllCreatableSpec` at the start of `src`: the variant that the tag byte names.
/// A tag that names no variant is an error; no variant stands in for it.
#[verifier::opaque]
pub open spec fn all_creatable_spec_decoding(src: Seq<u8>, version: Version) -> Result<
    (AllCreatableSpecView, nat),
    DecodeError,
> {
    match u8::decoding(src, version) {
        Err(e) => Err(e),
        Ok((tag, _)) => {
            if tag == TOPIC {
                match TopicSpec::decoding(src.skip(1), version) {
                    Err(e) => Err(e),
                    Ok((s, n)) => Ok((AllCreatableSpecView::Topic(s), n + 1)),
                }
            } else if tag == CUSTOM_SPU {
                match CustomSpuSpec::decoding(src.skip(1), version) {
                    Err(e) => Err(e),
                    Ok((s, n)) => Ok((AllCreatableSpecView::CustomSpu(s), n + 1)),
                }
            } else if tag == SPG {
                match SpuGroupSpec::decoding(src.skip(1), version) {
                    Err(e) => Err(e),
                    Ok((s, n)) => Ok((AllCreatableSpecView::SpuGroup(s), n + 1)),
                }
            } else if tag == MANAGED_CONNECTOR {
                match ManagedConnectorSpec::decoding(src.skip(1), version) {
                    Err(e) => Err(e),
                    Ok((s, n)) => Ok((AllCreatableSpecView::ManagedConnector(s), n + 1)),
                }
            } else {
                Err(DecodeError::InvalidData { reason: Invalid::Tag(tag) })
            }
        },
    }
}

/// How many bytes of `src` have been read when reading a `AllCreatableSpec` fails:
/// none where the tag is missing, the tag where it names no variant, and
/// the tag and what was read of the variant where the variant fails.
#[verifier::opaque]
pub open spec fn all_creatable_spec_failure_at(src: Seq<u8>, version: Version) -> nat {
    match u8::decoding(src, version) {
        Err(_) => 0,
        Ok((tag, _)) => {
            if tag == TOPIC {
                1 + TopicSpec::failure_at(src.skip(1), version)
            } else if tag == CUSTOM_SPU {
                1 + CustomSpuSpec::failure_at(src.skip(1), version)
            } else if tag == SPG {
                1 + SpuGroupSpec::failure_at(src.skip(1), version)
            } else if tag == MANAGED_CONNECTOR {
                1 + ManagedConnectorSpec::failure_at(src.skip(1), version)
            } else {
                1
            }
        },
    }
}

impl Encoder for AllCreatableSpec {
    open spec fn encoding(v: AllCreatableSpecView, version: Version) -> Seq<u8> {
        all_creatable_spec_encoding(v, version)
    }

    open spec fn encodable(v: AllCreatableSpecView, version: Version) -> bool {
        match v {
            AllCreatableSpecView::Topic(s) => TopicSpec::encodable(s, version),
            AllCreatableSpecView::CustomSpu(s) => CustomSpuSpec::encodable(s, version),
            AllCreatableSpecView::SpuGroup(s) => SpuGroupSpec::encodable(s, version),
            AllCreatableSpecView::ManagedConnector(s) => ManagedConnectorSpec::encodable(
                s,
                version,
            ),
        }
    }

    fn write_size(&self, version: Version) -> (n: usize) {
        reveal(all_creatable_spec_encoding);
        let type_size: usize = (0u8).write_size(version);
        type_size + match self {
            Self::Topic(s) => s.write_size(version),
            Self::CustomSpu(s) => s.write_size(version),
            Self::SpuGroup(s) => s.write_size(version),
            Self::ManagedConnector(s) => s.write_size(version),
        }
    }

    fn encode(&self, dest: &mut Vec<u8>, version: Version) {
        reveal(all_creatable_spec_encoding);
        match self {
            Self::Topic(s) => {
                let typ: u8 = TOPIC;
                typ.encode(dest, version);
                s.encode(dest, version);
                assert(dest@ =~= old(dest)@ + (u8::encoding(TOPIC, version)
                    + TopicSpec::encoding(s.deep_view(), version)));
            },
            Self::CustomSpu(s) => {
                let typ: u8 = CUSTOM_SPU;
                typ.encode(dest, version);
                s.encode(dest, version);
                assert(dest@ =~= old(dest)@ + (u8::encoding(CUSTOM_SPU, version)
                    + CustomSpuSpec::encoding(s.deep_view(), version)));
            },
            Self::SpuGroup(s) => {
                let typ: u8 = SPG;
                typ.encode(dest, version);
                s.encode(dest, version);
                assert(dest@ =~= old(dest)@ + (u8::encoding(SPG, version)
                    + SpuGroupSpec::encoding(s.deep_view(), version)));
            },
            Self::ManagedConnector(s) => {
                let typ: u8 = MANAGED_CONNECTOR;
                typ.encode(dest, version);
                s.encode(dest, version);
                assert(dest@ =~= old(dest)@ + (u8::encoding(MANAGED_CONNECTOR, version)
                    + ManagedConnectorSpec::encoding(s.deep_view(), version)));
            },
        }
    }
}

impl Decoder for AllCreatableSpec {
    open spec fn decoding(src: Seq<u8>, version: Version) -> Result<
        (AllCreatableSpecView, nat),
        DecodeError,
    > {
        all_creatable_spec_decoding(src, version)
    }

    open spec fn failure_at(src: Seq<u8>, version: Version) -> nat {
        all_creatable_spec_failure_at(src, version)
    }

    fn decode(&mut self, src: &mut ByteReader<'_>, version: Version) -> (r: Result<
        (),
        DecodeError,
    >) {
        reveal(all_creatable_spec_decoding);
        reveal(all_creatable_spec_failure_at);
        let ghost rest0 = src.rest();
        let mut typ: u8 = 0;
        typ.decode(src, version)?;
        match typ {
            TOPIC => {
                let mut response = TopicSpec::default();
                response.decode(src, version)?;
                proof {
                    use_type_invariant(&*src);
                    assert(src.rest() =~= rest0.skip(src.position() - old(src).position()));
                }
                *self = Self::Topic(response);
                Ok(())
            },
            CUSTOM_SPU => {
                let mut response = CustomSpuSpec::default();
                response.decode(src, version)?;
                proof {
                    use_type_invariant(&*src);
                    assert(src.rest() =~= rest0.skip(src.position() - old(src).position()));
                }
                *self = Self::CustomSpu(response);
                Ok(())
            },
            SPG => {
                let mut response = SpuGroupSpec::default();
                response.decode(src, version)?;
                proof {
                    use_type_invariant(&*src);
                    assert(src.rest() =~= rest0.skip(src.position() - old(src).position()));
                }
                *self = Self::SpuGroup(response);
                Ok(())
            },
            MANAGED_CONNECTOR => {
                let mut response = ManagedConnectorSpec::default();
                response.decode(src, version)?;
                proof {
                    use_type_invariant(&*src);
                    assert(src.rest() =~= rest0.skip(src.position() - old(src).position()));
                }
                *self = Self::ManagedConnector(response);
                Ok(())
            },
            // Unexpected type
            _ => Err(DecodeError::unknown_tag(typ)),
        }
    }

    proof fn lemma_decoding_in_bounds(src: Seq<u8>, version: Version) {
        reveal(all_creatable_spec_decoding);
        if src.len() >= 1 {
            TopicSpec::lemma_decoding_in_bounds(src.skip(1), version);
            CustomSpuSpec::lemma_decoding_in_bounds(src.skip(1), version);
            SpuGroupSpec::lemma_decoding_in_bounds(src.skip(1), version);
            ManagedConnectorSpec::lemma_decoding_in_bounds(src.skip(1), version);
        }
    }

    proof fn lemma_round_trip(v: AllCreatableSpecView, version: Version, tail: Seq<u8>) {
        reveal(all_creatable_spec_encoding);
        reveal(all_creatable_spec_decoding);
        match v {
            AllCreatableSpecView::Topic(s) => {
                let tag = u8::encoding(TOPIC, version);
                let body = TopicSpec::encoding(s, version);
                lemma_join2(tag, body, tail);
                u8::lemma_round_trip(TOPIC, version, body + tail);
                lemma_skip_joined(tag, body + tail);
                TopicSpec::lemma_round_trip(s, version, tail);
            },
            AllCreatableSpecView::CustomSpu(s) => {
                let tag = u8::encoding(CUSTOM_SPU, version);
                let body = CustomSpuSpec::encoding(s, version);
                lemma_join2(tag, body, tail);
                u8::lemma_round_trip(CUSTOM_SPU, version, body + tail);
                lemma_skip_joined(tag, body + tail);
                CustomSpuSpec::lemma_round_trip(s, version, tail);
            },
            AllCreatableSpecView::SpuGroup(s) => {
                let tag = u8::encoding(SPG, version);
                let body = SpuGroupSpec::encoding(s, version);
                lemma_join2(tag, body, tail);
                u8::lemma_round_trip(SPG, version, body + tail);
                lemma_skip_joined(tag, body + tail);
                SpuGroupSpec::lemma_round_trip(s, version, tail);
            },
            AllCreatableSpecView::ManagedConnector(s) => {
                let tag = u8::encoding(MANAGED_CONNECTOR, version);
                let body = ManagedConnectorSpec::encoding(s, version);
                lemma_join2(tag, body, tail);
                u8::lemma_round_trip(MANAGED_CONNECTOR, version, body + tail);
                lemma_skip_joined(tag, body + tail);
                ManagedConnectorSpec::lemma_round_trip(s, version, tail);
            },
        }
    }
}

/// The tag under which a kind of thing travels.
pub open spec fn tag_of(v: AllCreatableSpecView) -> u8 {
    match v {
        AllCreatableSpecView::Topic(_) => TOPIC,
        AllCreatableSpecView::CustomSpu(_) => CUSTOM_SPU,
        AllCreatableSpecView::SpuGroup(_) => SPG,
        AllCreatableSpecView::ManagedConnector(_) => MANAGED_CONNECTOR,
    }
}

/// A tag byte that names none of the four kinds is rejected as invalid data,
/// and the error names the byte. Nothing is decoded in its place, and the
/// tag byte is all that was read.
pub proof fn lemma_unknown_tag_is_rejected(src: Seq<u8>, version: Version)
    requires
        src.len() >= 1,
        src[0] != TOPIC,
        src[0] != CUSTOM_SPU,
        src[0] != SPG,
        src[0] != MANAGED_CONNECTOR,
    ensures
        AllCreatableSpec::decoding(src, version) == Err::<(AllCreatableSpecView, nat), DecodeError>(
            DecodeError::InvalidData { reason: Invalid::Tag(src[0]) },
        ),
        AllCreatableSpec::failure_at(src, version) == 1,
{
    reveal(all_creatable_spec_decoding);
    reveal(all_creatable_spec_failure_at);
}

/// Whatever is decoded is of the kind that the tag byte names.
pub proof fn lemma_tag_names_the_kind(src: Seq<u8>, version: Version)
    ensures
        AllCreatableSpec::decoding(src, version) matches Ok((v, _)) ==> src.len() >= 1 && src[0]
            == tag_of(v),
{
    reveal(all_creatable_spec_decoding);
}

/// The value that stands where nothing was set is a topic, and reads back
/// under every version.
pub proof fn lemma_blank_reads_back(version: Version, tail: Seq<u8>)
    ensures
        AllCreatableSpec::blank() is Topic,
        AllCreatableSpec::encodable(AllCreatableSpec::blank(), version),
        AllCreatableSpec::decoding(
            AllCreatableSpec::encoding(AllCreatableSpec::blank(), version) + tail,
            version,
        ) == Ok::<(AllCreatableSpecView, nat), DecodeError>(
            (
                AllCreatableSpec::blank(),
                AllCreatableSpec::encoding(AllCreatableSpec::blank(), version).len(),
            ),
        ),
{
    AllCreatableSpec::lemma_round_trip(AllCreatableSpec::blank(), version, tail);
}

/// What is written begins with the tag of its kind.
pub proof fn lemma_encoding_begins_with_tag(v: AllCreatableSpecView, version: Version)
    ensures
        AllCreatableSpec::encoding(v, version).len() >= 1,
        AllCreatableSpec::encoding(v, version)[0] == tag_of(v),
{
    reveal(all_creatable_spec_encoding);
}

/// Asks the cluster to create what `spec` describes, under `name`.
#[derive(Debug, Clone, PartialEq, Eq)]
pub struct CreateRequest {
    pub name: String,
    /// Check the request in full, but create nothing.
    pub dry_run: bool,
    pub spec: AllCreatableSpec,
}

/// The mathematical model of `CreateRequest`.
pub struct CreateRequestView {
    pub name: Seq<char>,
    pub dry_run: bool,
    pub spec: AllCreatableSpecView,
}

impl DeepView for CreateRequest {
    type V = CreateRequestView;

    open spec fn deep_view(&self) -> CreateRequestView {
        CreateRequestView {
            name: self.name.deep_view(),
            dry_run: self.dry_run.deep_view(),
            spec: self.spec.deep_view(),
        }
    }
}

impl CreateRequest {
    /// The value that stands where nothing was set.
    pub open spec fn blank() -> CreateRequestView {
        CreateRequestView {
            name: Seq::<char>::empty(),
            dry_run: false,
            spec: AllCreatableSpec::blank(),
        }
    }
}

impl Default for CreateRequest {
    fn default() -> (r: Self)
        ensures
            r.deep_view() == CreateRequest::blank(),
    {
        CreateRequest {
            name: String::new(),
            dry_run: false,
            spec: AllCreatableSpec::default(),
        }
    }
}

/// The fields of `CreateRequest`, one after the other.
#[verifier::opaque]
pub open spec fn create_request_encoding(v: CreateRequestView, version: Version) -> Seq<u8> {
    String::encoding(v.name, version)
        + bool::encoding(v.dry_run, version)
        + AllCreatableSpec::encoding(v.spec, version)
}

/// The `CreateRequest` whose fields follow each other at the start of `src`.
#[verifier::opaque]
pub open spec fn create_request_decoding(src: Seq<u8>, version: Version) -> Result<
    (CreateRequestView, nat),
    DecodeError,
> {
    match String::decoding(src, version) {
        Err(e) => Err(e),
        Ok((name, n0)) => {
            let src = src.skip(n0 as int);
            match bool::decoding(src, version) {
                Err(e) => Err(e),
                Ok((dry_run, n1)) => {
                    let src = src.skip(n1 as int);
                    match AllCreatableSpec::decoding(src, version) {
                        Err(e) => Err(e),
                        Ok((spec, n2)) => {
                            Ok((
                                CreateRequestView { name, dry_run, spec },
                                n0 + n1 + n2,
                            ))
                        },
                    }
                },
            }
        },
    }
}

/// How many bytes of `src` have been read when reading a `CreateRequest` fails:
/// the fields before the one that fails, and what was read of that one.
#[verifier::opaque]
pub open spec fn create_request_failure_at(src: Seq<u8>, version: Version) -> nat {
    match String::decoding(src, version) {
        Err(_) => String::failure_at(src, version),
        Ok((_, n0)) => {
            let src = src.skip(n0 as int);
            match bool::decoding(src, version) {
                Err(_) => n0 + bool::failure_at(src, version),
                Ok((_, n1)) => {
                    let src = src.skip(n1 as int);
                    n0 + n1 + AllCreatableSpec::failure_at(src, version)
                },
            }
        },
    }
}

impl Encoder for CreateRequest {
    open spec fn encoding(v: CreateRequestView, version: Version) -> Seq<u8> {
        create_request_encoding(v, version)
    }

    open spec fn encodable(v: CreateRequestView, version: Version) -> bool {
        &&& String::encodable(v.name, version)
        &&& bool::encodable(v.dry_run, version)
        &&& AllCreatableSpec::encodable(v.spec, version)
    }

    fn write_size(&self, version: Version) -> (n: usize) {
        reveal(create_request_encoding);
        self.name.write_size(version)
            + self.dry_run.write_size(version)
            + self.spec.write_size(version)
    }

    fn encode(&self, dest: &mut Vec<u8>, version: Version) {
        self.name.encode(dest, version);
        self.dry_run.encode(dest, version);
        self.spec.encode(dest, version);
        assert(dest@ =~= old(dest)@ + create_request_encoding(self.deep_view(), version)) by {
            reveal(create_request_encoding);
        }
    }
}

impl Decoder for CreateRequest {
    open spec fn decoding(src: Seq<u8>, version: Version) -> Result<
        (CreateRequestView, nat),
        DecodeError,
    > {
        create_request_decoding(src, version)
    }

    open spec fn failure_at(src: Seq<u8>, version: Version) -> nat {
        create_request_failure_at(src, version)
    }

    fn decode(&mut self, src: &mut ByteReader<'_>, version: Version) -> (r: Result<
        (),
        DecodeError,
    >) {
        reveal(create_request_decoding);
        reveal(create_request_failure_at);
        let ghost rest0 = src.rest();
        let mut name: String = String::new();
        name.decode(src, version)?;
        let mut dry_run: bool = false;
        dry_run.decode(src, version)?;
        let mut spec: AllCreatableSpec = AllCreatableSpec::default();
        spec.decode(src, version)?;
        proof {
            use_type_invariant(&*src);
            assert(src.rest() =~= rest0.skip(src.position() - old(src).position()));
        }
        *self = CreateRequest { name, dry_run, spec };
        Ok(())
    }

    proof fn lemma_decoding_in_bounds(src: Seq<u8>, version: Version) {
        reveal(create_request_decoding);
        String::lemma_decoding_in_bounds(src, version);
        if let Ok((_, n0)) = String::decoding(src, version) {
            let src = src.skip(n0 as int);
            bool::lemma_decoding_in_bounds(src, version);
            if let Ok((_, n1)) = bool::decoding(src, version) {
                let src = src.skip(n1 as int);
                AllCreatableSpec::lemma_decoding_in_bounds(src, version);
            }
        }
    }

    proof fn lemma_round_trip(v: CreateRequestView, version: Version, tail: Seq<u8>) {
        reveal(create_request_encoding);
        reveal(create_request_decoding);
        let e0 = String::encoding(v.name, version);
        let e1 = bool::encoding(v.dry_run, version);
        let e2 = AllCreatableSpec::encoding(v.spec, version);
        let r1 = e2 + tail;
        let r0 = e1 + r1;
        lemma_join3(e0, e1, e2, tail);
        String::lemma_round_trip(v.name, version, r0);
        lemma_skip_joined(e0, r0);
        bool::lemma_round_trip(v.dry_run, version, r1);
        lemma_skip_joined(e1, r1);
        AllCreatableSpec::lemma_round_trip(v.spec, version, tail);
    }
}

} // verus!
