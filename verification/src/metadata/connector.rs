//! Connectors that the cluster runs to move records in or out of a topic.

use vstd::prelude::*;
use crate::codec::error::DecodeError;
use crate::codec::reader::ByteReader;
use crate::codec::sequence::{lemma_join2, lemma_join4, lemma_skip_joined};
use crate::codec::traits::{Decoder, Encoder, Version};

verus! {

/// One setting of a connector.
#[derive(Debug, Clone, PartialEq, Eq)]
pub struct ConnectorParameter {
    pub name: String,
    pub value: String,
}

/// The mathematical model of `ConnectorParameter`.
pub struct ConnectorParameterView {
    pub name: Seq<char>,
    pub value: Seq<char>,
}

impl DeepView for ConnectorParameter {
    type V = ConnectorParameterView;

    open spec fn deep_view(&self) -> ConnectorParameterView {
        ConnectorParameterView {
            name: self.name.deep_view(),
            value: self.value.deep_view(),
        }
    }
}

impl ConnectorParameter {
    /// The value that stands where nothing was set.
    pub open spec fn blank() -> ConnectorParameterView {
        ConnectorParameterView {
            name: Seq::<char>::empty(),
            value: Seq::<char>::empty(),
        }
    }
}

impl Default for ConnectorParameter {
    fn default() -> (r: Self)
        ensures
            r.deep_view() == ConnectorParameter::blank(),
    {
        ConnectorParameter {
            name: String::new(),
            value: String::new(),
        }
    }
}

/// The fields of `ConnectorParameter`, one after the other.
#[verifier::opaque]
pub open spec fn connector_parameter_encoding(
    v: ConnectorParameterView,
    version: Version,
) -> Seq<u8> {
    String::encoding(v.name, version) + String::encoding(v.value, version)
}

/// The `ConnectorParameter` whose fields follow each other at the start of `src`.
#[verifier::opaque]
pub open spec fn connector_parameter_decoding(src: Seq<u8>, version: Version) -> Result<
    (ConnectorParameterView, nat),
    DecodeError,
> {
    match String::decoding(src, version) {
        Err(e) => Err(e),
        Ok((name, n0)) => {
            let src = src.skip(n0 as int);
            match String::decoding(src, version) {
                Err(e) => Err(e),
                Ok((value, n1)) => {
                    Ok((
                        ConnectorParameterView { name, value },
                        n0 + n1,
                    ))
                },
            }
        },
    }
}

/// How many bytes of `src` have been read when reading a `ConnectorParameter` fails:
/// the fields before the one that fails, and what was read of that one.
#[verifier::opaque]
pub open spec fn connector_parameter_failure_at(src: Seq<u8>, version: Version) -> nat {
    match String::decoding(src, version) {
        Err(_) => String::failure_at(src, version),
        Ok((_, n0)) => {
            let src = src.skip(n0 as int);
            n0 + String::failure_at(src, version)
        },
    }
}

impl Encoder for ConnectorParameter {
    open spec fn encoding(v: ConnectorParameterView, version: Version) -> Seq<u8> {
        connector_parameter_encoding(v, version)
    }

    open spec fn encodable(v: ConnectorParameterView, version: Version) -> bool {
        &&& String::encodable(v.name, version)
        &&& String::encodable(v.value, version)
    }

    fn write_size(&self, version: Version) -> (n: usize) {
        reveal(connector_parameter_encoding);
        self.name.write_size(version) + self.value.write_size(version)
    }

    fn encode(&self, dest: &mut Vec<u8>, version: Version) {
        self.name.encode(dest, version);
        self.value.encode(dest, version);
        assert(dest@ =~= old(dest)@ + connector_parameter_encoding(self.deep_view(), version)) by {
            reveal(connector_parameter_encoding);
        }
    }
}

impl Decoder for ConnectorParameter {
    open spec fn decoding(src: Seq<u8>, version: Version) -> Result<
        (ConnectorParameterView, nat),
        DecodeError,
    > {
        connector_parameter_decoding(src, version)
    }

    open spec fn failure_at(src: Seq<u8>, version: Version) -> nat {
        connector_parameter_failure_at(src, version)
    }

    fn decode(&mut self, src: &mut ByteReader<'_>, version: Version) -> (r: Result<
        (),
        DecodeError,
    >) {
        reveal(connector_parameter_decoding);
        reveal(connector_parameter_failure_at);
        let ghost rest0 = src.rest();
        let mut name: String = String::new();
        name.decode(src, version)?;
        let mut value: String = String::new();
        value.decode(src, version)?;
        proof {
            use_type_invariant(&*src);
            assert(src.rest() =~= rest0.skip(src.position() - old(src).position()));
        }
        *self = ConnectorParameter { name, value };
        Ok(())
    }

    proof fn lemma_decoding_in_bounds(src: Seq<u8>, version: Version) {
        reveal(connector_parameter_decoding);
        String::lemma_decoding_in_bounds(src, version);
        if let Ok((_, n0)) = String::decoding(src, version) {
            let src = src.skip(n0 as int);
            String::lemma_decoding_in_bounds(src, version);
        }
    }

    proof fn lemma_round_trip(v: ConnectorParameterView, version: Version, tail: Seq<u8>) {
        reveal(connector_parameter_encoding);
        reveal(connector_parameter_decoding);
        let e0 = String::encoding(v.name, version);
        let e1 = String::encoding(v.value, version);
        let r0 = e1 + tail;
        lemma_join2(e0, e1, tail);
        String::lemma_round_trip(v.name, version, r0);
        lemma_skip_joined(e0, r0);
        String::lemma_round_trip(v.value, version, tail);
    }
}

/// A connector that the cluster runs.
#[derive(Debug, Clone, PartialEq, Eq)]
pub struct ManagedConnectorSpec {
    pub name: String,
    /// The kind of connector.
    pub type_: String,
    /// The topic that the connector feeds or drains.
    pub topic: String,
    pub parameters: Vec<ConnectorParameter>,
}

/// The mathematical model of `ManagedConnectorSpec`.
pub struct ManagedConnectorSpecView {
    pub name: Seq<char>,
    pub type_: Seq<char>,
    pub topic: Seq<char>,
    pub parameters: Seq<ConnectorParameterView>,
}

impl DeepView for ManagedConnectorSpec {
    type V = ManagedConnectorSpecView;

    open spec fn deep_view(&self) -> ManagedConnectorSpecView {
        ManagedConnectorSpecView {
            name: self.name.deep_view(),
            type_: self.type_.deep_view(),
            topic: self.topic.deep_view(),
            parameters: self.parameters.deep_view(),
        }
    }
}

impl ManagedConnectorSpec {
    /// The value that stands where nothing was set.
    pub open spec fn blank() -> ManagedConnectorSpecView {
        ManagedConnectorSpecView {
            name: Seq::<char>::empty(),
            type_: Seq::<char>::empty(),
            topic: Seq::<char>::empty(),
            parameters: Seq::<ConnectorParameterView>::empty(),
        }
    }
}

impl Default for ManagedConnectorSpec {
    fn default() -> (r: Self)
        ensures
            r.deep_view() == ManagedConnectorSpec::blank(),
    {
        let r = ManagedConnectorSpec {
            name: String::new(),
            type_: String::new(),
            topic: String::new(),
            parameters: Vec::new(),
        };
        assert(r.parameters.deep_view() =~= Seq::<ConnectorParameterView>::empty());
        r
    }
}

/// The fields of `ManagedConnectorSpec`, one after the other.
#[verifier::opaque]
pub open spec fn managed_connector_spec_encoding(
    v: ManagedConnectorSpecView,
    version: Version,
) -> Seq<u8> {
    String::encoding(v.name, version)
        + String::encoding(v.type_, version)
        + String::encoding(v.topic, version)
        + Vec::<ConnectorParameter>::encoding(v.parameters, version)
}

/// The `ManagedConnectorSpec` whose fields follow each other at the start of `src`.
#[verifier::opaque]
pub open spec fn managed_connector_spec_decoding(src: Seq<u8>, version: Version) -> Result<
    (ManagedConnectorSpecView, nat),
    DecodeError,
> {
    match String::decoding(src, version) {
        Err(e) => Err(e),
        Ok((name, n0)) => {
            let src = src.skip(n0 as int);
            match String::decoding(src, version) {
                Err(e) => Err(e),
                Ok((type_, n1)) => {
                    let src = src.skip(n1 as int);
                    match String::decoding(src, version) {
                        Err(e) => Err(e),
                        Ok((topic, n2)) => {
                            let src = src.skip(n2 as int);
                            match Vec::<ConnectorParameter>::decoding(src, version) {
                                Err(e) => Err(e),
                                Ok((parameters, n3)) => {
                                    Ok((
                                        ManagedConnectorSpecView { name, type_, topic, parameters },
                                        n0 + n1 + n2 + n3,
                                    ))
                                },
                            }
                        },
                    }
                },
            }
        },
    }
}

/// How many bytes of `src` have been read when reading a `ManagedConnectorSpec` fails:
/// the fields before the one that fails, and what was read of that one.
#[verifier::opaque]
pub open spec fn managed_connector_spec_failure_at(src: Seq<u8>, version: Version) -> nat {
    match String::decoding(src, version) {
        Err(_) => String::failure_at(src, version),
        Ok((_, n0)) => {
            let src = src.skip(n0 as int);
            match String::decoding(src, version) {
                Err(_) => n0 + String::failure_at(src, version),
                Ok((_, n1)) => {
                    let src = src.skip(n1 as int);
                    match String::decoding(src, version) {
                        Err(_) => n0 + n1 + String::failure_at(src, version),
                        Ok((_, n2)) => {
                            let src = src.skip(n2 as int);
                            n0 + n1 + n2 + Vec::<ConnectorParameter>::failure_at(src, version)
                        },
                    }
                },
            }
        },
    }
}

impl Encoder for ManagedConnectorSpec {
    open spec fn encoding(v: ManagedConnectorSpecView, version: Version) -> Seq<u8> {
        managed_connector_spec_encoding(v, version)
    }

    open spec fn encodable(v: ManagedConnectorSpecView, version: Version) -> bool {
        &&& String::encodable(v.name, version)
        &&& String::encodable(v.type_, version)
        &&& String::encodable(v.topic, version)
        &&& Vec::<ConnectorParameter>::encodable(v.parameters, version)
    }

    fn write_size(&self, version: Version) -> (n: usize) {
        reveal(managed_connector_spec_encoding);
        self.name.write_size(version)
            + self.type_.write_size(version)
            + self.topic.write_size(version)
            + self.parameters.write_size(version)
    }

    fn encode(&self, dest: &mut Vec<u8>, version: Version) {
        self.name.encode(dest, version);
        self.type_.encode(dest, version);
        self.topic.encode(dest, version);
        self.parameters.encode(dest, version);
        assert(dest@ =~= old(dest)@ + managed_connector_spec_encoding(
            self.deep_view(),
            version,
        )) by {
            reveal(managed_connector_spec_encoding);
        }
    }
}

impl Decoder for ManagedConnectorSpec {
    open spec fn decoding(src: Seq<u8>, version: Version) -> Result<
        (ManagedConnectorSpecView, nat),
        DecodeError,
    > {
        managed_connector_spec_decoding(src, version)
    }

    open spec fn failure_at(src: Seq<u8>, version: Version) -> nat {
        managed_connector_spec_failure_at(src, version)
    }

    fn decode(&mut self, src: &mut ByteReader<'_>, version: Version) -> (r: Result<
        (),
        DecodeError,
    >) {
        reveal(managed_connector_spec_decoding);
        reveal(managed_connector_spec_failure_at);
        let ghost rest0 = src.rest();
        let mut name: String = String::new();
        name.decode(src, version)?;
        let mut type_: String = String::new();
        type_.decode(src, version)?;
        let mut topic: String = String::new();
        topic.decode(src, version)?;
        let mut parameters: Vec<ConnectorParameter> = Vec::new();
        assert(parameters.deep_view() =~= Seq::<ConnectorParameterView>::empty());
        parameters.decode(src, version)?;
        proof {
            use_type_invariant(&*src);
            assert(src.rest() =~= rest0.skip(src.position() - old(src).position()));
        }
        *self = ManagedConnectorSpec { name, type_, topic, parameters };
        Ok(())
    }

    proof fn lemma_decoding_in_bounds(src: Seq<u8>, version: Version) {
        reveal(managed_connector_spec_decoding);
        String::lemma_decoding_in_bounds(src, version);
        if let Ok((_, n0)) = String::decoding(src, version) {
            let src = src.skip(n0 as int);
            String::lemma_decoding_in_bounds(src, version);
            if let Ok((_, n1)) = String::decoding(src, version) {
                let src = src.skip(n1 as int);
                String::lemma_decoding_in_bounds(src, version);
                if let Ok((_, n2)) = String::decoding(src, version) {
                    let src = src.skip(n2 as int);
                    Vec::<ConnectorParameter>::lemma_decoding_in_bounds(src, version);
                }
            }
        }
    }

    proof fn lemma_round_trip(v: ManagedConnectorSpecView, version: Version, tail: Seq<u8>) {
        reveal(managed_connector_spec_encoding);
        reveal(managed_connector_spec_decoding);
        let e0 = String::encoding(v.name, version);
        let e1 = String::encoding(v.type_, version);
        let e2 = String::encoding(v.topic, version);
        let e3 = Vec::<ConnectorParameter>::encoding(v.parameters, version);
        let r2 = e3 + tail;
        let r1 = e2 + r2;
        let r0 = e1 + r1;
        lemma_join4(e0, e1, e2, e3, tail);
        String::lemma_round_trip(v.name, version, r0);
        lemma_skip_joined(e0, r0);
        String::lemma_round_trip(v.type_, version, r1);
        lemma_skip_joined(e1, r1);
        String::lemma_round_trip(v.topic, version, r2);
        lemma_skip_joined(e2, r2);
        Vec::<ConnectorParameter>::lemma_round_trip(v.parameters, version, tail);
    }
}

} // verus!
