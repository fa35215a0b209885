//! Storage units that the user runs and registers.

use vstd::prelude::*;
use crate::codec::gated::{
    gated_decode,
    gated_decoding,
    gated_encodable,
    gated_encode,
    gated_encoding,
    gated_failure_at,
    gated_size,
    lemma_gated_in_bounds,
    lemma_gated_round_trip,
};
use crate::codec::error::{DecodeError, Invalid};
use crate::codec::reader::ByteReader;
use crate::codec::sequence::{lemma_join2, lemma_join3, lemma_join5, lemma_skip_joined};
use crate::codec::traits::{Decoder, Encoder, Version};
use crate::metadata::topic::SpuId;

verus! {

/// Whether an endpoint speaks in the clear or under TLS.
#[derive(Debug, Clone, Copy, PartialEq, Eq, Structural)]
pub enum EncryptionEnum {
    PLAINTEXT,
    SSL,
}

impl DeepView for EncryptionEnum {
    type V = EncryptionEnum;

    open spec fn deep_view(&self) -> EncryptionEnum {
        *self
    }
}

impl EncryptionEnum {
    /// The value that stands where nothing was set.
    pub open spec fn blank() -> EncryptionEnum {
        EncryptionEnum::PLAINTEXT
    }

    /// The tag byte of the variant.
    pub open spec fn tag(self) -> u8 {
        match self {
            EncryptionEnum::PLAINTEXT => 0,
            EncryptionEnum::SSL => 1,
        }
    }
}

impl Default for EncryptionEnum {
    fn default() -> (r: Self)
        ensures
            r == EncryptionEnum::blank(),
    {
        EncryptionEnum::PLAINTEXT
    }
}

impl Encoder for EncryptionEnum {
    open spec fn encoding(v: EncryptionEnum, version: Version) -> Seq<u8> {
        u8::encoding(v.tag(), version)
    }

    open spec fn encodable(v: EncryptionEnum, version: Version) -> bool {
        true
    }

    fn write_size(&self, version: Version) -> (n: usize) {
        1
    }

    fn encode(&self, dest: &mut Vec<u8>, version: Version) {
        let typ: u8 = match self {
            EncryptionEnum::PLAINTEXT => 0,
            EncryptionEnum::SSL => 1,
        };
        typ.encode(dest, version);
    }
}

impl Decoder for EncryptionEnum {
    open spec fn decoding(src: Seq<u8>, version: Version) -> Result<
        (EncryptionEnum, nat),
        DecodeError,
    > {
        match u8::decoding(src, version) {
            Err(e) => Err(e),
            Ok((tag, n)) => if tag == 0 {
                Ok((EncryptionEnum::PLAINTEXT, n))
            } else if tag == 1 {
                Ok((EncryptionEnum::SSL, n))
            } else {
                Err(DecodeError::InvalidData { reason: Invalid::Tag(tag) })
            },
        }
    }

    open spec fn failure_at(src: Seq<u8>, version: Version) -> nat {
        match u8::decoding(src, version) {
            Err(_) => 0,
            Ok(_) => 1,
        }
    }

    fn decode(&mut self, src: &mut ByteReader<'_>, version: Version) -> (r: Result<
        (),
        DecodeError,
    >) {
        let mut typ: u8 = 0;
        typ.decode(src, version)?;
        match typ {
            0 => {
                *self = EncryptionEnum::PLAINTEXT;
                Ok(())
            },
            1 => {
                *self = EncryptionEnum::SSL;
                Ok(())
            },
            _ => Err(DecodeError::unknown_tag(typ)),
        }
    }

    proof fn lemma_decoding_in_bounds(src: Seq<u8>, version: Version) {
    }

    proof fn lemma_round_trip(v: EncryptionEnum, version: Version, tail: Seq<u8>) {
        u8::lemma_round_trip(v.tag(), version, tail);
    }
}

/// Where a service listens.
#[derive(Debug, Clone, PartialEq, Eq)]
pub struct Endpoint {
    pub port: u16,
    pub host: String,
    pub encryption: EncryptionEnum,
}

/// The mathematical model of `Endpoint`.
pub struct EndpointView {
    pub port: u16,
    pub host: Seq<char>,
    pub encryption: EncryptionEnum,
}

impl DeepView for Endpoint {
    type V = EndpointView;

    open spec fn deep_view(&self) -> EndpointView {
        EndpointView {
            port: self.port.deep_view(),
            host: self.host.deep_view(),
            encryption: self.encryption.deep_view(),
        }
    }
}

impl Endpoint {
    /// The value that stands where nothing was set.
    pub open spec fn blank() -> EndpointView {
        EndpointView {
            port: 0,
            host: Seq::<char>::empty(),
            encryption: EncryptionEnum::PLAINTEXT,
        }
    }
}

impl Default for Endpoint {
    fn default() -> (r: Self)
        ensures
            r.deep_view() == Endpoint::blank(),
    {
        Endpoint {
            port: 0,
            host: String::new(),
            encryption: EncryptionEnum::PLAINTEXT,
        }
    }
}

/// The fields of `Endpoint`, one after the other.
#[verifier::opaque]
pub open spec fn endpoint_encoding(v: EndpointView, version: Version) -> Seq<u8> {
    u16::encoding(v.port, version)
        + String::encoding(v.host, version)
        + EncryptionEnum::encoding(v.encryption, version)
}

/// The `Endpoint` whose fields follow each other at the start of `src`.
#[verifier::opaque]
pub open spec fn endpoint_decoding(src: Seq<u8>, version: Version) -> Result<
    (EndpointView, nat),
    DecodeError,
> {
    match u16::decoding(src, version) {
        Err(e) => Err(e),
        Ok((port, n0)) => {
            let src = src.skip(n0 as int);
            match String::decoding(src, version) {
                Err(e) => Err(e),
                Ok((host, n1)) => {
                    let src = src.skip(n1 as int);
                    match EncryptionEnum::decoding(src, version) {
                        Err(e) => Err(e),
                        Ok((encryption, n2)) => {
                            Ok((
                                EndpointView { port, host, encryption },
                                n0 + n1 + n2,
                            ))
                        },
                    }
                },
            }
        },
    }
}

/// How many bytes of `src` have been read when reading a `Endpoint` fails:
/// the fields before the one that fails, and what was read of that one.
#[verifier::opaque]
pub open spec fn endpoint_failure_at(src: Seq<u8>, version: Version) -> nat {
    match u16::decoding(src, version) {
        Err(_) => u16::failure_at(src, version),
        Ok((_, n0)) => {
            let src = src.skip(n0 as int);
            match String::decoding(src, version) {
                Err(_) => n0 + String::failure_at(src, version),
                Ok((_, n1)) => {
                    let src = src.skip(n1 as int);
                    n0 + n1 + EncryptionEnum::failure_at(src, version)
                },
            }
        },
    }
}

impl Encoder for Endpoint {
    open spec fn encoding(v: EndpointView, version: Version) -> Seq<u8> {
        endpoint_encoding(v, version)
    }

    open spec fn encodable(v: EndpointView, version: Version) -> bool {
        &&& u16::encodable(v.port, version)
        &&& String::encodable(v.host, version)
        &&& EncryptionEnum::encodable(v.encryption, version)
    }

    fn write_size(&self, version: Version) -> (n: usize) {
        reveal(endpoint_encoding);
        self.port.write_size(version)
            + self.host.write_size(version)
            + self.encryption.write_size(version)
    }

    fn encode(&self, dest: &mut Vec<u8>, version: Version) {
        self.port.encode(dest, version);
        self.host.encode(dest, version);
        self.encryption.encode(dest, version);
        assert(dest@ =~= old(dest)@ + endpoint_encoding(self.deep_view(), version)) by {
            reveal(endpoint_encoding);
        }
    }
}

impl Decoder for Endpoint {
    open spec fn decoding(src: Seq<u8>, version: Version) -> Result<
        (EndpointView, nat),
        DecodeError,
    > {
        endpoint_decoding(src, version)
    }

    open spec fn failure_at(src: Seq<u8>, version: Version) -> nat {
        endpoint_failure_at(src, version)
    }

    fn decode(&mut self, src: &mut ByteReader<'_>, version: Version) -> (r: Result<
        (),
        DecodeError,
    >) {
        reveal(endpoint_decoding);
        reveal(endpoint_failure_at);
        let ghost rest0 = src.rest();
        let mut port: u16 = 0;
        port.decode(src, version)?;
        let mut host: String = String::new();
        host.decode(src, version)?;
        let mut encryption: EncryptionEnum = EncryptionEnum::PLAINTEXT;
        encryption.decode(src, version)?;
        proof {
            use_type_invariant(&*src);
            assert(src.rest() =~= rest0.skip(src.position() - old(src).position()));
        }
        *self = Endpoint { port, host, encryption };
        Ok(())
    }

    proof fn lemma_decoding_in_bounds(src: Seq<u8>, version: Version) {
        reveal(endpoint_decoding);
        u16::lemma_decoding_in_bounds(src, version);
        if let Ok((_, n0)) = u16::decoding(src, version) {
            let src = src.skip(n0 as int);
            String::lemma_decoding_in_bounds(src, version);
            if let Ok((_, n1)) = String::decoding(src, version) {
                let src = src.skip(n1 as int);
                EncryptionEnum::lemma_decoding_in_bounds(src, version);
            }
        }
    }

    proof fn lemma_round_trip(v: EndpointView, version: Version, tail: Seq<u8>) {
        reveal(endpoint_encoding);
        reveal(endpoint_decoding);
        let e0 = u16::encoding(v.port, version);
        let e1 = String::encoding(v.host, version);
        let e2 = EncryptionEnum::encoding(v.encryption, version);
        let r1 = e2 + tail;
        let r0 = e1 + r1;
        lemma_join3(e0, e1, e2, tail);
        u16::lemma_round_trip(v.port, version, r0);
        lemma_skip_joined(e0, r0);
        String::lemma_round_trip(v.host, version, r1);
        lemma_skip_joined(e1, r1);
        EncryptionEnum::lemma_round_trip(v.encryption, version, tail);
    }
}

/// One address under which a storage unit can be reached from outside.
#[derive(Debug, Clone, PartialEq, Eq)]
pub struct IngressAddr {
    pub hostname: Option<String>,
    pub ip: Option<String>,
}

/// The mathematical model of `IngressAddr`.
pub struct IngressAddrView {
    pub hostname: Option<Seq<char>>,
    pub ip: Option<Seq<char>>,
}

impl DeepView for IngressAddr {
    type V = IngressAddrView;

    open spec fn deep_view(&self) -> IngressAddrView {
        IngressAddrView {
            hostname: self.hostname.deep_view(),
            ip: self.ip.deep_view(),
        }
    }
}

impl IngressAddr {
    /// The value that stands where nothing was set.
    pub open spec fn blank() -> IngressAddrView {
        IngressAddrView {
            hostname: None::<Seq<char>>,
            ip: None::<Seq<char>>,
        }
    }
}

impl Default for IngressAddr {
    fn default() -> (r: Self)
        ensures
            r.deep_view() == IngressAddr::blank(),
    {
        IngressAddr {
            hostname: None,
            ip: None,
        }
    }
}

/// The fields of `IngressAddr`, one after the other.
#[verifier::opaque]
pub open spec fn ingress_addr_encoding(v: IngressAddrView, version: Version) -> Seq<u8> {
    Option::<String>::encoding(v.hostname, version) + Option::<String>::encoding(v.ip, version)
}

/// The `IngressAddr` whose fields follow each other at the start of `src`.
#[verifier::opaque]
pub open spec fn ingress_addr_decoding(src: Seq<u8>, version: Version) -> Result<
    (IngressAddrView, nat),
    DecodeError,
> {
    match Option::<String>::decoding(src, version) {
        Err(e) => Err(e),
        Ok((hostname, n0)) => {
            let src = src.skip(n0 as int);
            match Option::<String>::decoding(src, version) {
                Err(e) => Err(e),
                Ok((ip, n1)) => {
                    Ok((
                        IngressAddrView { hostname, ip },
                        n0 + n1,
                    ))
                },
            }
        },
    }
}

/// How many bytes of `src` have been read when reading a `IngressAddr` fails:
/// the fields before the one that fails, and what was read of that one.
#[verifier::opaque]
pub open spec fn ingress_addr_failure_at(src: Seq<u8>, version: Version) -> nat {
    match Option::<String>::decoding(src, version) {
        Err(_) => Option::<String>::failure_at(src, version),
        Ok((_, n0)) => {
            let src = src.skip(n0 as int);
            n0 + Option::<String>::failure_at(src, version)
        },
    }
}

impl Encoder for IngressAddr {
    open spec fn encoding(v: IngressAddrView, version: Version) -> Seq<u8> {
        ingress_addr_encoding(v, version)
    }

    open spec fn encodable(v: IngressAddrView, version: Version) -> bool {
        &&& Option::<String>::encodable(v.hostname, version)
        &&& Option::<String>::encodable(v.ip, version)
    }

    fn write_size(&self, version: Version) -> (n: usize) {
        reveal(ingress_addr_encoding);
        self.hostname.write_size(version) + self.ip.write_size(version)
    }

    fn encode(&self, dest: &mut Vec<u8>, version: Version) {
        self.hostname.encode(dest, version);
        self.ip.encode(dest, version);
        assert(dest@ =~= old(dest)@ + ingress_addr_encoding(self.deep_view(), version)) by {
            reveal(ingress_addr_encoding);
        }
    }
}

impl Decoder for IngressAddr {
    open spec fn decoding(src: Seq<u8>, version: Version) -> Result<
        (IngressAddrView, nat),
        DecodeError,
    > {
        ingress_addr_decoding(src, version)
    }

    open spec fn failure_at(src: Seq<u8>, version: Version) -> nat {
        ingress_addr_failure_at(src, version)
    }

    fn decode(&mut self, src: &mut ByteReader<'_>, version: Version) -> (r: Result<
        (),
        DecodeError,
    >) {
        reveal(ingress_addr_decoding);
        reveal(ingress_addr_failure_at);
        let ghost rest0 = src.rest();
        let mut hostname: Option<String> = None;
        hostname.decode(src, version)?;
        let mut ip: Option<String> = None;
        ip.decode(src, version)?;
        proof {
            use_type_invariant(&*src);
            assert(src.rest() =~= rest0.skip(src.position() - old(src).position()));
        }
        *self = IngressAddr { hostname, ip };
        Ok(())
    }

    proof fn lemma_decoding_in_bounds(src: Seq<u8>, version: Version) {
        reveal(ingress_addr_decoding);
        Option::<String>::lemma_decoding_in_bounds(src, version);
        if let Ok((_, n0)) = Option::<String>::decoding(src, version) {
            let src = src.skip(n0 as int);
            Option::<String>::lemma_decoding_in_bounds(src, version);
        }
    }

    proof fn lemma_round_trip(v: IngressAddrView, version: Version, tail: Seq<u8>) {
        reveal(ingress_addr_encoding);
        reveal(ingress_addr_decoding);
        let e0 = Option::<String>::encoding(v.hostname, version);
        let e1 = Option::<String>::encoding(v.ip, version);
        let r0 = e1 + tail;
        lemma_join2(e0, e1, tail);
        Option::<String>::lemma_round_trip(v.hostname, version, r0);
        lemma_skip_joined(e0, r0);
        Option::<String>::lemma_round_trip(v.ip, version, tail);
    }
}

/// The port and the addresses under which a storage unit can be reached
/// from outside.
#[derive(Debug, Clone, PartialEq, Eq)]
pub struct IngressPort {
    pub port: u16,
    pub ingress: Vec<IngressAddr>,
    pub encryption: EncryptionEnum,
}

/// The mathematical model of `IngressPort`.
pub struct IngressPortView {
    pub port: u16,
    pub ingress: Seq<IngressAddrView>,
    pub encryption: EncryptionEnum,
}

impl DeepView for IngressPort {
    type V = IngressPortView;

    open spec fn deep_view(&self) -> IngressPortView {
        IngressPortView {
            port: self.port.deep_view(),
            ingress: self.ingress.deep_view(),
            encryption: self.encryption.deep_view(),
        }
    }
}

impl IngressPort {
    /// The value that stands where nothing was set.
    pub open spec fn blank() -> IngressPortView {
        IngressPortView {
            port: 0,
            ingress: Seq::<IngressAddrView>::empty(),
            encryption: EncryptionEnum::PLAINTEXT,
        }
    }
}

impl Default for IngressPort {
    fn default() -> (r: Self)
        ensures
            r.deep_view() == IngressPort::blank(),
    {
        let r = IngressPort {
            port: 0,
            ingress: Vec::new(),
            encryption: EncryptionEnum::PLAINTEXT,
        };
        assert(r.ingress.deep_view() =~= Seq::<IngressAddrView>::empty());
        r
    }
}

/// The fields of `IngressPort`, one after the other.
#[verifier::opaque]
pub open spec fn ingress_port_encoding(v: IngressPortView, version: Version) -> Seq<u8> {
    u16::encoding(v.port, version)
        + Vec::<IngressAddr>::encoding(v.ingress, version)
        + EncryptionEnum::encoding(v.encryption, version)
}

/// The `IngressPort` whose fields follow each other at the start of `src`.
#[verifier::opaque]
pub open spec fn ingress_port_decoding(src: Seq<u8>, version: Version) -> Result<
    (IngressPortView, nat),
    DecodeError,
> {
    match u16::decoding(src, version) {
        Err(e) => Err(e),
        Ok((port, n0)) => {
            let src = src.skip(n0 as int);
            match Vec::<IngressAddr>::decoding(src, version) {
                Err(e) => Err(e),
                Ok((ingress, n1)) => {
                    let src = src.skip(n1 as int);
                    match EncryptionEnum::decoding(src, version) {
                        Err(e) => Err(e),
                        Ok((encryption, n2)) => {
                            Ok((
                                IngressPortView { port, ingress, encryption },
                                n0 + n1 + n2,
                            ))
                        },
                    }
                },
            }
        },
    }
}

/// How many bytes of `src` have been read when reading a `IngressPort` fails:
/// the fields before the one that fails, and what was read of that one.
#[verifier::opaque]
pub open spec fn ingress_port_failure_at(src: Seq<u8>, version: Version) -> nat {
    match u16::decoding(src, version) {
        Err(_) => u16::failure_at(src, version),
        Ok((_, n0)) => {
            let src = src.skip(n0 as int);
            match Vec::<IngressAddr>::decoding(src, version) {
                Err(_) => n0 + Vec::<IngressAddr>::failure_at(src, version),
                Ok((_, n1)) => {
                    let src = src.skip(n1 as int);
                    n0 + n1 + EncryptionEnum::failure_at(src, version)
                },
            }
        },
    }
}

impl Encoder for IngressPort {
    open spec fn encoding(v: IngressPortView, version: Version) -> Seq<u8> {
        ingress_port_encoding(v, version)
    }

    open spec fn encodable(v: IngressPortView, version: Version) -> bool {
        &&& u16::encodable(v.port, version)
        &&& Vec::<IngressAddr>::encodable(v.ingress, version)
        &&& EncryptionEnum::encodable(v.encryption, version)
    }

    fn write_size(&self, version: Version) -> (n: usize) {
        reveal(ingress_port_encoding);
        self.port.write_size(version)
            + self.ingress.write_size(version)
            + self.encryption.write_size(version)
    }

    fn encode(&self, dest: &mut Vec<u8>, version: Version) {
        self.port.encode(dest, version);
        self.ingress.encode(dest, version);
        self.encryption.encode(dest, version);
        assert(dest@ =~= old(dest)@ + ingress_port_encoding(self.deep_view(), version)) by {
            reveal(ingress_port_encoding);
        }
    }
}

impl Decoder for IngressPort {
    open spec fn decoding(src: Seq<u8>, version: Version) -> Result<
        (IngressPortView, nat),
        DecodeError,
    > {
        ingress_port_decoding(src, version)
    }

    open spec fn failure_at(src: Seq<u8>, version: Version) -> nat {
        ingress_port_failure_at(src, version)
    }

    fn decode(&mut self, src: &mut ByteReader<'_>, version: Version) -> (r: Result<
        (),
        DecodeError,
    >) {
        reveal(ingress_port_decoding);
        reveal(ingress_port_failure_at);
        let ghost rest0 = src.rest();
        let mut port: u16 = 0;
        port.decode(src, version)?;
        let mut ingress: Vec<IngressAddr> = Vec::new();
        assert(ingress.deep_view() =~= Seq::<IngressAddrView>::empty());
        ingress.decode(src, version)?;
        let mut encryption: EncryptionEnum = EncryptionEnum::PLAINTEXT;
        encryption.decode(src, version)?;
        proof {
            use_type_invariant(&*src);
            assert(src.rest() =~= rest0.skip(src.position() - old(src).position()));
        }
        *self = IngressPort { port, ingress, encryption };
        Ok(())
    }

    proof fn lemma_decoding_in_bounds(src: Seq<u8>, version: Version) {
        reveal(ingress_port_decoding);
        u16::lemma_decoding_in_bounds(src, version);
        if let Ok((_, n0)) = u16::decoding(src, version) {
            let src = src.skip(n0 as int);
            Vec::<IngressAddr>::lemma_decoding_in_bounds(src, version);
            if let Ok((_, n1)) = Vec::<IngressAddr>::decoding(src, version) {
                let src = src.skip(n1 as int);
                EncryptionEnum::lemma_decoding_in_bounds(src, version);
            }
        }
    }

    proof fn lemma_round_trip(v: IngressPortView, version: Version, tail: Seq<u8>) {
        reveal(ingress_port_encoding);
        reveal(ingress_port_decoding);
        let e0 = u16::encoding(v.port, version);
        let e1 = Vec::<IngressAddr>::encoding(v.ingress, version);
        let e2 = EncryptionEnum::encoding(v.encryption, version);
        let r1 = e2 + tail;
        let r0 = e1 + r1;
        lemma_join3(e0, e1, e2, tail);
        u16::lemma_round_trip(v.port, version, r0);
        lemma_skip_joined(e0, r0);
        Vec::<IngressAddr>::lemma_round_trip(v.ingress, version, r1);
        lemma_skip_joined(e1, r1);
        EncryptionEnum::lemma_round_trip(v.encryption, version, tail);
    }
}

/// The version from which on a custom storage unit carries its local
/// endpoint.
pub const LOCAL_ENDPOINT_SINCE: Version = 1;

/// A storage unit that the user runs and registers with the cluster.
#[derive(Debug, Clone, PartialEq, Eq)]
pub struct CustomSpuSpec {
    pub id: SpuId,
    pub public_endpoint: IngressPort,
    pub private_endpoint: Endpoint,
    pub rack: Option<String>,
    /// Carried from version 1 on.
    pub public_endpoint_local: Option<Endpoint>,
}

/// The mathematical model of `CustomSpuSpec`.
pub struct CustomSpuSpecView {
    pub id: SpuId,
    pub public_endpoint: IngressPortView,
    pub private_endpoint: EndpointView,
    pub rack: Option<Seq<char>>,
    pub public_endpoint_local: Option<EndpointView>,
}

impl DeepView for CustomSpuSpec {
    type V = CustomSpuSpecView;

    open spec fn deep_view(&self) -> CustomSpuSpecView {
        CustomSpuSpecView {
            id: self.id.deep_view(),
            public_endpoint: self.public_endpoint.deep_view(),
            private_endpoint: self.private_endpoint.deep_view(),
            rack: self.rack.deep_view(),
            public_endpoint_local: self.public_endpoint_local.deep_view(),
        }
    }
}

impl CustomSpuSpec {
    /// The value that stands where nothing was set.
    pub open spec fn blank() -> CustomSpuSpecView {
        CustomSpuSpecView {
            id: 0,
            public_endpoint: IngressPort::blank(),
            private_endpoint: Endpoint::blank(),
            rack: None::<Seq<char>>,
            public_endpoint_local: None::<EndpointView>,
        }
    }
}

impl Default for CustomSpuSpec {
    fn default() -> (r: Self)
        ensures
            r.deep_view() == CustomSpuSpec::blank(),
    {
        CustomSpuSpec {
            id: 0,
            public_endpoint: IngressPort::default(),
            private_endpoint: Endpoint::default(),
            rack: None,
            public_endpoint_local: None,
        }
    }
}

/// The fields of `CustomSpuSpec`, one after the other.
#[verifier::opaque]
pub open spec fn custom_spu_spec_encoding(v: CustomSpuSpecView, version: Version) -> Seq<u8> {
    SpuId::encoding(v.id, version)
        + IngressPort::encoding(v.public_endpoint, version)
        + Endpoint::encoding(v.private_endpoint, version)
        + Option::<String>::encoding(v.rack, version)
        + gated_encoding::<Option<Endpoint>>(LOCAL_ENDPOINT_SINCE, v.public_endpoint_local, version)
}

/// The `CustomSpuSpec` whose fields follow each other at the start of `src`.
#[verifier::opaque]
pub open spec fn custom_spu_spec_decoding(src: Seq<u8>, version: Version) -> Result<
    (CustomSpuSpecView, nat),
    DecodeError,
> {
    match SpuId::decoding(src, version) {
        Err(e) => Err(e),
        Ok((id, n0)) => {
            let src = src.skip(n0 as int);
            match IngressPort::decoding(src, version) {
                Err(e) => Err(e),
                Ok((public_endpoint, n1)) => {
                    let src = src.skip(n1 as int);
                    match Endpoint::decoding(src, version) {
                        Err(e) => Err(e),
                        Ok((private_endpoint, n2)) => {
                            let src = src.skip(n2 as int);
                            match Option::<String>::decoding(src, version) {
                                Err(e) => Err(e),
                                Ok((rack, n3)) => {
                                    let src = src.skip(n3 as int);
                                    match gated_decoding::<Option<Endpoint>>(
                                        LOCAL_ENDPOINT_SINCE,
                                        None::<EndpointView>,
                                        src,
                                        version,
                                    ) {
                                        Err(e) => Err(e),
                                        Ok((public_endpoint_local, n4)) => {
                                            Ok((
                                                CustomSpuSpecView {
                                                    id,
                                                    public_endpoint,
                                                    private_endpoint,
                                                    rack,
                                                    public_endpoint_local,
                                                },
                                                n0 + n1 + n2 + n3 + n4,
                                            ))
                                        },
                                    }
                                },
                            }
                        },
                    }
                },
            }
        },
    }
}

/// How many bytes of `src` have been read when reading a `CustomSpuSpec` fails:
/// the fields before the one that fails, and what was read of that one.
#[verifier::opaque]
pub open spec fn custom_spu_spec_failure_at(src: Seq<u8>, version: Version) -> nat {
    match SpuId::decoding(src, version) {
        Err(_) => SpuId::failure_at(src, version),
        Ok((_, n0)) => {
            let src = src.skip(n0 as int);
            match IngressPort::decoding(src, version) {
                Err(_) => n0 + IngressPort::failure_at(src, version),
                Ok((_, n1)) => {
                    let src = src.skip(n1 as int);
                    match Endpoint::decoding(src, version) {
                        Err(_) => n0 + n1 + Endpoint::failure_at(src, version),
                        Ok((_, n2)) => {
                            let src = src.skip(n2 as int);
                            match Option::<String>::decoding(src, version) {
                                Err(_) => n0 + n1 + n2 + Option::<String>::failure_at(src, version),
                                Ok((_, n3)) => {
                                    let src = src.skip(n3 as int);
                                    n0 + n1 + n2 + n3 + gated_failure_at::<Option<Endpoint>>(
                                        LOCAL_ENDPOINT_SINCE,
                                        src,
                                        version,
                                    )
                                },
                            }
                        },
                    }
                },
            }
        },
    }
}

impl Encoder for CustomSpuSpec {
    open spec fn encoding(v: CustomSpuSpecView, version: Version) -> Seq<u8> {
        custom_spu_spec_encoding(v, version)
    }

    open spec fn encodable(v: CustomSpuSpecView, version: Version) -> bool {
        &&& SpuId::encodable(v.id, version)
        &&& IngressPort::encodable(v.public_endpoint, version)
        &&& Endpoint::encodable(v.private_endpoint, version)
        &&& Option::<String>::encodable(v.rack, version)
        &&& gated_encodable::<Option<Endpoint>>(
            LOCAL_ENDPOINT_SINCE,
            None::<EndpointView>,
            v.public_endpoint_local,
            version,
        )
    }

    fn write_size(&self, version: Version) -> (n: usize) {
        reveal(custom_spu_spec_encoding);
        self.id.write_size(version)
            + self.public_endpoint.write_size(version)
            + self.private_endpoint.write_size(version)
            + self.rack.write_size(version)
            + gated_size(&self.public_endpoint_local, LOCAL_ENDPOINT_SINCE, version)
    }

    fn encode(&self, dest: &mut Vec<u8>, version: Version) {
        self.id.encode(dest, version);
        self.public_endpoint.encode(dest, version);
        self.private_endpoint.encode(dest, version);
        self.rack.encode(dest, version);
        gated_encode(&self.public_endpoint_local, LOCAL_ENDPOINT_SINCE, dest, version);
        assert(dest@ =~= old(dest)@ + custom_spu_spec_encoding(self.deep_view(), version)) by {
            reveal(custom_spu_spec_encoding);
        }
    }
}

impl Decoder for CustomSpuSpec {
    open spec fn decoding(src: Seq<u8>, version: Version) -> Result<
        (CustomSpuSpecView, nat),
        DecodeError,
    > {
        custom_spu_spec_decoding(src, version)
    }

    open spec fn failure_at(src: Seq<u8>, version: Version) -> nat {
        custom_spu_spec_failure_at(src, version)
    }

    fn decode(&mut self, src: &mut ByteReader<'_>, version: Version) -> (r: Result<
        (),
        DecodeError,
    >) {
        reveal(custom_spu_spec_decoding);
        reveal(custom_spu_spec_failure_at);
        let ghost rest0 = src.rest();
        let mut id: SpuId = 0;
        id.decode(src, version)?;
        let mut public_endpoint: IngressPort = IngressPort::default();
        public_endpoint.decode(src, version)?;
        let mut private_endpoint: Endpoint = Endpoint::default();
        private_endpoint.decode(src, version)?;
        let mut rack: Option<String> = None;
        rack.decode(src, version)?;
        let mut public_endpoint_local: Option<Endpoint> = None;
        gated_decode(&mut public_endpoint_local, LOCAL_ENDPOINT_SINCE, src, version)?;
        proof {
            use_type_invariant(&*src);
            assert(src.rest() =~= rest0.skip(src.position() - old(src).position()));
        }
        *self = CustomSpuSpec {
            id,
            public_endpoint,
            private_endpoint,
            rack,
            public_endpoint_local,
        };
        Ok(())
    }

    proof fn lemma_decoding_in_bounds(src: Seq<u8>, version: Version) {
        reveal(custom_spu_spec_decoding);
        SpuId::lemma_decoding_in_bounds(src, version);
        if let Ok((_, n0)) = SpuId::decoding(src, version) {
            let src = src.skip(n0 as int);
            IngressPort::lemma_decoding_in_bounds(src, version);
            if let Ok((_, n1)) = IngressPort::decoding(src, version) {
                let src = src.skip(n1 as int);
                Endpoint::lemma_decoding_in_bounds(src, version);
                if let Ok((_, n2)) = Endpoint::decoding(src, version) {
                    let src = src.skip(n2 as int);
                    Option::<String>::lemma_decoding_in_bounds(src, version);
                    if let Ok((_, n3)) = Option::<String>::decoding(src, version) {
                        let src = src.skip(n3 as int);
                        lemma_gated_in_bounds::<Option<Endpoint>>(
                            LOCAL_ENDPOINT_SINCE,
                            None::<EndpointView>,
                            src,
                            version,
                        );
                    }
                }
            }
        }
    }

    proof fn lemma_round_trip(v: CustomSpuSpecView, version: Version, tail: Seq<u8>) {
        reveal(custom_spu_spec_encoding);
        reveal(custom_spu_spec_decoding);
        let e0 = SpuId::encoding(v.id, version);
        let e1 = IngressPort::encoding(v.public_endpoint, version);
        let e2 = Endpoint::encoding(v.private_endpoint, version);
        let e3 = Option::<String>::encoding(v.rack, version);
        let e4 = gated_encoding::<Option<Endpoint>>(
            LOCAL_ENDPOINT_SINCE,
            v.public_endpoint_local,
            version,
        );
        let r3 = e4 + tail;
        let r2 = e3 + r3;
        let r1 = e2 + r2;
        let r0 = e1 + r1;
        lemma_join5(e0, e1, e2, e3, e4, tail);
        SpuId::lemma_round_trip(v.id, version, r0);
        lemma_skip_joined(e0, r0);
        IngressPort::lemma_round_trip(v.public_endpoint, version, r1);
        lemma_skip_joined(e1, r1);
        Endpoint::lemma_round_trip(v.private_endpoint, version, r2);
        lemma_skip_joined(e2, r2);
        Option::<String>::lemma_round_trip(v.rack, version, r3);
        lemma_skip_joined(e3, r3);
        lemma_gated_round_trip::<Option<Endpoint>>(
            LOCAL_ENDPOINT_SINCE,
            None::<EndpointView>,
            v.public_endpoint_local,
            version,
            tail,
        );
    }
}

} // verus!
