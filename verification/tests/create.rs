use fluvio_core::codec::error::{DecodeError, Invalid};
use fluvio_core::codec::reader::ByteReader;
use fluvio_core::codec::traits::{Decoder, Encoder};
use fluvio_core::metadata::connector::{ConnectorParameter, ManagedConnectorSpec};
use fluvio_core::metadata::spg::{EnvVar, ReplicationConfig, SpuConfig, SpuGroupSpec, StorageConfig};
use fluvio_core::metadata::spu::{CustomSpuSpec, EncryptionEnum, Endpoint, IngressAddr, IngressPort};
use fluvio_core::metadata::topic::{PartitionMap, PartitionMaps, TopicReplicaParam, TopicSpec};
use fluvio_core::schema::create::{
    AllCreatableSpec, CreateRequest, CUSTOM_SPU, MANAGED_CONNECTOR, SPG, TOPIC,
};
use fluvio_core::schema::outcome::{create_status, Registry, Validation};
use fluvio_core::schema::request::{AdminPublicApiKey, Request, CREATE_API_KEY};
use fluvio_core::schema::status::{ErrorCode, Status};

fn encoded<T: Encoder>(value: &T, version: i16) -> Vec<u8> {
    let mut dest = Vec::new();
    value.encode(&mut dest, version);
    dest
}

fn decoded<T: Decoder + Default>(bytes: &[u8], version: i16) -> Result<(T, usize), DecodeError> {
    let mut src = ByteReader::new(bytes);
    let mut value = T::default();
    value.decode(&mut src, version)?;
    Ok((value, src.pos()))
}

fn computed_topic() -> TopicSpec {
    TopicSpec::Computed(TopicReplicaParam {
        partitions: 3,
        replication_factor: 2,
        ignore_rack_assignment: true,
    })
}

fn assigned_topic() -> TopicSpec {
    TopicSpec::Assigned(PartitionMaps {
        maps: vec![
            PartitionMap { id: 0, replicas: vec![5001, 5002] },
            PartitionMap { id: 1, replicas: vec![5002] },
        ],
    })
}

fn endpoint(port: u16, host: &str) -> Endpoint {
    Endpoint { port, host: host.to_string(), encryption: EncryptionEnum::SSL }
}

fn custom_spu(local: Option<Endpoint>) -> CustomSpuSpec {
    CustomSpuSpec {
        id: 5001,
        public_endpoint: IngressPort {
            port: 9005,
            ingress: vec![
                IngressAddr { hostname: Some("spu.example.com".to_string()), ip: None },
                IngressAddr { hostname: None, ip: Some("10.0.0.7".to_string()) },
            ],
            encryption: EncryptionEnum::PLAINTEXT,
        },
        private_endpoint: endpoint(9006, "spu-internal"),
        rack: Some("rack-1".to_string()),
        public_endpoint_local: local,
    }
}

fn spu_group() -> SpuGroupSpec {
    SpuGroupSpec {
        replicas: 3,
        min_id: 10,
        spu_config: SpuConfig {
            rack: None,
            replication: Some(ReplicationConfig { in_sync_replica_min: Some(2) }),
            storage: Some(StorageConfig { log_dir: Some("/var/log".to_string()), size: None }),
            env: vec![EnvVar { name: "RUST_LOG".to_string(), value: "info".to_string() }],
        },
    }
}

fn connector() -> ManagedConnectorSpec {
    ManagedConnectorSpec {
        name: "cat-facts".to_string(),
        type_: "http".to_string(),
        topic: "facts".to_string(),
        parameters: vec![ConnectorParameter {
            name: "endpoint".to_string(),
            value: "https://example.com/facts".to_string(),
        }],
    }
}

fn every_kind() -> Vec<(u8, AllCreatableSpec)> {
    vec![
        (TOPIC, AllCreatableSpec::Topic(computed_topic())),
        (TOPIC, AllCreatableSpec::Topic(assigned_topic())),
        (CUSTOM_SPU, AllCreatableSpec::CustomSpu(custom_spu(Some(endpoint(9007, "localhost"))))),
        (SPG, AllCreatableSpec::SpuGroup(spu_group())),
        (MANAGED_CONNECTOR, AllCreatableSpec::ManagedConnector(connector())),
    ]
}

#[test]
fn tags_are_the_stable_ones() {
    assert_eq!(TOPIC, 0);
    assert_eq!(CUSTOM_SPU, 1);
    assert_eq!(SPG, 2);
    assert_eq!(MANAGED_CONNECTOR, 3);
}

#[test]
fn every_kind_begins_with_its_tag_and_reads_back() {
    for version in [1i16, 2] {
        for (tag, spec) in every_kind() {
            let bytes = encoded(&spec, version);
            assert_eq!(bytes[0], tag);
            assert_eq!(spec.write_size(version), bytes.len());
            assert_eq!(decoded::<AllCreatableSpec>(&bytes, version), Ok((spec, bytes.len())));
        }
    }
}

#[test]
fn size_is_one_for_the_tag_plus_the_payload() {
    let topic = computed_topic();
    let spec = AllCreatableSpec::Topic(computed_topic());
    assert_eq!(spec.write_size(0), 1 + topic.write_size(0));
    // tag of the spec, tag of the topic, two numbers and a flag
    assert_eq!(spec.write_size(0), 1 + 1 + 4 + 4 + 1);
    assert_eq!(encoded(&spec, 0), vec![0, 1, 0, 0, 0, 3, 0, 0, 0, 2, 1]);
}

#[test]
fn unknown_tag_is_rejected_and_nothing_takes_its_place() {
    for tag in [4u8, 5, 100, 255] {
        let mut bytes = encoded(&AllCreatableSpec::Topic(computed_topic()), 0);
        bytes[0] = tag;
        let mut spec = AllCreatableSpec::SpuGroup(spu_group());
        let mut src = ByteReader::new(&bytes);
        assert_eq!(
            spec.decode(&mut src, 0),
            Err(DecodeError::InvalidData { reason: Invalid::Tag(tag) })
        );
        assert_eq!(spec, AllCreatableSpec::SpuGroup(spu_group()));
        // the tag byte stays read
        assert_eq!(src.pos(), 1);
    }
}

#[test]
fn unknown_tag_inside_a_payload_is_rejected() {
    // a topic whose own tag names no variant
    assert_eq!(
        decoded::<AllCreatableSpec>(&[0, 7, 0, 0], 0),
        Err(DecodeError::InvalidData { reason: Invalid::Tag(7) })
    );
    // an endpoint whose encryption names no variant
    let mut bytes = encoded(&endpoint(80, "h"), 0);
    let last = bytes.len() - 1;
    bytes[last] = 2;
    assert_eq!(
        decoded::<Endpoint>(&bytes, 0),
        Err(DecodeError::InvalidData { reason: Invalid::Tag(2) })
    );
}

#[test]
fn empty_input_is_an_unexpected_end() {
    assert_eq!(decoded::<AllCreatableSpec>(&[], 0), Err(DecodeError::UnexpectedEnd));
    assert_eq!(decoded::<AllCreatableSpec>(&[1], 0), Err(DecodeError::UnexpectedEnd));
    assert_eq!(decoded::<CreateRequest>(&[0, 1, b'a'], 1), Err(DecodeError::UnexpectedEnd));
}

#[test]
fn cut_input_is_an_unexpected_end_at_every_length() {
    let request = CreateRequest {
        name: "spu".to_string(),
        dry_run: false,
        spec: AllCreatableSpec::CustomSpu(custom_spu(None)),
    };
    let bytes = encoded(&request, 1);
    for cut in 0..bytes.len() {
        assert_eq!(
            decoded::<CreateRequest>(&bytes[..cut], 1),
            Err(DecodeError::UnexpectedEnd),
            "cut at {}",
            cut
        );
        let mut src = ByteReader::new(&bytes[..cut]);
        let mut request = CreateRequest::default();
        assert!(request.decode(&mut src, 1).is_err());
        assert!(src.pos() <= cut);
        assert_eq!(request, CreateRequest::default());
    }
}

#[test]
fn default_spec_is_a_blank_topic() {
    assert_eq!(
        AllCreatableSpec::default(),
        AllCreatableSpec::Topic(TopicSpec::Assigned(PartitionMaps { maps: vec![] }))
    );
    let request = CreateRequest::default();
    assert_eq!(request.name, "");
    assert!(!request.dry_run);
    assert_eq!(request.spec, AllCreatableSpec::default());
}

#[test]
fn create_request_is_name_flag_spec() {
    let request = CreateRequest {
        name: "t1".to_string(),
        dry_run: true,
        spec: AllCreatableSpec::Topic(computed_topic()),
    };
    let bytes = encoded(&request, 1);
    assert_eq!(bytes, vec![0, 2, b't', b'1', 1, 0, 1, 0, 0, 0, 3, 0, 0, 0, 2, 1]);
    assert_eq!(request.write_size(1), 16);
    assert_eq!(decoded::<CreateRequest>(&bytes, 1), Ok((request, 16)));
}

#[test]
fn create_request_reads_back_for_every_kind() {
    for (_, spec) in every_kind() {
        for dry_run in [false, true] {
            let request = CreateRequest { name: "thing".to_string(), dry_run, spec: spec.clone() };
            let bytes = encoded(&request, 1);
            assert_eq!(request.write_size(1), bytes.len());
            assert_eq!(decoded::<CreateRequest>(&bytes, 1), Ok((request, bytes.len())));
        }
    }
}

#[test]
fn field_of_a_later_version_is_left_out_below_it() {
    let with_local = custom_spu(Some(endpoint(9007, "localhost")));
    let without_local = custom_spu(None);

    let old = encoded(&with_local, 0);
    let new = encoded(&with_local, 1);
    assert_eq!(with_local.write_size(0), old.len());
    assert_eq!(with_local.write_size(1), new.len());
    // flag, port, length of the host name, the host name, encryption
    assert_eq!(new.len(), old.len() + 1 + 2 + 2 + 9 + 1);
    assert_eq!(&new[..old.len()], &old[..]);

    // below version 1 the field is not written and reads back as nothing
    assert_eq!(decoded::<CustomSpuSpec>(&old, 0), Ok((without_local.clone(), old.len())));
    assert_eq!(decoded::<CustomSpuSpec>(&new, 1), Ok((with_local, new.len())));
    // a value without the field reads back under both versions
    let plain = encoded(&without_local, 0);
    assert_eq!(decoded::<CustomSpuSpec>(&plain, 0), Ok((without_local.clone(), plain.len())));
    let plain = encoded(&without_local, 1);
    assert_eq!(plain.len(), old.len() + 1);
    assert_eq!(decoded::<CustomSpuSpec>(&plain, 1), Ok((without_local, plain.len())));
}

#[test]
fn create_request_names_its_key_version_and_response() {
    assert_eq!(<CreateRequest as Request>::API_KEY, 1001);
    assert_eq!(<CreateRequest as Request>::API_KEY, CREATE_API_KEY);
    assert_eq!(<CreateRequest as Request>::DEFAULT_API_VERSION, 1);
    let response: <CreateRequest as Request>::Response = Status::default();
    assert_eq!(response.error_code, ErrorCode::NoError);
}

#[test]
fn api_keys_map_to_numbers_and_back() {
    for key in [
        AdminPublicApiKey::ApiVersion,
        AdminPublicApiKey::Create,
        AdminPublicApiKey::Delete,
        AdminPublicApiKey::List,
        AdminPublicApiKey::Watch,
    ] {
        assert_eq!(AdminPublicApiKey::from_u16(key.as_u16()), Some(key));
    }
    assert_eq!(AdminPublicApiKey::Create.as_u16(), 1001);
    assert_eq!(AdminPublicApiKey::from_u16(0), None);
    assert_eq!(AdminPublicApiKey::from_u16(1005), None);
}

#[test]
fn status_reads_back() {
    let ok = Status { name: "t1".to_string(), error_code: ErrorCode::NoError, error_message: None };
    let bytes = encoded(&ok, 1);
    assert_eq!(bytes, vec![0, 2, b't', b'1', 0, 0, 0]);
    assert_eq!(decoded::<Status>(&bytes, 1), Ok((ok, 7)));
    let failed = Status {
        name: "t1".to_string(),
        error_code: ErrorCode::ValidationFailed,
        error_message: Some("exists".to_string()),
    };
    let bytes = encoded(&failed, 1);
    assert_eq!(failed.write_size(1), bytes.len());
    assert_eq!(decoded::<Status>(&bytes, 1), Ok((failed, bytes.len())));
    assert!(ErrorCode::ValidationFailed.is_error());
    assert!(!ErrorCode::NoError.is_error());
    assert_eq!(
        decoded::<ErrorCode>(&[0, 9], 1),
        Err(DecodeError::InvalidData { reason: Invalid::Code(9) })
    );
}

fn request(name: &str, dry_run: bool, spec: AllCreatableSpec) -> CreateRequest {
    CreateRequest { name: name.to_string(), dry_run, spec }
}

#[test]
fn dry_run_stores_nothing_whatever_it_asks_and_however_it_fares() {
    for (_, spec) in every_kind() {
        for validation in [
            Validation::Valid,
            Validation::Invalid { message: "name is taken".to_string() },
        ] {
            let mut registry = Registry::new();
            registry.create(request("first", false, AllCreatableSpec::default()), Validation::Valid);
            assert_eq!(registry.len(), 1);
            registry.create(request("probe", true, spec.clone()), validation);
            assert_eq!(registry.len(), 1);
            assert!(registry.contains(&"first".to_string()));
            assert!(!registry.contains(&"probe".to_string()));
        }
    }
}

#[test]
fn dry_run_is_told_what_a_real_run_is_told() {
    for validation in [
        Validation::Valid,
        Validation::Invalid { message: "name is taken".to_string() },
    ] {
        let dry = create_status(&request("t1", true, AllCreatableSpec::default()), validation.clone());
        let real = create_status(&request("t1", false, AllCreatableSpec::default()), validation);
        assert_eq!(dry, real);
    }
}

#[test]
fn valid_request_is_stored_and_invalid_is_not() {
    let mut registry = Registry::new();
    let status = registry.create(request("t1", false, AllCreatableSpec::Topic(computed_topic())), Validation::Valid);
    assert_eq!(
        status,
        Status { name: "t1".to_string(), error_code: ErrorCode::NoError, error_message: None }
    );
    assert!(registry.contains(&"t1".to_string()));
    let status = registry.create(
        request("t2", false, AllCreatableSpec::Topic(computed_topic())),
        Validation::Invalid { message: "too many partitions".to_string() },
    );
    assert_eq!(
        status,
        Status {
            name: "t2".to_string(),
            error_code: ErrorCode::ValidationFailed,
            error_message: Some("too many partitions".to_string()),
        }
    );
    assert!(!registry.contains(&"t2".to_string()));
    assert_eq!(registry.len(), 1);
}

#[test]
fn blank_spec_reads_back_under_every_version() {
    for version in [-1i16, 0, 1, 2, i16::MAX] {
        let blank = AllCreatableSpec::default();
        let bytes = encoded(&blank, version);
        assert_eq!(bytes, vec![0, 0, 0, 0, 0, 0]);
        assert_eq!(decoded::<AllCreatableSpec>(&bytes, version), Ok((blank, 6)));
    }
}

#[test]
fn unknown_tag_leaves_the_tag_byte_read() {
    let mut spec = AllCreatableSpec::CustomSpu(CustomSpuSpec::default());
    let bytes = vec![4u8];
    let mut src = ByteReader::new(&bytes);
    assert_eq!(
        spec.decode(&mut src, 0),
        Err(DecodeError::InvalidData { reason: Invalid::Tag(4) })
    );
    assert_eq!(spec, AllCreatableSpec::CustomSpu(CustomSpuSpec::default()));
    assert_eq!(src.remaining(), 0);

    let mut spec = AllCreatableSpec::default();
    let bytes = vec![255u8, 0, 0];
    let mut src = ByteReader::new(&bytes);
    assert_eq!(
        spec.decode(&mut src, 1),
        Err(DecodeError::InvalidData { reason: Invalid::Tag(255) })
    );
    assert_eq!(spec, AllCreatableSpec::default());
    assert_eq!(src.remaining(), 2);
}

#[test]
fn failed_payload_leaves_read_what_its_decoder_read() {
    // a topic whose own tag names no variant: both tags stay read
    let mut spec = AllCreatableSpec::default();
    let bytes = [0u8, 7, 0, 0];
    let mut src = ByteReader::new(&bytes);
    assert_eq!(
        spec.decode(&mut src, 0),
        Err(DecodeError::InvalidData { reason: Invalid::Tag(7) })
    );
    assert_eq!(src.pos(), 2);
    // a computed topic that ends after its first number
    let bytes = [0u8, 1, 0, 0, 0, 3, 0, 0];
    let mut src = ByteReader::new(&bytes);
    assert_eq!(spec.decode(&mut src, 0), Err(DecodeError::UnexpectedEnd));
    assert_eq!(src.pos(), 6);
    // a request whose name is there and whose flag is none
    let mut request = CreateRequest::default();
    let bytes = [0u8, 1, b'a', 9, 0];
    let mut src = ByteReader::new(&bytes);
    assert_eq!(
        request.decode(&mut src, 1),
        Err(DecodeError::InvalidData { reason: Invalid::Flag(9) })
    );
    assert_eq!(src.pos(), 4);
    assert_eq!(request, CreateRequest::default());
    // no tag at all: nothing is read
    let mut src = ByteReader::new(&[]);
    assert_eq!(spec.decode(&mut src, 0), Err(DecodeError::UnexpectedEnd));
    assert_eq!(src.pos(), 0);
}
