//! Values and their wire encoding.
use std::collections::{HashMap, HashSet};

use stayputnik::codec::{
    arg, call, decode_entries, decode_length_prefixed, decode_varint, encode_varint, tuple_item,
    zigzag_decode32, zigzag_decode64, zigzag_encode32, zigzag_encode64, Decode, Double, Encode,
    Float,
};
use stayputnik::krpc::schema::{
    Class, Enumeration, EnumerationValue, Exception, Parameter, Procedure, ProcedureCall, Service,
    Services, Status, Stream, Tuple, Type,
};
use stayputnik::message::{decode_message, encode_message};
use stayputnik::services::krpc::Expression;
use stayputnik::{ClientRef, Error, Malformed};

fn test_client() -> ClientRef {
    ClientRef::new(String::new(), vec![])
}

fn double(v: f64) -> Double {
    Double { bits: v.to_bits() }
}

fn float(v: f32) -> Float {
    Float { bits: v.to_bits() }
}

fn round_trip<T: Encode + Decode + PartialEq + std::fmt::Debug>(val: T) {
    let client = test_client();
    assert_eq!(T::decode_krpc(&client, &val.encode_krpc()).unwrap(), val);
}

fn fault<T: Decode + std::fmt::Debug>(bytes: &[u8]) -> Malformed {
    match T::decode_krpc(&test_client(), bytes) {
        Err(Error::Decode(e)) => e,
        other => panic!("unexpected outcome: {other:?}"),
    }
}

#[test]
fn round_trip_u32() {
    round_trip(300u32);
}

#[test]
fn round_trip_u64() {
    round_trip(123456789u64);
}

#[test]
fn round_trip_i32() {
    for val in [0i32, 1, -1, 2, -2, i32::MAX, i32::MIN] {
        round_trip(val);
    }
}

#[test]
fn zigzag_known_values() {
    assert_eq!(zigzag_encode32(0), 0);
    assert_eq!(zigzag_encode32(-1), 1);
    assert_eq!(zigzag_encode32(1), 2);
    assert_eq!(zigzag_encode32(-2), 3);
}

#[test]
fn round_trip_i64() {
    for val in [0i64, 1, -1, i64::MAX, i64::MIN] {
        round_trip(val);
    }
}

#[test]
fn round_trip_f32() {
    round_trip(float(std::f32::consts::PI));
}

#[test]
fn round_trip_f64() {
    round_trip(double(std::f64::consts::PI));
}

#[test]
fn round_trip_bool() {
    round_trip(true);
    round_trip(false);
}

#[test]
fn round_trip_string() {
    round_trip("hello".to_string());
}

#[test]
fn string_encoding() {
    let encoded = "hello".encode_krpc();
    assert_eq!(encoded, vec![5, b'h', b'e', b'l', b'l', b'o']);
}

#[test]
fn round_trip_tuple3() {
    round_trip((double(1.0), double(2.0), double(3.0)));
}

#[test]
fn truncated_string_errors() {
    let client = test_client();
    // Length prefix says 100 bytes but only 5 follow.
    let mut bytes = encode_varint(100);
    bytes.extend_from_slice(b"hello");
    assert!(String::decode_krpc(&client, &bytes).is_err());
    assert!(Vec::<u8>::decode_krpc(&client, &bytes).is_err());
}

#[test]
fn short_tuple_errors() {
    let client = test_client();
    let encoded = (double(1.0), double(2.0)).encode_krpc();
    assert!(<(Double, Double, Double)>::decode_krpc(&client, &encoded).is_err());
}

#[test]
fn wrong_float_width_errors() {
    let client = test_client();
    assert!(Float::decode_krpc(&client, &[0u8; 3]).is_err());
    assert!(Double::decode_krpc(&client, &[0u8; 4]).is_err());
}

#[test]
fn varints_are_little_endian_groups_of_seven_bits() {
    assert_eq!(encode_varint(0), vec![0]);
    assert_eq!(encode_varint(127), vec![0x7f]);
    assert_eq!(encode_varint(128), vec![0x80, 0x01]);
    assert_eq!(encode_varint(300), vec![0xac, 0x02]);
    assert_eq!(
        encode_varint(u64::MAX),
        vec![0xff, 0xff, 0xff, 0xff, 0xff, 0xff, 0xff, 0xff, 0xff, 0x01]
    );
}

#[test]
fn varints_tell_how_much_they_take() {
    assert_eq!(decode_varint(&[0xac, 0x02, 9, 9]).unwrap(), (300, 2));
    assert_eq!(decode_varint(&[5]).unwrap(), (5, 1));
}

#[test]
fn varints_that_do_not_end_or_do_not_fit_are_malformed() {
    for bytes in [
        vec![],
        vec![0x80],
        vec![0xff; 11],
        vec![0xff, 0xff, 0xff, 0xff, 0xff, 0xff, 0xff, 0xff, 0xff, 0x02],
    ] {
        assert!(matches!(decode_varint(&bytes), Err(Error::Decode(Malformed::Wire(_)))));
        assert!(matches!(fault::<u64>(&bytes), Malformed::Wire(_)));
        assert!(matches!(fault::<bool>(&bytes), Malformed::Wire(_)));
    }
}

#[test]
fn zigzag_reaches_the_ends_of_the_range() {
    assert_eq!(zigzag_encode32(i32::MAX), u32::MAX - 1);
    assert_eq!(zigzag_encode32(i32::MIN), u32::MAX);
    assert_eq!(zigzag_encode64(i64::MAX), u64::MAX - 1);
    assert_eq!(zigzag_encode64(i64::MIN), u64::MAX);
    assert_eq!(zigzag_encode64(-1), 1);
}

#[test]
fn zigzag_undoes_itself() {
    for n in [0, 1, -1, 12345, -12345, i32::MAX, i32::MIN] {
        assert_eq!(zigzag_decode32(zigzag_encode32(n)), n);
        assert_eq!(zigzag_decode64(zigzag_encode64(n as i64)), n as i64);
    }
    for z in [0u32, 1, 2, 3, u32::MAX] {
        assert_eq!(zigzag_encode32(zigzag_decode32(z)), z);
        assert_eq!(zigzag_encode64(zigzag_decode64(z as u64)), z as u64);
    }
    assert_eq!(zigzag_decode64(u64::MAX), i64::MIN);
}

#[test]
fn signed_integers_are_zigzagged() {
    assert_eq!((-2i32).encode_krpc(), vec![3]);
    assert_eq!((-65i64).encode_krpc(), vec![0x81, 0x01]);
}

#[test]
fn narrow_integers_keep_the_low_bits() {
    let client = test_client();
    let wide = encode_varint(0x1_0000_0007);
    assert_eq!(u32::decode_krpc(&client, &wide).unwrap(), 7);
    assert_eq!(i32::decode_krpc(&client, &wide).unwrap(), -4);
}

#[test]
fn any_number_but_zero_is_true() {
    let client = test_client();
    assert!(bool::decode_krpc(&client, &[2]).unwrap());
    assert!(!bool::decode_krpc(&client, &[0, 1]).unwrap());
    assert_eq!(true.encode_krpc(), vec![1]);
    assert_eq!(false.encode_krpc(), vec![0]);
}

#[test]
fn floats_are_little_endian() {
    assert_eq!(double(1.0).encode_krpc(), vec![0, 0, 0, 0, 0, 0, 0xf0, 0x3f]);
    assert_eq!(float(-2.5).encode_krpc(), (-2.5f32).to_le_bytes().to_vec());
    let nan = Double::decode_krpc(&test_client(), &f64::NAN.to_le_bytes()).unwrap();
    assert_eq!(nan.bits, f64::NAN.to_bits());
    assert_eq!(
        Float::decode_krpc(&test_client(), &[1, 2, 3, 4]).unwrap().bits,
        0x0403_0201
    );
}

#[test]
fn float_widths_are_told() {
    assert!(matches!(fault::<Float>(&[0; 5]), Malformed::FloatWidth { expected: 4 }));
    assert!(matches!(fault::<Double>(&[]), Malformed::FloatWidth { expected: 8 }));
}

#[test]
fn texts_are_utf8() {
    round_trip(String::new());
    round_trip("Jebediah \u{1f680} K\u{e9}rman".to_string());
    assert_eq!("\u{e9}".encode_krpc(), vec![2, 0xc3, 0xa9]);
    assert!(matches!(fault::<String>(&[2, 0xc3, 0x28]), Malformed::Utf8(_)));
}

#[test]
fn what_follows_a_region_is_not_looked_at() {
    let client = test_client();
    assert_eq!(String::decode_krpc(&client, b"\x02okay").unwrap(), "ok");
    assert_eq!(Vec::<u8>::decode_krpc(&client, &[1, 7, 8]).unwrap(), vec![7]);
    assert_eq!(decode_length_prefixed(&[2, 4, 5, 6]).unwrap(), &[4, 5]);
}

#[test]
fn length_prefixes_are_bounds_checked() {
    assert!(matches!(fault::<String>(&[3, b'a']), Malformed::LengthPrefix));
    let mut huge = encode_varint(u64::MAX);
    huge.push(1);
    assert!(matches!(fault::<Vec<u8>>(&huge), Malformed::LengthPrefix));
    assert!(matches!(
        decode_length_prefixed(&huge),
        Err(Error::Decode(Malformed::LengthPrefix))
    ));
    assert!(matches!(
        decode_length_prefixed(&[]),
        Err(Error::Decode(Malformed::Wire(_)))
    ));
}

#[test]
fn bytes_are_a_region_and_lists_a_message() {
    round_trip(vec![1u8, 2, 3]);
    assert_eq!(vec![1u8, 2, 3].encode_krpc(), vec![3, 1, 2, 3]);
    assert_eq!([9u8][..].encode_krpc(), vec![1, 9]);
    round_trip(vec![1u32, 300]);
    assert_eq!(vec![1u32, 300].encode_krpc(), vec![0x0a, 1, 1, 0x0a, 2, 0xac, 0x02]);
    round_trip(Vec::<u32>::new());
    assert_eq!(Vec::<u32>::new().encode_krpc(), Vec::<u8>::new());
    round_trip(vec![vec!["a".to_string()], vec![]]);
}

#[test]
fn references_are_encoded_as_what_they_refer_to() {
    assert_eq!((&7u32).encode_krpc(), 7u32.encode_krpc());
    assert_eq!((&&"x").encode_krpc(), "x".encode_krpc());
    assert_eq!("x".to_string().encode_krpc(), "x".encode_krpc());
}

#[test]
fn the_first_bad_item_of_a_list_is_told() {
    // Items: a good text, one that is no UTF-8, one that is too short.
    let list = vec![
        0x0a, 2, 1, b'a', // "a"
        0x0a, 2, 1, 0xff, // no UTF-8
        0x0a, 1, 5, // length prefix exceeds the item
    ];
    assert!(matches!(fault::<Vec<String>>(&list), Malformed::Utf8(_)));
}

#[test]
fn broken_messages_are_malformed() {
    // A field that runs over the end, a field with a key of zero, a known
    // field that is a varint.
    assert!(matches!(fault::<Vec<u32>>(&[0x0a, 9, 1]), Malformed::Wire(_)));
    assert!(matches!(fault::<Vec<u32>>(&[0x00, 1]), Malformed::Wire(_)));
    assert!(matches!(fault::<Vec<u32>>(&[0x08, 1]), Malformed::WireType));
    assert!(matches!(fault::<ProcedureCall>(&[0x0a, 1, 0xff]), Malformed::FieldText));
}

#[test]
fn unknown_fields_are_skipped() {
    let client = test_client();
    // Field 7 as a varint, as 64 bits, as bytes, as a group and as 32 bits,
    // around an item.
    let bytes = vec![
        0x38, 5, // varint
        0x39, 1, 2, 3, 4, 5, 6, 7, 8, // 64 bits
        0x0a, 1, 42, // the item
        0x3a, 2, 9, 9, // bytes
        0x3b, 0x08, 1, 0x3c, // group
        0x3d, 1, 2, 3, 4, // 32 bits
    ];
    assert_eq!(Vec::<u32>::decode_krpc(&client, &bytes).unwrap(), vec![42]);
    assert!(matches!(fault::<Vec<u32>>(&[0x3b, 0x08, 1]), Malformed::Wire(_)));
}

#[test]
fn groups_end_with_their_own_number() {
    let client = test_client();
    // A group of field 7 that holds one of field 6, then an item.
    let nested = vec![0x3b, 0x33, 0x08, 1, 0x34, 0x3c, 0x0a, 1, 42];
    assert_eq!(Vec::<u32>::decode_krpc(&client, &nested).unwrap(), vec![42]);
    // An end of another group, an end without a start.
    assert!(matches!(fault::<Vec<u32>>(&[0x3b, 0x33, 0x3c, 0x34]), Malformed::Wire(_)));
    assert!(matches!(fault::<Vec<u32>>(&[0x3c]), Malformed::Wire(_)));
}

#[test]
fn groups_within_groups_are_limited() {
    let client = test_client();
    let groups = |n: usize| {
        let mut bytes = vec![0x3b; n];
        bytes.extend(vec![0x3c; n]);
        bytes
    };
    assert_eq!(Vec::<u32>::decode_krpc(&client, &groups(100)).unwrap(), Vec::<u32>::new());
    assert!(matches!(fault::<Vec<u32>>(&groups(101)), Malformed::Wire(_)));

    // A message within another has one less.
    let entry = |n: usize| {
        let mut inner = vec![0x0a, 1, 1, 0x12, 1, 1];
        inner.extend(groups(n));
        let mut bytes = vec![0x0a];
        bytes.extend((inner.len() as u64).encode_krpc());
        bytes.extend(inner);
        bytes
    };
    let map = HashMap::<u32, bool>::decode_krpc(&client, &entry(99)).unwrap();
    assert_eq!(map, HashMap::from([(1, true)]));
    assert!(matches!(fault::<HashMap<u32, bool>>(&entry(100)), Malformed::Wire(_)));
    // The other wire types do not go deeper.
    let mut flat = vec![0x0a, 15, 0x0a, 1, 1, 0x12, 1, 1];
    flat.extend([0x39, 1, 2, 3, 4, 5, 6, 7, 8]);
    assert!(HashMap::<u32, bool>::decode_krpc(&client, &flat).is_ok());
}

#[test]
fn maps_and_sets_come_back() {
    let map: HashMap<u32, String> =
        [(1, "one".to_string()), (2, "two".to_string())].into_iter().collect();
    round_trip(map);
    round_trip(HashMap::<String, Double>::from([("x".to_string(), double(0.5))]));
    round_trip(HashMap::<i64, bool>::new());
    round_trip(HashSet::from([3u64, 1, 2]));
    round_trip(HashSet::from(["a".to_string(), "b".to_string()]));
}

#[test]
fn one_entry_of_a_map() {
    let map = HashMap::from([(1u32, true)]);
    assert_eq!(map.encode_krpc(), vec![0x0a, 6, 0x0a, 1, 1, 0x12, 1, 1]);
    let set = HashSet::from([5u32]);
    assert_eq!(set.encode_krpc(), vec![0x0a, 1, 5]);
}

#[test]
fn the_last_entry_of_a_key_counts() {
    let client = test_client();
    let twice = vec![0x0a, 6, 0x0a, 1, 1, 0x12, 1, 10, 0x0a, 6, 0x0a, 1, 1, 0x12, 1, 20];
    let map = HashMap::<u32, u32>::decode_krpc(&client, &twice).unwrap();
    assert_eq!(map, HashMap::from([(1, 20)]));
    let set = HashSet::<u32>::decode_krpc(&client, &[0x0a, 1, 4, 0x0a, 1, 4]).unwrap();
    assert_eq!(set, HashSet::from([4]));
}

#[test]
fn a_bad_key_comes_before_a_bad_value() {
    // The key is an empty run, which is no varint; so is the value.
    let entry = vec![0x0a, 3, 0x0a, 1, 0x80];
    assert!(matches!(fault::<HashMap<u32, Float>>(&entry), Malformed::Wire(_)));
    let entry = vec![0x0a, 3, 0x0a, 1, 1];
    assert!(matches!(
        fault::<HashMap<u32, Float>>(&entry),
        Malformed::FloatWidth { expected: 4 }
    ));
    assert!(matches!(fault::<HashMap<u32, u32>>(&[0x0a]), Malformed::Wire(_)));
    assert!(matches!(fault::<HashSet<u32>>(&[0x0a, 0]), Malformed::Wire(_)));
}

#[test]
fn tuples_of_two_and_four() {
    round_trip((1u32, "b".to_string()));
    round_trip((1u32, -1i64, true, vec![double(2.0)]));
    assert_eq!((1u32, 2u32).encode_krpc(), vec![0x0a, 1, 1, 0x0a, 1, 2]);
    assert_eq!(
        (1u32, 2u32, 3u32, 4u32).encode_krpc(),
        vec![0x0a, 1, 1, 0x0a, 1, 2, 0x0a, 1, 3, 0x0a, 1, 4]
    );
}

#[test]
fn tuples_may_be_longer_but_not_shorter() {
    let client = test_client();
    let three = (1u32, 2u32, 3u32).encode_krpc();
    assert_eq!(<(u32, u32)>::decode_krpc(&client, &three).unwrap(), (1, 2));
    assert!(matches!(
        fault::<(u32, u32, u32, u32)>(&three),
        Malformed::TupleTooShort { index: 3 }
    ));
    assert!(matches!(
        fault::<(u32, u32)>(&[]),
        Malformed::TupleTooShort { index: 0 }
    ));
    let tuple = Tuple { items: vec![vec![1], vec![2, 3]] };
    assert_eq!(tuple_item(&tuple, 1).unwrap(), &[2, 3]);
    assert!(matches!(
        tuple_item(&tuple, 2),
        Err(Error::Decode(Malformed::TupleTooShort { index: 2 }))
    ));
}

#[test]
fn items_of_a_tuple_fail_in_order() {
    let bad = (float(1.0), "x".to_string()).encode_krpc();
    assert!(matches!(
        fault::<(Double, u64)>(&bad),
        Malformed::FloatWidth { expected: 8 }
    ));
}

#[test]
fn messages_are_plain() {
    let client = test_client();
    let stream = Stream { id: 300 };
    assert_eq!(stream.encode_krpc(), vec![0x08, 0xac, 0x02]);
    round_trip(stream);
    let call = call("KRPC", "GetStatus", vec![arg(0, &true)]);
    round_trip(call.clone());
    assert_eq!(
        ProcedureCall::decode_krpc(&client, &call.encode_krpc()).unwrap().procedure,
        "GetStatus"
    );
    <()>::decode_krpc(&client, &[0xff]).unwrap();
}

#[test]
fn calls_hold_their_arguments() {
    let made = call("SpaceCenter", "Launch", vec![arg(0, "VAB"), arg(1, &7u32)]);
    assert_eq!(made.service, "SpaceCenter");
    assert_eq!(made.procedure, "Launch");
    assert_eq!(made.arguments.len(), 2);
    assert_eq!(made.arguments[0].position, 0);
    assert_eq!(made.arguments[0].value, vec![3, b'V', b'A', b'B']);
    assert_eq!(made.arguments[1].position, 1);
    assert_eq!(made.arguments[1].value, vec![7]);
    assert_eq!(made.service_id, 0);
    assert_eq!(made.procedure_id, 0);
}

#[test]
fn handles_capture_their_connection() {
    let client = ClientRef::new("10.0.0.1".to_string(), vec![1, 2, 3]);
    let list = vec![17u64, 300].encode_krpc();
    let handles = Vec::<Expression>::decode_krpc(&client, &list).unwrap();
    assert_eq!(handles.len(), 2);
    assert_eq!(handles[1].id(), 300);
    assert_eq!(handles[1].client().address(), "10.0.0.1");
    assert_eq!(handles[0].encode_krpc(), vec![17]);
}

#[test]
fn entries_of_a_dictionary_come_in_order() {
    let client = test_client();
    // "b" => 1, "a" => 2, "b" => 3
    let bytes = vec![
        0x0a, 7, 0x0a, 2, 1, b'b', 0x12, 1, 1, // b
        0x0a, 7, 0x0a, 2, 1, b'a', 0x12, 1, 2, // a
        0x0a, 7, 0x0a, 2, 1, b'b', 0x12, 1, 3, // b again
    ];
    let pairs: Vec<(String, u32)> = decode_entries(&client, &bytes).unwrap();
    let expected = [("b", 1), ("a", 2), ("b", 3)];
    assert_eq!(pairs.len(), expected.len());
    for (got, want) in pairs.iter().zip(expected) {
        assert_eq!((got.0.as_str(), got.1), want);
    }
    let map = HashMap::<String, u32>::decode_krpc(&client, &bytes).unwrap();
    assert_eq!(map, HashMap::from([("a".to_string(), 2), ("b".to_string(), 3)]));
    assert!(matches!(
        decode_entries::<String, u32>(&client, &[0x0a, 2, 0x0a, 0]),
        Err(Error::Decode(Malformed::Wire(_)))
    ));
}

#[test]
fn errors_are_made_of_their_causes() {
    let io = Error::from(std::io::Error::from(std::io::ErrorKind::UnexpectedEof));
    assert!(matches!(io, Error::Io(e) if e.kind() == std::io::ErrorKind::UnexpectedEof));
    assert!(matches!(
        Error::from(Malformed::LengthPrefix),
        Error::Decode(Malformed::LengthPrefix)
    ));
}

fn idle() -> Status {
    decode_message(&[]).unwrap()
}

#[test]
fn a_status_comes_back() {
    let status = Status {
        version: "0.5".to_string(),
        bytes_read: 300,
        bytes_written: u64::MAX,
        bytes_read_rate: float(1.5),
        bytes_written_rate: float(-2.0),
        rpcs_executed: 1,
        rpc_rate: float(f32::NAN),
        one_rpc_per_update: true,
        max_time_per_update: 7,
        adaptive_rate_control: false,
        blocking_recv: true,
        recv_timeout: u32::MAX,
        time_per_rpc_update: float(0.25),
        poll_time_per_rpc_update: float(0.0),
        exec_time_per_rpc_update: float(f32::INFINITY),
        stream_rpcs: 2,
        stream_rpcs_executed: 3,
        stream_rpc_rate: float(4.0),
        time_per_stream_update: float(5.0),
    };
    round_trip(status);
    assert_eq!(idle().encode_krpc(), Vec::<u8>::new());
}

#[test]
fn numbers_of_a_status_stand_in_four_bytes() {
    let client = test_client();
    let status = Status { bytes_read_rate: float(1.5), one_rpc_per_update: true, ..idle() };
    assert_eq!(status.encode_krpc(), vec![0x25, 0, 0, 0xc0, 0x3f, 0x40, 1]);
    // Negative zero counts as zero where it is written, not where it is read.
    let negative = Status { rpc_rate: float(-0.0), ..idle() };
    assert_eq!(negative.encode_krpc(), Vec::<u8>::new());
    let read = Status::decode_krpc(&client, &[0x3d, 0, 0, 0, 0x80]).unwrap();
    assert_eq!(read, negative);

    assert!(matches!(fault::<Status>(&[0x25, 0, 0]), Malformed::Wire(_)));
    assert!(matches!(fault::<Status>(&[0x20, 0]), Malformed::WireType));
}

fn plain(code: i32) -> Type {
    Type { code, service: String::new(), name: String::new(), types: vec![] }
}

fn services() -> Services {
    let list = Type {
        code: 301,
        service: String::new(),
        name: String::new(),
        types: vec![Type {
            code: 100,
            service: "S".to_string(),
            name: "Vessel".to_string(),
            types: vec![],
        }],
    };
    let procedure = Procedure {
        name: "P".to_string(),
        parameters: vec![
            Parameter {
                name: "a".to_string(),
                parameter_type: Some(plain(8)),
                default_value: vec![1, 2],
            },
            Parameter { name: "b".to_string(), parameter_type: None, default_value: vec![] },
        ],
        return_type: Some(list),
        return_is_nullable: true,
        documentation: "D".to_string(),
        game_scenes: vec![1, 300, 0, -1],
    };
    let value = |name: &str, value: i32| EnumerationValue {
        name: name.to_string(),
        value,
        documentation: String::new(),
    };
    Services {
        services: vec![Service {
            name: "S".to_string(),
            procedures: vec![procedure],
            classes: vec![Class { name: "Vessel".to_string(), documentation: String::new() }],
            enumerations: vec![Enumeration {
                name: "E".to_string(),
                values: vec![value("X", 0), value("Y", -5)],
                documentation: "d".to_string(),
            }],
            exceptions: vec![Exception {
                name: "Bad".to_string(),
                documentation: "e".to_string(),
            }],
            documentation: "s".to_string(),
        }],
    }
}

#[test]
fn services_come_back() {
    round_trip(services());
    round_trip(Services { services: vec![] });
}

#[test]
fn repeated_numbers_are_packed() {
    let bare = Procedure {
        name: String::new(),
        parameters: vec![],
        return_type: None,
        return_is_nullable: false,
        documentation: String::new(),
        game_scenes: vec![1, 300],
    };
    assert_eq!(encode_message(&bare), vec![0x32, 3, 1, 0xac, 2]);
    // One by one they are read too.
    let single: Procedure = decode_message(&[0x30, 1, 0x30, 0xac, 2]).unwrap();
    assert_eq!(single, bare);
    assert!(matches!(decode_message::<Procedure>(&[0x32, 1, 0x80]), Err(Malformed::Wire(_))));
    assert!(matches!(
        decode_message::<Procedure>(&[0x35, 0, 0, 0, 0]),
        Err(Malformed::WireType)
    ));
}

#[test]
fn types_within_types_are_limited() {
    let nested = |n: usize| {
        let mut outer = plain(1);
        for _ in 0..n {
            outer = Type { types: vec![outer], ..plain(301) };
        }
        outer
    };
    let back: Type = decode_message(&encode_message(&nested(100))).unwrap();
    assert_eq!(back, nested(100));
    assert!(matches!(
        decode_message::<Type>(&encode_message(&nested(101))),
        Err(Malformed::TooDeep)
    ));
}
