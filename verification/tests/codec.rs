use nihility_rpc::error::NihilityRpcError;
use nihility_rpc::proto::execute::{
    AudioData, AudioEndiannessType, ExecuteData, ExecuteRequest, ExecuteResponse, ExecuteType,
};
use nihility_rpc::proto::wire::{decode_chunk, encode_chunk, AudioChunk};

#[test]
fn string_request_round_trip() {
    let original = ExecuteData::String("test".to_string());
    let request = ExecuteRequest::from(original.clone());
    assert_eq!(request.execute_type, 0);
    assert_eq!(request.payload, b"test".to_vec());
    let back = ExecuteData::try_from(request).expect("round trip must decode");
    assert_eq!(back, original);
}

#[test]
fn string_response_round_trip() {
    let original = ExecuteData::String("respuesta \u{00e9}\u{4e2d}".to_string());
    let response = ExecuteResponse::from(original.clone());
    assert_eq!(response.execute_type, 0);
    let back = ExecuteData::try_from_response(response).expect("round trip must decode");
    assert_eq!(back, original);
}

#[test]
fn utf8_invalid_byte_rejected() {
    let request = ExecuteRequest {
        execute_type: 0,
        payload: vec![0xFF],
    };
    let err = ExecuteData::try_from(request).expect_err("0xFF is not UTF-8");
    assert_eq!(err, NihilityRpcError::InvalidUtf8);
}

#[test]
fn utf8_hello_decodes() {
    let request = ExecuteRequest {
        execute_type: 0,
        payload: b"hello".to_vec(),
    };
    let back = ExecuteData::try_from(request).expect("ASCII is valid UTF-8");
    assert_eq!(back, ExecuteData::String("hello".to_string()));
}

#[test]
fn unknown_tag_rejected() {
    for tag in [2, 3, 17, -1, i32::MIN, i32::MAX] {
        let request = ExecuteRequest {
            execute_type: tag,
            payload: b"hello".to_vec(),
        };
        let err = ExecuteData::try_from(request).expect_err("tag outside the catalog");
        assert_eq!(err, NihilityRpcError::UnknownPayloadType);
    }
}

#[test]
fn audio_round_trip_bit_for_bit() {
    let samples: Vec<f32> = vec![0.0, 0.5, -0.5, 1.0];
    let original_audio = AudioData {
        sample_rate: 44100,
        sample_size: 16,
        channels: 2,
        sign: true,
        byte_order: AudioEndiannessType::LittleEndian,
        data: samples.iter().map(|s| s.to_bits()).collect(),
    };
    let request = ExecuteRequest::from(ExecuteData::Audio(original_audio.clone()));
    assert_eq!(request.execute_type, 1);
    let back = ExecuteData::try_from(request).expect("audio round trip must decode");
    match back {
        ExecuteData::Audio(audio) => {
            assert_eq!(audio.sample_rate, 44100);
            assert_eq!(audio.sample_size, 16);
            assert_eq!(audio.channels, 2);
            assert!(audio.sign);
            assert_eq!(audio.byte_order, AudioEndiannessType::LittleEndian);
            assert_eq!(audio.data, original_audio.data);
            let decoded: Vec<f32> = audio.data.iter().map(|b| f32::from_bits(*b)).collect();
            assert_eq!(decoded, samples);
        }
        ExecuteData::String(_) => panic!("audio tag must decode as audio"),
    }
}

#[test]
fn audio_big_endian_round_trip() {
    let original = ExecuteData::Audio(AudioData {
        sample_rate: 8000,
        sample_size: 8,
        channels: 1,
        sign: false,
        byte_order: AudioEndiannessType::BigEndian,
        data: vec![0xDEADBEEF, 0, u32::MAX],
    });
    let response = ExecuteResponse::from(original.clone());
    let back = ExecuteData::try_from_response(response).expect("round trip must decode");
    assert_eq!(back, original);
}

#[test]
fn audio_default_value() {
    let audio = AudioData::default();
    assert_eq!(audio.sample_rate, 32000);
    assert_eq!(audio.sample_size, 16);
    assert_eq!(audio.channels, 1);
    assert!(audio.sign);
    assert_eq!(audio.byte_order, AudioEndiannessType::LittleEndian);
    assert!(audio.data.is_empty());
}

#[test]
fn audio_exact_wire_bytes() {
    let request = ExecuteRequest::from(ExecuteData::Audio(AudioData {
        sample_rate: 1,
        sample_size: 2,
        channels: 3,
        sign: true,
        byte_order: AudioEndiannessType::LittleEndian,
        data: vec![],
    }));
    assert_eq!(
        request.payload,
        vec![0x08, 1, 0x10, 2, 0x18, 3, 0x20, 1, 0x28, 0, 0x32, 0]
    );
}

#[test]
fn audio_varint_and_sample_bytes() {
    let request = ExecuteRequest::from(ExecuteData::Audio(AudioData {
        sample_rate: 300,
        sample_size: 16,
        channels: 1,
        sign: false,
        byte_order: AudioEndiannessType::BigEndian,
        data: vec![0x01020304],
    }));
    assert_eq!(
        request.payload,
        vec![0x08, 0xAC, 0x02, 0x10, 16, 0x18, 1, 0x20, 0, 0x28, 1, 0x32, 1, 0x04, 0x03, 0x02,
            0x01]
    );
}

#[test]
fn malformed_audio_payload_rejected() {
    for payload in [
        vec![0xFF],
        vec![],
        vec![0x08],
        vec![0x08, 0x80],
        // non-canonical varint: trailing zero continuation group
        vec![0x08, 0x80, 0x00],
        // truncated after the sign field
        vec![0x08, 1, 0x10, 2, 0x18, 3, 0x20, 1],
        // sample region shorter than the declared count
        vec![0x08, 1, 0x10, 2, 0x18, 3, 0x20, 1, 0x28, 0, 0x32, 1, 0x00],
        // trailing garbage after a complete message
        vec![0x08, 1, 0x10, 2, 0x18, 3, 0x20, 1, 0x28, 0, 0x32, 0, 0x00],
    ] {
        let request = ExecuteRequest {
            execute_type: 1,
            payload,
        };
        let err = ExecuteData::try_from(request).expect_err("malformed audio payload");
        assert_eq!(err, NihilityRpcError::MalformedAudioPayload);
    }
}

#[test]
fn invalid_endianness_discriminant_rejected() {
    let chunk = AudioChunk {
        sample_rate: 48000,
        sample_size: 16,
        channels: 1,
        sign: true,
        byte_order: 7,
        data: vec![1, 2, 3],
    };
    let request = ExecuteRequest {
        execute_type: 1,
        payload: encode_chunk(&chunk),
    };
    let err = ExecuteData::try_from(request).expect_err("unrecognized endianness discriminant");
    assert_eq!(err, NihilityRpcError::InvalidDiscriminant);
}

#[test]
fn chunk_codec_round_trip() {
    let chunk = AudioChunk {
        sample_rate: u32::MAX,
        sample_size: 0,
        channels: 0,
        sign: false,
        byte_order: 1,
        data: vec![5, 0, u32::MAX, 0x80000000],
    };
    let decoded = decode_chunk(&encode_chunk(&chunk)).expect("encoded chunk must decode");
    assert_eq!(decoded, chunk);
}

#[test]
fn execute_type_tags() {
    assert_eq!(ExecuteType::String.tag(), 0);
    assert_eq!(ExecuteType::Audio.tag(), 1);
    assert_eq!(ExecuteType::from_tag(0), Some(ExecuteType::String));
    assert_eq!(ExecuteType::from_tag(1), Some(ExecuteType::Audio));
    assert_eq!(ExecuteType::from_tag(2), None);
    assert_eq!(ExecuteType::from_tag(-1), None);
}
