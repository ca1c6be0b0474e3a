use scope2000::codec::{
    capture_replay_request, cobs_decode, cobs_encode, crc32c, decode_raw, encode_frame, parse_ack,
    parse_block_batch, parse_capture_batch, parse_descriptors, parse_hello, put_u16, put_u32, read_u16, read_u32,
    CaptureBatch, CodecError, Frame, FrameDecoder, ENUM_MAX_NAME_LEN, MAX_PAYLOAD, MSG_DAQ_CONTROL, MSG_HELLO,
    MSG_STATUS_PUSH, WIRE_VERSION,
};
use scope2000::session::{
    require_ack, validate_device_info, AckError, CaptureAssembly, DeviceInfoError, EXPECTED_CONTRACT_VERSION,
};
use scope2000::source::{
    command_result_text, fault_code_text, fault_source, fault_status_text, fault_user_code, DeviceInfo, FaultSource,
    ScopeBlock, VarType,
};

fn descriptor_entry(name: &str, ty: VarType, kind: u16, addr: u32) -> Vec<u8> {
    assert!(!name.is_empty());
    assert!(name.len() <= ENUM_MAX_NAME_LEN);
    let mut entry = Vec::new();
    put_u32(&mut entry, addr);
    put_u16(&mut entry, ty.wire_value());
    put_u16(&mut entry, kind);
    put_u16(&mut entry, 1);
    entry.push(name.len() as u8);
    entry.push(0);
    entry.extend_from_slice(name.as_bytes());
    entry
}

#[test]
fn decoder_handles_split_and_joined_frames() {
    let first = encode_frame(MSG_HELLO, 1, &[]);
    let second = encode_frame(MSG_STATUS_PUSH, 2, &[]);
    let mut decoder = FrameDecoder::default();
    assert!(decoder.push(&first[..3]).is_empty());
    let mut tail = first[3..].to_vec();
    tail.extend_from_slice(&second);
    let frames = decoder.push(&tail);
    assert_eq!(frames.len(), 2);
    assert_eq!(frames[0].as_ref().expect("first").sequence, 1);
    assert_eq!(frames[1].as_ref().expect("second").sequence, 2);
}

#[test]
fn decoder_resynchronizes_after_oversized_garbage() {
    let mut decoder = FrameDecoder::default();
    let mut garbage = vec![0x55; MAX_PAYLOAD + 32];
    garbage.push(0);
    garbage.extend_from_slice(&encode_frame(MSG_STATUS_PUSH, 7, &[]));
    let frames = decoder.push(&garbage);
    assert_eq!(frames.len(), 1);
    assert_eq!(frames[0].as_ref().expect("resynchronized").sequence, 7);
}

#[test]
fn stream_and_capture_batches_parse_current_headers() {
    let mut stream_payload = vec![1, 0];
    stream_payload.extend_from_slice(&7_u16.to_le_bytes());
    stream_payload.extend_from_slice(&5_u16.to_le_bytes());
    stream_payload.extend_from_slice(&0_u16.to_le_bytes());
    stream_payload.extend_from_slice(&1200_u32.to_le_bytes());
    stream_payload.extend_from_slice(&9_u16.to_le_bytes());
    stream_payload.extend_from_slice(&0_u16.to_le_bytes());
    stream_payload.extend_from_slice(&1_u16.to_le_bytes());
    stream_payload.extend_from_slice(&1_u16.to_le_bytes());
    stream_payload.extend_from_slice(&2_u16.to_le_bytes());
    stream_payload.extend_from_slice(&4_u16.to_le_bytes());
    stream_payload.extend_from_slice(&0.5_f32.to_le_bytes());

    let stream = parse_block_batch(&stream_payload).expect("parse stream batch");

    assert_eq!(stream.overrun_count, 7);
    assert_eq!(stream.blocks.len(), 1);
    assert_eq!(stream.blocks[0].start_tick, 1200);

    let mut capture_payload = Vec::new();
    capture_payload.extend_from_slice(&22_u16.to_le_bytes());
    capture_payload.extend_from_slice(&4_u16.to_le_bytes());
    capture_payload.extend_from_slice(&2_u16.to_le_bytes());
    capture_payload.extend_from_slice(&[1, 1]);
    capture_payload.extend_from_slice(&0_u16.to_le_bytes());
    capture_payload.extend_from_slice(&0_u16.to_le_bytes());
    capture_payload.extend_from_slice(&1234_u32.to_le_bytes());
    capture_payload.extend_from_slice(&1200_u32.to_le_bytes());
    capture_payload.extend_from_slice(&9_u16.to_le_bytes());
    capture_payload.extend_from_slice(&0_u16.to_le_bytes());
    capture_payload.extend_from_slice(&1_u16.to_le_bytes());
    capture_payload.extend_from_slice(&1_u16.to_le_bytes());
    capture_payload.extend_from_slice(&2_u16.to_le_bytes());
    capture_payload.extend_from_slice(&4_u16.to_le_bytes());
    capture_payload.extend_from_slice(&0.5_f32.to_le_bytes());

    let capture = parse_capture_batch(&capture_payload).expect("parse capture batch");

    assert_eq!(capture.capture_id, 22);
    assert_eq!(capture.total_blocks, 4);
    assert_eq!(capture.first_block_index, 2);
    assert!(capture.is_replay);
    assert_eq!(capture.trigger_tick, 1234);
    assert_eq!(capture.blocks.len(), 1);
    assert_eq!(capture.blocks[0].start_tick, 1200);
}

#[test]
fn hello_parser_rejects_missing_scope_resource_tail() {
    let payload = vec![0_u8; 72];

    assert!(parse_hello(&payload).is_err());
}

#[test]
fn descriptors_parse_baked_paths_and_kind_flags() {
    let mut payload = Vec::new();
    put_u16(&mut payload, 2);
    put_u16(&mut payload, 0);
    payload.extend_from_slice(&[2, 0]);
    payload.extend(descriptor_entry("pi.Kp", VarType::F32, 0x0007, 0xB002));
    payload.extend(descriptor_entry("trace.err[0]", VarType::F32, 0x0002, 0xB02A));

    let (total, start, descriptors) = parse_descriptors(&payload).expect("parse descriptors");

    assert_eq!((total, start), (2, 0));
    assert_eq!(descriptors[0].name, "pi.Kp");
    assert!(descriptors[0].is_parameter());
    assert!(descriptors[0].is_scope());
    assert!(descriptors[0].is_user());
    assert_eq!(descriptors[1].name, "trace.err[0]");
    assert!(!descriptors[1].is_parameter());
    assert!(descriptors[1].is_scope());
    assert!(!descriptors[1].is_user());
}

#[test]
fn capture_replay_request_lays_out_little_endian_fields() {
    assert_eq!(capture_replay_request(22, 2, 4), vec![22, 0, 2, 0, 4, 0, 0, 0]);
}

#[test]
fn cobs_round_trips_payloads_with_zeros() {
    for data in [vec![], vec![0], vec![1, 2, 3], vec![0, 0, 5, 0], (0..=255u8).cycle().take(600).collect::<Vec<_>>()] {
        let encoded = cobs_encode(&data);
        assert!(!encoded.contains(&0));
        assert_eq!(cobs_decode(&encoded).expect("decodes"), data);
    }
}

#[test]
fn crc32c_matches_the_castagnoli_check_value() {
    assert_eq!(crc32c(b"123456789"), 0xE306_9283);
    assert_eq!(crc32c(&[]), 0);
}

#[test]
fn frames_round_trip_through_the_wire_encoding() {
    let payload = vec![0, 1, 2, 0, 0xFF];
    let wire = encode_frame(0x20, 0x1234, &payload);
    assert_eq!(wire.last(), Some(&0));
    let mut decoder = FrameDecoder::new();
    let frames = decoder.push(&wire);
    assert_eq!(frames.len(), 1);
    assert_eq!(frames[0].as_ref().expect("frame"), &Frame { message_type: 0x20, sequence: 0x1234, payload });
}

#[test]
fn decode_raw_rejects_a_corrupted_crc() {
    let wire = encode_frame(0x01, 5, &[9, 9]);
    let raw = cobs_decode(&wire[..wire.len() - 1]).expect("cobs");
    assert!(decode_raw(&raw).is_ok());
    let mut broken = raw.clone();
    let last = broken.len() - 1;
    broken[last] ^= 0x01;
    assert!(decode_raw(&broken).is_err());
}

#[test]
fn read_helpers_report_truncated_input() {
    let mut data = Vec::new();
    put_u16(&mut data, 0xBEEF);
    put_u32(&mut data, 0x0102_0304);
    assert_eq!(read_u16(&data, 0).expect("u16"), 0xBEEF);
    assert_eq!(read_u32(&data, 2).expect("u32"), 0x0102_0304);
    assert_eq!(read_u32(&data, 3), Err(CodecError::MalformedPayload("missing u32")));
}

#[test]
fn parse_ack_reads_status_type_and_data() {
    let payload = vec![0, MSG_DAQ_CONTROL, 0, 0, 7, 0, 0, 0];
    let ack = parse_ack(&payload).expect("ack");
    assert_eq!(ack.status, 0);
    assert_eq!(ack.echoed_type, MSG_DAQ_CONTROL);
    assert_eq!(ack.data, 7);
    assert!(parse_ack(&payload[..7]).is_err());
}

fn device_info(build_hash: u32, descriptor_count: u16, capabilities: u32) -> DeviceInfo {
    DeviceInfo {
        protocol_version: u16::from(WIRE_VERSION),
        contract_version: EXPECTED_CONTRACT_VERSION,
        build_hash,
        descriptor_count,
        firmware_name: "viewer2000".to_owned(),
        tick_hz: 20_000,
        capabilities,
        project_name: "phase4-demo".to_owned(),
        build_time_utc: 1_781_913_600,
        mcu_model: 1,
        scope_max_ch: 16,
        scope_block_ticks: 10,
        scope_ring_words: 0x7000,
    }
}

fn hello_payload(info: &DeviceInfo) -> Vec<u8> {
    let mut payload = Vec::new();
    payload.extend_from_slice(&info.protocol_version.to_le_bytes());
    payload.extend_from_slice(&info.contract_version.to_le_bytes());
    payload.extend_from_slice(&info.build_hash.to_le_bytes());
    payload.extend_from_slice(&info.descriptor_count.to_le_bytes());
    payload.extend_from_slice(&0_u16.to_le_bytes());
    let mut name = [0_u8; 16];
    let name_len = info.firmware_name.len().min(name.len());
    name[..name_len].copy_from_slice(&info.firmware_name.as_bytes()[..name_len]);
    payload.extend_from_slice(&name);
    payload.extend_from_slice(&info.tick_hz.to_le_bytes());
    payload.extend_from_slice(&info.capabilities.to_le_bytes());
    let mut project = [0_u8; 32];
    let project_len = info.project_name.len().min(project.len());
    project[..project_len].copy_from_slice(&info.project_name.as_bytes()[..project_len]);
    payload.extend_from_slice(&project);
    payload.extend_from_slice(&info.build_time_utc.to_le_bytes());
    payload.extend_from_slice(&info.mcu_model.to_le_bytes());
    payload.extend_from_slice(&info.scope_max_ch.to_le_bytes());
    payload.extend_from_slice(&info.scope_block_ticks.to_le_bytes());
    payload.extend_from_slice(&0_u16.to_le_bytes());
    payload.extend_from_slice(&info.scope_ring_words.to_le_bytes());
    payload
}

#[test]
fn current_contract_requires_a_valid_project_identity() {
    let mut info = device_info(1, 0, 0);
    info.project_name.clear();
    assert!(validate_device_info(&info).unwrap_err().message().contains("use \"untitled\""));

    info.project_name = "untitled".to_owned();
    assert!(validate_device_info(&info).is_ok());

    info.project_name = "电机".to_owned();
    assert!(validate_device_info(&info).unwrap_err().message().contains("printable ASCII"));

    info.project_name = " demo ".to_owned();
    assert!(validate_device_info(&info).unwrap_err().message().contains("whitespace"));
}

#[test]
fn incompatible_contract_is_rejected() {
    let mut source = device_info(0, 0, 0);
    source.contract_version = 9;
    let payload = hello_payload(&source);
    let info = parse_hello(&payload).expect("parse old contract");
    assert!(validate_device_info(&info).is_err());
}

#[test]
fn hello_round_trips_the_current_identity() {
    let source = device_info(0x1234_5678, 12, 0x3FF);
    let info = parse_hello(&hello_payload(&source)).expect("parse hello");
    assert_eq!(info.firmware_name, "viewer2000");
    assert_eq!(info.project_name, "phase4-demo");
    assert_eq!(info.build_hash, 0x1234_5678);
    assert_eq!(info.scope_ring_words, 0x7000);
    assert!(validate_device_info(&info).is_ok());
    let mut zero_channels = info.clone();
    zero_channels.scope_max_ch = 0;
    assert!(matches!(validate_device_info(&zero_channels), Err(DeviceInfoError::ZeroScopeChannels)));
}

fn nak_payload(echoed_type: u8, status: u8) -> Vec<u8> {
    let mut payload = vec![status, echoed_type, 0, 0];
    payload.extend_from_slice(&0_u32.to_le_bytes());
    payload
}

#[test]
fn require_ack_rejection_is_downcastable_to_device_nak() {
    let frame = Frame { message_type: MSG_DAQ_CONTROL | 0x80, sequence: 1, payload: nak_payload(MSG_DAQ_CONTROL, 2) };

    let error = require_ack(&frame, MSG_DAQ_CONTROL).expect_err("NAK");

    assert!(matches!(error, AckError::DeviceNak { .. }));
    assert_eq!(error.message(), "device rejected message 0x20: status=2 (busy)");
}

fn scope_block(block_seq: u16, bind_seq: u16) -> ScopeBlock {
    ScopeBlock {
        start_tick: u32::from(block_seq) * 10,
        block_seq,
        flags: 0,
        sample_count: 1,
        channel_count: 1,
        bind_seq,
        stride_octets: 4,
        samples: (block_seq as f32).to_le_bytes().to_vec(),
    }
}

fn capture_batch(
    capture_id: u16,
    total_blocks: u16,
    first_block_index: u16,
    blocks: Vec<ScopeBlock>,
    is_replay: bool,
    remaining_hint: u16,
) -> CaptureBatch {
    CaptureBatch { capture_id, total_blocks, first_block_index, is_replay, remaining_hint, trigger_tick: 1234, blocks }
}

#[test]
fn capture_assembly_completes_out_of_order_and_ignores_duplicates() {
    let mut capture = CaptureAssembly::new(22, 3, 1234, Some(3), 0);

    assert!(capture.insert_batch(capture_batch(22, 3, 2, vec![scope_block(12, 3)], false, 0), 1).expect("insert last"));
    assert!(capture.insert_batch(capture_batch(22, 3, 0, vec![scope_block(10, 3)], false, 1), 2).expect("insert first"));
    assert_eq!(capture.first_missing_range(), Some((1, 1)));
    assert!(!capture
        .insert_batch(capture_batch(22, 3, 2, vec![scope_block(12, 3)], true, 0), 3)
        .expect("duplicate replay"));
    assert!(capture.insert_batch(capture_batch(22, 3, 1, vec![scope_block(11, 3)], true, 0), 4).expect("insert replay"));

    assert!(capture.is_complete());
    let blocks = capture.finish();
    assert_eq!(blocks.iter().map(|block| block.block_seq).collect::<Vec<_>>(), vec![10, 11, 12]);
}

#[test]
fn capture_assembly_accepts_wrapped_block_sequence() {
    let mut capture = CaptureAssembly::new(22, 4, 1234, Some(3), 0);

    assert!(capture
        .insert_batch(
            capture_batch(
                22,
                4,
                0,
                vec![scope_block(0xFFFE, 3), scope_block(0xFFFF, 3), scope_block(0, 3), scope_block(1, 3)],
                false,
                0,
            ),
            1,
        )
        .expect("insert wrapped block sequence"));

    assert!(capture.is_complete());
    let blocks = capture.finish();
    assert_eq!(blocks.iter().map(|block| block.block_seq).collect::<Vec<_>>(), vec![0xFFFE, 0xFFFF, 0, 1]);
}

#[test]
fn capture_assembly_rejects_a_foreign_binding() {
    let mut capture = CaptureAssembly::new(22, 2, 1234, Some(3), 0);
    let error = capture
        .insert_batch(capture_batch(22, 2, 0, vec![scope_block(1, 4)], false, 0), 1)
        .expect_err("foreign bind sequence");
    assert_eq!(error.message(), "capture batch bind sequence mismatch: expected 3, received 4");
    assert!(capture.insert_batch(capture_batch(22, 2, 1, vec![scope_block(1, 3), scope_block(2, 3)], false, 0), 2).is_err());
    assert!(!capture.is_complete());
}

#[test]
fn fault_code_text_names_known_codes_and_preserves_unknowns() {
    assert_eq!(fault_code_text(0), "NONE");
    assert_eq!(fault_code_text(1), "TZ1_EXT");
    assert_eq!(fault_code_text(2), "OVERCURRENT");
    assert_eq!(fault_code_text(3), "OVERVOLTAGE");
    assert_eq!(fault_code_text(4), "OVERTEMP");
    assert_eq!(fault_code_text(5), "STACK_GUARD");
    assert_eq!(fault_code_text(6), "WD_RESET");
    assert_eq!(fault_code_text(7), "ITRAP");
    assert_eq!(fault_code_text(99), "FAULT_99");
    assert_eq!(fault_code_text(256), "USER_0");
    assert_eq!(fault_code_text(257), "Over Speed");
    assert_eq!(fault_code_text(u16::MAX), "USER_65279");
}

#[test]
fn fault_source_distinguishes_system_and_user_ranges() {
    assert_eq!(fault_source(0), FaultSource::NoFault);
    assert_eq!(fault_source(1), FaultSource::System);
    assert_eq!(fault_source(255), FaultSource::System);
    assert_eq!(fault_source(256), FaultSource::User);
    assert_eq!(fault_source(u16::MAX), FaultSource::User);
    assert_eq!(fault_user_code(255), None);
    assert_eq!(fault_user_code(256), Some(0));
    assert_eq!(fault_user_code(u16::MAX), Some(65279));
}

#[test]
fn fault_status_text_includes_source() {
    assert_eq!(fault_status_text(0), "No fault (0)");
    assert_eq!(fault_status_text(2), "System fault: OVERCURRENT (2)");
    assert_eq!(fault_status_text(257), "User fault: Over Speed (257)");
}

#[test]
fn command_result_text_names_known_results_and_preserves_unknowns() {
    assert_eq!(command_result_text(0), "OK");
    assert_eq!(command_result_text(1), "BAD_CMD");
    assert_eq!(command_result_text(2), "BAD_STATE");
    assert_eq!(command_result_text(3), "NOT_READY");
    assert_eq!(command_result_text(4), "START_FAILED");
    assert_eq!(command_result_text(5), "CAL_FAILED");
    assert_eq!(command_result_text(99), "CMDR_99");
}

#[test]
fn daq_control_encodes_fixed_hysteresis_field() {
    let payload = scope2000::codec::daq_control_request(&scope2000::codec::ScopeConfig {
        mode: scope2000::source::ScopeMode::CaptureArmed,
        trigger_slot: 1,
        trigger_level_bits: 2.5_f32.to_bits(),
        trigger_hysteresis_bits: 0.05_f32.to_bits(),
        trigger_edge: scope2000::source::TriggerEdge::Rise,
        pre_trigger_percent: 30,
        prescaler: 1,
        record_points: 1_000,
        ack_capture_id: scope2000::source::NO_CAPTURE_ACK,
        flags: 0,
    });

    assert_eq!(payload.len(), 24);
    assert_eq!(read_u32(&payload, 8).expect("hysteresis bits"), 0.05_f32.to_bits());
    assert_eq!(read_u16(&payload, 18).expect("record points"), 1_000);
    assert_eq!(read_u16(&payload, 20).expect("ack capture id"), 0xFFFF);

    assert_eq!(capture_replay_request(22, 2, 4), vec![22, 0, 2, 0, 4, 0, 0, 0]);
}

#[test]
fn decoder_output_does_not_depend_on_the_split() {
    let mut stream = encode_frame(MSG_HELLO, 1, &[1, 2, 3]);
    stream.extend_from_slice(&encode_frame(MSG_STATUS_PUSH, 2, &[0, 0, 9]));
    let whole: Vec<u16> = FrameDecoder::default()
        .push(&stream)
        .into_iter()
        .map(|f| f.expect("frame").sequence)
        .collect();
    assert_eq!(whole, vec![1, 2]);
    for cut in 0..=stream.len() {
        let mut decoder = FrameDecoder::default();
        let mut split: Vec<u16> = decoder.push(&stream[..cut]).into_iter().map(|f| f.expect("frame").sequence).collect();
        split.extend(decoder.push(&stream[cut..]).into_iter().map(|f| f.expect("frame").sequence));
        assert_eq!(split, whole, "split at {cut}");
    }
}

#[test]
fn white_space_is_the_unicode_property() {
    for code in 0..=0x10FFFFu32 {
        if let Some(c) = char::from_u32(code) {
            assert_eq!(scope2000::session::is_whitespace(c), c.is_whitespace(), "U+{code:04X}");
        }
    }
}
