use scope2000::acquisition::stop_config;
use scope2000::codec::{ScopeConfig, MSG_CAL_COMMIT, MSG_CAL_WRITE, MSG_DAQ_BIND, MSG_DAQ_CONTROL};
use scope2000::link::{
    catalog_request, malformed_frame_text, retry_text, stale_catalog_text, system_command_accepted, CatalogError,
    Enumeration, EnumerationFailure,
};
use scope2000::session::AckError;
use scope2000::source::{CatalogCommand, ParamWrite, SystemCommand, TriggerEdge, ValueRead, VarRef, NO_CAPTURE_ACK};
use scope2000::codec::{
    capture_replay_request, crc32c, cobs_encode, decode_raw, encode_frame, parse_ack, parse_capture_batch,
    parse_descriptors, parse_hello, CaptureBatch, CodecError, Frame, FrameDecoder, MSG_CAL_READ,
    MSG_CAPTURE_BATCH_PUSH, MSG_CAPTURE_REPLAY, MSG_ENUMERATE, MSG_HELLO, MSG_SCOPE_BLOCK_PUSH, MSG_STATUS_PUSH,
    MSG_SYSTEM_COMMAND, VERSION_MAGIC,
};
use scope2000::link::{
    cal_read_rejection, check_confirmed_identity, check_descriptor_page, check_enumerated_count, is_response,
    request_failure, EnumerationError, LinkError, LinkState, RequestFailure, ENUM_PAGE_SIZE, REQUEST_ATTEMPTS,
};
use scope2000::session::{require_ack, CaptureAssembly, CAPTURE_REPLAY_IDLE_DELAY_MS};
use scope2000::source::{
    DeviceInfo, DeviceStatus, ScopeBlock, ScopeMode, SourceEvent, SystemState, VarType, CAP_ENUM,
};

fn device_info(build_hash: u32, descriptor_count: u16, capabilities: u32) -> DeviceInfo {
    DeviceInfo {
        protocol_version: 10,
        contract_version: 14,
        build_hash,
        descriptor_count,
        firmware_name: "test".to_owned(),
        tick_hz: 10_000,
        capabilities,
        project_name: "demo".to_owned(),
        build_time_utc: 0,
        mcu_model: 1,
        scope_max_ch: 4,
        scope_block_ticks: 16,
        scope_ring_words: 1024,
    }
}

fn connected(build_hash: u32) -> LinkState {
    let mut link = LinkState::new();
    link.info = device_info(build_hash, 0, 0);
    link
}

fn scope_block(block_seq: u16, bind_seq: u16) -> ScopeBlock {
    ScopeBlock {
        start_tick: u32::from(block_seq) * 10,
        block_seq,
        flags: 0,
        sample_count: 1,
        channel_count: 1,
        bind_seq,
        stride_octets: 4,
        samples: (block_seq as f32).to_le_bytes().to_vec(),
    }
}

fn capture_batch(capture_id: u16, total_blocks: u16, first_block_index: u16, blocks: Vec<ScopeBlock>, is_replay: bool, remaining_hint: u16) -> CaptureBatch {
    CaptureBatch { capture_id, total_blocks, first_block_index, is_replay, remaining_hint, trigger_tick: 1234, blocks }
}

fn frozen_status(capture_id: u16, total_blocks: u16) -> DeviceStatus {
    DeviceStatus {
        system_state: SystemState::Running,
        fault_code: 0,
        status_flags: 0,
        tick: 0,
        cpu1_heartbeat: 0,
        cpu2_heartbeat: 0,
        applied_seq: 0,
        calibration_result: 0,
        calibration_fail_index: 0,
        build_hash: 0,
        scope_mode: ScopeMode::CaptureFrozen,
        scope_flags: 0,
        command_ack_seq: None,
        command_result: None,
        performance: None,
        scope_state_seq: capture_id,
        scope_frozen_count: total_blocks,
        scope_trigger_tick: 1234,
        scope_bind_seq: 3,
    }
}

fn status_payload(build_hash: u32) -> Vec<u8> {
    let mut payload = vec![0_u8; 96];
    payload[..2].copy_from_slice(&1_u16.to_le_bytes());
    payload[26..30].copy_from_slice(&build_hash.to_le_bytes());
    payload
}

fn ack_payload(echoed_type: u8, data: u32) -> Vec<u8> {
    let mut payload = vec![0_u8, echoed_type, 0, 0];
    payload.extend_from_slice(&data.to_le_bytes());
    payload
}

fn nak_payload(echoed_type: u8, status: u8) -> Vec<u8> {
    let mut payload = ack_payload(echoed_type, 0);
    payload[0] = status;
    payload
}

fn enum_payload(total: u16, start: u16, count: u8) -> Vec<u8> {
    let mut payload = Vec::new();
    payload.extend_from_slice(&total.to_le_bytes());
    payload.extend_from_slice(&start.to_le_bytes());
    payload.extend_from_slice(&[count, 0]);
    for index in start..start + u16::from(count) {
        let name = format!("var{index:03}");
        payload.extend_from_slice(&(0xB000_u32 + u32::from(index) * 2).to_le_bytes());
        payload.extend_from_slice(&VarType::F32.wire_value().to_le_bytes());
        payload.extend_from_slice(&0x0003_u16.to_le_bytes());
        payload.extend_from_slice(&1_u16.to_le_bytes());
        payload.push(name.len() as u8);
        payload.push(0);
        payload.extend_from_slice(name.as_bytes());
    }
    payload
}

fn hello_payload(info: &DeviceInfo) -> Vec<u8> {
    let mut payload = Vec::new();
    payload.extend_from_slice(&info.protocol_version.to_le_bytes());
    payload.extend_from_slice(&info.contract_version.to_le_bytes());
    payload.extend_from_slice(&info.build_hash.to_le_bytes());
    payload.extend_from_slice(&info.descriptor_count.to_le_bytes());
    payload.extend_from_slice(&0_u16.to_le_bytes());
    let mut name = [0_u8; 16];
    let name_len = info.firmware_name.len().min(name.len());
    name[..name_len].copy_from_slice(&info.firmware_name.as_bytes()[..name_len]);
    payload.extend_from_slice(&name);
    payload.extend_from_slice(&info.tick_hz.to_le_bytes());
    payload.extend_from_slice(&info.capabilities.to_le_bytes());
    let mut project = [0_u8; 32];
    let project_len = info.project_name.len().min(project.len());
    project[..project_len].copy_from_slice(&info.project_name.as_bytes()[..project_len]);
    payload.extend_from_slice(&project);
    payload.extend_from_slice(&info.build_time_utc.to_le_bytes());
    payload.extend_from_slice(&info.mcu_model.to_le_bytes());
    payload.extend_from_slice(&info.scope_max_ch.to_le_bytes());
    payload.extend_from_slice(&info.scope_block_ticks.to_le_bytes());
    payload.extend_from_slice(&0_u16.to_le_bytes());
    payload.extend_from_slice(&info.scope_ring_words.to_le_bytes());
    payload
}

fn capture_push_payload(capture_id: u16, total_blocks: u16, first_block_index: u16, block: &ScopeBlock, is_replay: bool, remaining_hint: u16) -> Vec<u8> {
    let mut payload = Vec::new();
    payload.extend_from_slice(&capture_id.to_le_bytes());
    payload.extend_from_slice(&total_blocks.to_le_bytes());
    payload.extend_from_slice(&first_block_index.to_le_bytes());
    payload.push(1);
    payload.push(if is_replay { 1 } else { 0 });
    payload.extend_from_slice(&remaining_hint.to_le_bytes());
    payload.extend_from_slice(&0_u16.to_le_bytes());
    payload.extend_from_slice(&1234_u32.to_le_bytes());
    payload.extend_from_slice(&block.start_tick.to_le_bytes());
    payload.extend_from_slice(&block.block_seq.to_le_bytes());
    payload.extend_from_slice(&block.flags.to_le_bytes());
    payload.extend_from_slice(&block.sample_count.to_le_bytes());
    payload.extend_from_slice(&block.channel_count.to_le_bytes());
    payload.extend_from_slice(&block.bind_seq.to_le_bytes());
    payload.extend_from_slice(&block.stride_octets.to_le_bytes());
    payload.extend_from_slice(&block.samples);
    payload
}

fn block_push_payload(overruns: u16, blocks: &[ScopeBlock]) -> Vec<u8> {
    let mut payload = Vec::new();
    payload.push(blocks.len() as u8);
    payload.push(0);
    payload.extend_from_slice(&overruns.to_le_bytes());
    payload.extend_from_slice(&0_u16.to_le_bytes());
    payload.extend_from_slice(&0_u16.to_le_bytes());
    for block in blocks {
        payload.extend_from_slice(&block.start_tick.to_le_bytes());
        payload.extend_from_slice(&block.block_seq.to_le_bytes());
        payload.extend_from_slice(&block.flags.to_le_bytes());
        payload.extend_from_slice(&block.sample_count.to_le_bytes());
        payload.extend_from_slice(&block.channel_count.to_le_bytes());
        payload.extend_from_slice(&block.bind_seq.to_le_bytes());
        payload.extend_from_slice(&block.stride_octets.to_le_bytes());
        payload.extend_from_slice(&block.samples);
    }
    payload
}

fn encode_frame_with_magic(version_magic: u8, message_type: u8, sequence: u16, payload: &[u8]) -> Vec<u8> {
    let mut raw = Vec::with_capacity(11 + payload.len());
    raw.push(version_magic);
    raw.push(message_type);
    raw.push(0);
    raw.extend_from_slice(&sequence.to_le_bytes());
    raw.extend_from_slice(&(payload.len() as u16).to_le_bytes());
    raw.extend_from_slice(payload);
    raw.extend_from_slice(&crc32c(&raw).to_le_bytes());
    let mut wire = cobs_encode(&raw);
    wire.push(0);
    wire
}

fn decode_one(wire: &[u8]) -> Frame {
    let mut decoder = FrameDecoder::new();
    let mut frames = decoder.push(wire);
    assert_eq!(frames.len(), 1);
    frames.remove(0).expect("frame decodes")
}

#[test]
fn missing_first_capture_batch_recovers_from_status_metadata() {
    let mut link = connected(0);
    link.scope_active = true;

    link.update_capture_from_status(&frozen_status(22, 4), 0);

    let capture = link.capture.as_ref().expect("capture from status");
    assert_eq!(capture.capture_id, 22);
    assert_eq!(capture.total_blocks, 4);
    assert_eq!(capture.first_missing_range(), Some((0, 4)));

    link.capture = None;
    link.completed_capture_id = Some(22);
    link.update_capture_from_status(&frozen_status(22, 4), 0);
    assert!(link.capture.is_none());
}

#[test]
fn stale_frozen_status_after_scope_off_is_ignored() {
    let mut link = connected(0);
    assert!(!link.scope_active);

    link.update_capture_from_status(&frozen_status(22, 4), 0);
    assert!(link.capture.is_none());

    let (events, result) = link.handle_capture_batch(capture_batch(22, 4, 0, vec![scope_block(10, 3)], false, 3), 0);
    assert!(result.is_ok());
    assert!(events.is_empty());
    assert!(link.capture.is_none());
}

#[test]
fn capture_replay_nak_abandons_capture_without_error() {
    let mut link = connected(0);
    link.scope_active = true;
    link.capture = Some(CaptureAssembly::new(22, 2, 1234, Some(3), 0));

    let request = link.capture_replay_request(CAPTURE_REPLAY_IDLE_DELAY_MS).expect("stalled capture asks for a replay");
    assert_eq!(request, (22, 0, 2));
    let payload = capture_replay_request(request.0, request.1, request.2);
    assert_eq!(payload.len(), 8);

    let nak = decode_one(&encode_frame(MSG_CAPTURE_REPLAY | 0x80, 1, &nak_payload(MSG_CAPTURE_REPLAY, 3)));
    assert!(require_ack(&nak, MSG_CAPTURE_REPLAY).is_err());
    link.abandon_capture(request.0);

    assert!(link.capture.is_none());
    assert_eq!(link.completed_capture_id, Some(22));
    link.update_capture_from_status(&frozen_status(22, 2), 100);
    assert!(link.capture.is_none());
}

#[test]
fn replay_waits_for_the_idle_delay() {
    let mut link = connected(0);
    link.scope_active = true;
    link.capture = Some(CaptureAssembly::new(22, 2, 1234, Some(3), 100));
    assert_eq!(link.capture_replay_request(100 + CAPTURE_REPLAY_IDLE_DELAY_MS - 1), None);
    assert_eq!(link.capture_replay_request(100 + CAPTURE_REPLAY_IDLE_DELAY_MS), Some((22, 0, 2)));
    assert_eq!(LinkState::new().capture_replay_request(1_000), None);
}

#[test]
fn request_drains_push_frames_after_matching_response() {
    let ack = encode_frame(MSG_CAPTURE_REPLAY | 0x80, 1, &ack_payload(MSG_CAPTURE_REPLAY, 22));
    let push = encode_frame(MSG_CAPTURE_BATCH_PUSH, 7, &capture_push_payload(22, 1, 0, &scope_block(99, 3), true, 0));
    let mut read = ack;
    read.extend_from_slice(&push);
    let mut decoder = FrameDecoder::new();
    let frames: Vec<Frame> = decoder.push(&read).into_iter().map(|f| f.expect("frame")).collect();
    assert_eq!(frames.len(), 2);

    let mut link = connected(0);
    link.scope_active = true;
    link.capture = Some(CaptureAssembly::new(22, 1, 1234, Some(3), 0));

    assert!(is_response(&frames[0], 1, MSG_CAPTURE_REPLAY));
    let ack = require_ack(&frames[0], MSG_CAPTURE_REPLAY).expect("ACK payload");
    assert_eq!(ack.data, 22);

    assert!(!is_response(&frames[1], 1, MSG_CAPTURE_REPLAY));
    let (events, result) = link.handle_frame(frames[1].clone(), 0);
    assert!(result.is_ok());
    assert!(link.capture.is_none());
    let mut saw_capture = false;
    for event in events {
        if let SourceEvent::CaptureFrame { capture_id, blocks, .. } = event {
            assert_eq!(capture_id, 22);
            assert_eq!(blocks.len(), 1);
            assert_eq!(blocks[0].block_seq, 99);
            saw_capture = true;
        }
    }
    assert!(saw_capture);
}

#[test]
fn capture_batches_complete_in_any_order() {
    let mut link = connected(0);
    link.scope_active = true;
    let (events, result) = link.handle_capture_batch(capture_batch(5, 2, 1, vec![scope_block(11, 3)], false, 1), 0);
    assert!(result.is_ok());
    assert!(events.is_empty());
    assert_eq!(link.capture.as_ref().map(|c| c.capture_id), Some(5));

    let (events, result) = link.handle_capture_batch(capture_batch(5, 2, 0, vec![scope_block(10, 3)], true, 0), 1);
    assert!(result.is_ok());
    assert_eq!(events.len(), 2);
    assert!(matches!(&events[0], SourceEvent::Log(m) if m == "capture replay filled missing block(s)"));
    match &events[1] {
        SourceEvent::CaptureFrame { capture_id, trigger_tick, blocks } => {
            assert_eq!(*capture_id, 5);
            assert_eq!(*trigger_tick, 1234);
            assert_eq!(blocks.iter().map(|b| b.block_seq).collect::<Vec<_>>(), vec![10, 11]);
        }
        other => panic!("expected a capture frame, got {other:?}"),
    }
    assert_eq!(link.completed_capture_id, Some(5));

    let (events, result) = link.handle_capture_batch(capture_batch(5, 2, 0, vec![scope_block(10, 3)], true, 0), 2);
    assert!(result.is_ok());
    assert!(events.is_empty());
    assert!(link.capture.is_none());
}

#[test]
fn streamed_blocks_report_gaps_and_overruns() {
    let mut link = connected(0);
    link.expected_block_sequence = Some(4);
    let frame = decode_one(&encode_frame(MSG_SCOPE_BLOCK_PUSH, 9, &block_push_payload(2, &[scope_block(5, 1), scope_block(6, 1)])));
    link.expected_push_sequence = Some(8);
    let (events, result) = link.handle_frame(frame, 0);
    assert!(result.is_ok());
    assert_eq!(events.len(), 4);
    assert!(matches!(events[0], SourceEvent::PushFrameGap { expected: 8, received: 9 }));
    assert!(matches!(events[1], SourceEvent::StreamGap { expected: 4, received: 5 }));
    assert!(matches!(&events[2], SourceEvent::Log(m) if m == "scope producer overruns: 2"));
    assert!(matches!(&events[3], SourceEvent::Blocks { mode: ScopeMode::Stream, blocks } if blocks.len() == 2));
    assert_eq!(link.expected_block_sequence, Some(7));
    assert_eq!(link.expected_push_sequence, Some(10));
}

#[test]
fn frames_before_hello_are_ignored_and_unknown_frames_logged() {
    let mut link = LinkState::new();
    let frame = decode_one(&encode_frame(MSG_STATUS_PUSH, 0, &status_payload(1)));
    let (events, result) = link.handle_frame(frame.clone(), 0);
    assert!(events.is_empty());
    assert!(result.is_ok());

    let mut link = connected(1);
    let (events, result) = link.handle_frame(Frame { message_type: 0x77, sequence: 12, payload: Vec::new() }, 0);
    assert!(result.is_ok());
    assert!(matches!(&events[0], SourceEvent::Log(m) if m == "discarded unmatched frame type=0x77 seq=12"));

    let (events, result) = link.handle_frame(Frame { message_type: MSG_STATUS_PUSH, sequence: 1, payload: vec![0; 10] }, 0);
    assert!(events.is_empty());
    let error = result.expect_err("short STATUS");
    assert_eq!(error, LinkError::Codec(CodecError::MalformedPayload("STATUS is shorter than current layout")));
    assert_eq!(error.message(), "message payload is malformed: STATUS is shorter than current layout");
}

#[test]
fn cal_read_nak_is_reported_as_device_nak() {
    let response = decode_one(&encode_frame(MSG_CAL_READ | 0x80, 1, &nak_payload(MSG_CAL_READ, 5)));
    assert!(is_response(&response, 1, MSG_CAL_READ));
    assert_eq!(cal_read_rejection(&response.payload), Some(5));
    assert_eq!(cal_read_rejection(&ack_payload(MSG_CAL_READ, 0)), None);
    let mut values = vec![0_u8; 12];
    values[1] = MSG_CAL_READ;
    values[0] = 5;
    assert_eq!(cal_read_rejection(&values), None);
}

#[test]
fn request_discards_wrong_sequence_before_match() {
    let wrong = decode_one(&encode_frame(MSG_HELLO | 0x80, 99, &[]));
    let expected = decode_one(&encode_frame(MSG_HELLO | 0x80, 1, &[]));
    assert!(!is_response(&wrong, 1, MSG_HELLO));
    assert!(is_response(&expected, 1, MSG_HELLO));
    assert_eq!(expected.sequence, 1);
}

#[test]
fn request_reports_valid_wrong_wire_magic_as_version_mismatch() {
    let response = encode_frame_with_magic(VERSION_MAGIC - 1, MSG_HELLO | 0x80, 1, &[]);
    let mut decoder = FrameDecoder::new();
    let frames = decoder.push(&response);
    assert_eq!(frames.len(), 1);
    let magic = match &frames[0] {
        Err(CodecError::VersionMismatch(m)) => *m,
        other => panic!("expected a version mismatch, got {other:?}"),
    };
    let raw_error = decode_raw(&[0x59, 0x81, 0, 1, 0, 0, 0, 0, 0, 0, 0]).expect_err("magic");
    assert_eq!(raw_error, CodecError::VersionMismatch(0x59));

    let message = request_failure(MSG_HELLO, Some(magic)).message();
    assert!(message.contains("wire version mismatch"), "{message}");
    assert!(message.contains("device magic=0x59"), "{message}");
}

#[test]
fn request_times_out_after_retries() {
    let failure = request_failure(MSG_HELLO, None);
    assert_eq!(failure, RequestFailure::Timeout { message_type: MSG_HELLO, attempts: REQUEST_ATTEMPTS });
    assert_eq!(failure.message(), "message 0x01 timed out after 3 attempts");
}

#[test]
fn enumerates_full_176_entry_catalog() {
    let info = device_info(0x1234_5678, 176, CAP_ENUM);
    let mut descriptors = Vec::new();
    let mut start = 0_u16;
    while start < info.descriptor_count {
        let payload = enum_payload(176, start, ENUM_PAGE_SIZE as u8);
        let (total, returned_start, page) = parse_descriptors(&payload).expect("page parses");
        start = check_descriptor_page(info.descriptor_count, start, total, returned_start, page.len()).expect("page accepted");
        descriptors.extend(page);
    }
    assert_eq!(check_enumerated_count(info.descriptor_count, descriptors.len()), Ok(()));
    let confirmed = parse_hello(&hello_payload(&info)).expect("confirmation");
    assert_eq!(check_confirmed_identity(info.build_hash, info.descriptor_count, &confirmed), Ok(()));

    assert_eq!(descriptors.len(), 176);
    assert_eq!(descriptors.first().expect("first").name, "var000");
    assert_eq!(descriptors.last().expect("last").name, "var175");
}

#[test]
fn enumeration_rejects_total_that_differs_from_hello() {
    let (total, returned_start, page) = parse_descriptors(&enum_payload(127, 0, ENUM_PAGE_SIZE as u8)).expect("page parses");
    let error = check_descriptor_page(176, 0, total, returned_start, page.len()).expect_err("total differs");
    assert_eq!(error, EnumerationError::TotalChanged { hello: 176, reported: 127 });
    assert_eq!(error.message(), "descriptor total changed during enumeration: HELLO=176, ENUM=127");
}

#[test]
fn enumeration_rejects_wrong_start_and_premature_end() {
    let (total, returned_start, page) = parse_descriptors(&enum_payload(8, 1, 7)).expect("page parses");
    assert_eq!(
        check_descriptor_page(8, 0, total, returned_start, page.len()),
        Err(EnumerationError::PageIndexMismatch { requested: 0, returned: 1 })
    );
    let (total, returned_start, page) = parse_descriptors(&enum_payload(8, 0, 0)).expect("page parses");
    assert_eq!(check_descriptor_page(8, 0, total, returned_start, page.len()), Err(EnumerationError::EndedEarly));
}

#[test]
fn enumeration_page_limits() {
    assert_eq!(check_descriptor_page(20, 0, 20, 0, 9), Err(EnumerationError::PageTooLarge));
    assert_eq!(check_descriptor_page(20, 16, 20, 16, 8), Err(EnumerationError::BeyondTotal));
    assert_eq!(check_descriptor_page(0xFFFF, 0xFFFC, 0xFFFF, 0xFFFC, 8), Err(EnumerationError::IndexOverflow));
    assert_eq!(check_descriptor_page(20, 16, 20, 16, 4), Ok(20));
    assert_eq!(check_descriptor_page(0, 0, 0, 0, 0), Ok(0));
    assert_eq!(check_enumerated_count(3, 2), Err(EnumerationError::CountMismatch));
    let changed = device_info(2, 3, 0);
    let error = check_confirmed_identity(1, 3, &changed).expect_err("changed");
    assert_eq!(error.message(), "firmware changed during descriptor enumeration: before=0x00000001/3, after=0x00000002/3");
}

#[test]
fn build_hash_change_refreshes_device_info_and_stops_scope() {
    let old_hash = 0x1111_1111;
    let new_info = device_info(0x2222_2222, 1, CAP_ENUM);
    let mut link = connected(old_hash);
    link.scope_active = true;
    link.expected_block_sequence = Some(7);

    let status = decode_one(&encode_frame(MSG_STATUS_PUSH, 0, &status_payload(new_info.build_hash)));
    let (events, result) = link.handle_frame(status, 0);
    assert!(result.is_ok());
    assert!(matches!(events[0], SourceEvent::Status(_)));
    assert!(!link.scope_active);
    assert_eq!(link.expected_block_sequence, None);

    let pending = link.take_pending_refresh().expect("refresh pending");
    assert_eq!(pending, new_info.build_hash);
    assert_eq!(link.take_pending_refresh(), None);

    let hello = parse_hello(&hello_payload(&new_info)).expect("hello");
    let event = link.apply_refreshed_identity(pending, hello).expect("same build");
    match event {
        SourceEvent::DeviceChanged { old_hash: event_old_hash, info } => {
            assert_eq!(event_old_hash, old_hash);
            assert_eq!(info.build_hash, new_info.build_hash);
        }
        other => panic!("expected device change, got {other:?}"),
    }
    assert_eq!(link.info.build_hash, new_info.build_hash);

    let (total, returned_start, page) = parse_descriptors(&enum_payload(1, 0, 1)).expect("page");
    assert_eq!(check_descriptor_page(link.info.descriptor_count, 0, total, returned_start, page.len()), Ok(1));
    assert_eq!(page[0].name, "var000");
}

#[test]
fn refreshed_identity_of_another_build_is_refused() {
    let mut link = connected(1);
    let result = link.apply_refreshed_identity(2, device_info(3, 0, 0));
    assert_eq!(result.err(), Some((2, 3)));
    assert_eq!(link.info.build_hash, 1);
}

#[test]
fn stale_catalog_command_is_rejected_without_transport_request() {
    let link = connected(0x2222_2222);
    assert!(!link.catalog_is_current(0x1111_1111));
    assert!(link.catalog_is_current(0x2222_2222));
}

#[test]
fn system_command_ack_data_is_emitted_as_sequence() {
    let response = decode_one(&encode_frame(MSG_SYSTEM_COMMAND | 0x80, 1, &ack_payload(MSG_SYSTEM_COMMAND, 42)));
    let ack = require_ack(&response, MSG_SYSTEM_COMMAND).expect("accepted");
    assert_eq!(ack.data, 42);
    assert_eq!(parse_ack(&response.payload).expect("ack").status, 0);
    let Ok(SourceEvent::SystemCommandAccepted { command, sequence }) =
        scope2000::link::system_command_accepted(SystemCommand::Start, &response)
    else {
        panic!("expected system command accepted event");
    };
    assert_eq!(command, SystemCommand::Start);
    assert_eq!(sequence, 42);
}

#[test]
fn bound_channels_and_scope_modes_reset_numbering() {
    let mut link = connected(0);
    link.expected_block_sequence = Some(3);
    assert_eq!(link.channels_bound(0x0005_0009), 9);
    assert_eq!(link.active_bind_sequence, Some(9));
    assert_eq!(link.expected_block_sequence, None);

    link.capture = Some(CaptureAssembly::new(1, 1, 0, None, 0));
    link.completed_capture_id = Some(0);
    link.scope_configured(ScopeMode::CaptureArmed);
    assert!(link.scope_active);
    assert!(link.capture.is_some());
    link.scope_configured(ScopeMode::Off);
    assert!(!link.scope_active);
    assert!(link.capture.is_none());
    assert_eq!(link.completed_capture_id, None);
}

#[test]
fn sequence_numbers_wrap() {
    let mut link = LinkState::new();
    assert_eq!(link.take_sequence(), 1);
    assert_eq!(link.take_sequence(), 2);
    link.next_sequence = 0xFFFF;
    assert_eq!(link.take_sequence(), 0xFFFF);
    assert_eq!(link.next_sequence, 0);
}

#[test]
fn capture_push_frame_parses_for_the_session() {
    let payload = capture_push_payload(22, 1, 0, &scope_block(99, 3), true, 0);
    let batch = parse_capture_batch(&payload).expect("batch");
    assert_eq!(batch.capture_id, 22);
    assert!(batch.is_replay);
}

#[test]
fn catalog_commands_send_their_requests() {
    let var = VarRef { addr: 0x1234, ty: VarType::U16 };
    let (t, p) = catalog_request(&CatalogCommand::WriteParams(vec![ParamWrite { var, value_bits: 9 }]));
    assert_eq!(t, MSG_CAL_WRITE);
    assert_eq!(p, vec![1, 0, 0x34, 0x12, 0, 0, 9, 0, 0, 0, VarType::U16.wire_value() as u8, 0, 0, 0]);
    assert_eq!(catalog_request(&CatalogCommand::CommitParams), (MSG_CAL_COMMIT, Vec::new()));
    let (t, p) = catalog_request(&CatalogCommand::ReadValues(vec![ValueRead { descriptor_index: 4, var }]));
    assert_eq!(t, MSG_CAL_READ);
    assert_eq!(p.len(), 10);
    let (t, p) = catalog_request(&CatalogCommand::BindChannels { channels: vec![var, var] });
    assert_eq!(t, MSG_DAQ_BIND);
    assert_eq!(p.len(), 18);
    let config = ScopeConfig {
        mode: ScopeMode::Stream,
        trigger_slot: 0,
        trigger_level_bits: 0,
        trigger_hysteresis_bits: 0,
        trigger_edge: TriggerEdge::Rise,
        pre_trigger_percent: 0,
        prescaler: 1,
        record_points: 0,
        ack_capture_id: NO_CAPTURE_ACK,
        flags: 0,
    };
    let (t, p) = catalog_request(&CatalogCommand::ConfigureScope(config));
    assert_eq!(t, MSG_DAQ_CONTROL);
    assert_eq!(p.len(), 24);
}

#[test]
fn catalog_answers_update_the_session() {
    let mut link = connected(0);
    let ack = |t: u8, data: u32| Frame { message_type: t | 0x80, sequence: 1, payload: ack_payload(t, data) };

    assert!(matches!(link.complete_catalog_command(&CatalogCommand::WriteParams(vec![]), &ack(MSG_CAL_WRITE, 0)), Ok(SourceEvent::ParamsStaged)));
    assert!(matches!(
        link.complete_catalog_command(&CatalogCommand::CommitParams, &ack(MSG_CAL_COMMIT, 12)),
        Ok(SourceEvent::ParamsCommitted { sequence: 12 })
    ));
    assert!(matches!(
        link.complete_catalog_command(&CatalogCommand::BindChannels { channels: vec![] }, &ack(MSG_DAQ_BIND, 0x0001_0005)),
        Ok(SourceEvent::ChannelsBound { bind_sequence: 5 })
    ));
    assert_eq!(link.active_bind_sequence, Some(5));
    let stop = stop_config(1);
    assert!(matches!(
        link.complete_catalog_command(&CatalogCommand::ConfigureScope(stop), &ack(MSG_DAQ_CONTROL, 0)),
        Ok(SourceEvent::ScopeConfigured { mode: ScopeMode::Off })
    ));
    assert!(!link.scope_active);

    let nak = Frame { message_type: MSG_DAQ_BIND | 0x80, sequence: 1, payload: nak_payload(MSG_DAQ_BIND, 2) };
    let error = link.complete_catalog_command(&CatalogCommand::BindChannels { channels: vec![] }, &nak).expect_err("nak");
    assert_eq!(error, CatalogError::Ack(AckError::DeviceNak { request_type: MSG_DAQ_BIND, status: 2 }));
    assert_eq!(error.message(), "device rejected message 0x22: status=2 (busy)");

    let var = VarRef { addr: 0, ty: VarType::U32 };
    let reads = vec![ValueRead { descriptor_index: 3, var }, ValueRead { descriptor_index: 8, var }];
    let mut values = Vec::new();
    values.extend_from_slice(&77_u32.to_le_bytes());
    values.extend_from_slice(&[2, 0, 0, 0]);
    values.extend_from_slice(&5_u32.to_le_bytes());
    values.extend_from_slice(&6_u32.to_le_bytes());
    let answer = Frame { message_type: MSG_CAL_READ | 0x80, sequence: 1, payload: values };
    match link.complete_catalog_command(&CatalogCommand::ReadValues(reads.clone()), &answer) {
        Ok(SourceEvent::Values { read_sequence, indexes, values }) => {
            assert_eq!(read_sequence, 77);
            assert_eq!(indexes, vec![3, 8]);
            assert_eq!(values, vec![5, 6]);
        }
        other => panic!("expected values, got {other:?}"),
    }
    let nak = Frame { message_type: MSG_CAL_READ | 0x80, sequence: 1, payload: nak_payload(MSG_CAL_READ, 5) };
    assert_eq!(
        link.complete_catalog_command(&CatalogCommand::ReadValues(reads.clone()), &nak).err(),
        Some(CatalogError::Ack(AckError::DeviceNak { request_type: MSG_CAL_READ, status: 5 }))
    );
    let mut short = Vec::new();
    short.extend_from_slice(&77_u32.to_le_bytes());
    short.extend_from_slice(&[1, 0, 0, 0]);
    short.extend_from_slice(&5_u32.to_le_bytes());
    let answer = Frame { message_type: MSG_CAL_READ | 0x80, sequence: 1, payload: short };
    let error = link.complete_catalog_command(&CatalogCommand::ReadValues(reads), &answer).expect_err("count");
    assert_eq!(error, CatalogError::ReadCountMismatch);
    assert_eq!(error.message(), "CAL_READ response count mismatch");
}

#[test]
fn log_lines_of_the_session() {
    assert_eq!(
        stale_catalog_text(0x1111_1111, 0x2222_2222),
        "discarded stale catalog command for build 0x11111111; current build is 0x22222222"
    );
    assert_eq!(retry_text(MSG_HELLO, 1), "timeout for message 0x01; retry 1");
    assert_eq!(malformed_frame_text(CodecError::InvalidCrc), "discarded malformed frame: CRC-32C mismatch");
    let response = Frame { message_type: MSG_SYSTEM_COMMAND | 0x80, sequence: 1, payload: ack_payload(MSG_SYSTEM_COMMAND, 42) };
    assert!(matches!(
        system_command_accepted(SystemCommand::Start, &response),
        Ok(SourceEvent::SystemCommandAccepted { command: SystemCommand::Start, sequence: 42 })
    ));
}

#[test]
fn enumeration_collects_pages_until_the_total() {
    let info = device_info(0x1234_5678, 10, CAP_ENUM);
    let mut enumeration = Enumeration::new(info.descriptor_count);
    assert_eq!(enumeration.request(), vec![0, 0, ENUM_PAGE_SIZE as u8, 0]);
    enumeration.accept_page(&enum_payload(10, 0, 8)).expect("first page");
    assert!(!enumeration.complete);
    assert_eq!(enumeration.request(), vec![8, 0, ENUM_PAGE_SIZE as u8, 0]);
    enumeration.accept_page(&enum_payload(10, 8, 2)).expect("last page");
    assert!(enumeration.complete);
    let descriptors = enumeration.confirm(info.build_hash, &hello_payload(&info)).expect("confirmed");
    assert_eq!(descriptors.len(), 10);
    assert_eq!(descriptors[9].name, "var009");

    let mut wrong = Enumeration::new(10);
    assert_eq!(
        wrong.accept_page(&enum_payload(10, 1, 8)),
        Err(EnumerationFailure::Page(EnumerationError::PageIndexMismatch { requested: 0, returned: 1 }))
    );
    let mut changed = Enumeration::new(1);
    changed.accept_page(&enum_payload(1, 0, 1)).expect("page");
    let other = device_info(0x9999, 1, CAP_ENUM);
    let error = changed.confirm(0x1234, &hello_payload(&other)).expect_err("changed firmware");
    assert!(matches!(error, EnumerationFailure::Page(EnumerationError::FirmwareChanged { .. })));
    let incomplete = Enumeration::new(3);
    assert_eq!(
        incomplete.confirm(0, &hello_payload(&info)).err(),
        Some(EnumerationFailure::Page(EnumerationError::CountMismatch))
    );
}
