use flatbuffers::FlatBufferBuilder;
use flatbuffers::TableFinishedWIPOffset;
use flatbuffers::WIPOffset;
use pose::protocol::fbs::detection::classify;
use pose::protocol::fbs::detection::parse;
use pose::protocol::fbs::detection::Availability;
use pose::protocol::fbs::detection::DetectionResult;
use pose::protocol::fbs::detection::Envelope;
use pose::protocol::fbs::detection::Landmark;
use pose::protocol::fbs::detection::MAX_TABLES;
use pose::protocol::fbs::detection::SLOT_AVAILABILITY;
use pose::protocol::fbs::detection::SLOT_LANDMARKS;
use pose::protocol::fbs::detection::SLOT_PAYLOAD;
use pose::protocol::fbs::detection::SLOT_PAYLOAD_TYPE;
use pose::protocol::fbs::detection::SLOT_PRESENCE;
use pose::protocol::fbs::detection::SLOT_VISIBILITY;
use pose::protocol::fbs::detection::SLOT_X;
use pose::protocol::fbs::detection::SLOT_Y;
use pose::protocol::fbs::detection::SLOT_Z;
use pose::protocol::fbs::detection::TAG_EMPTY;
use pose::protocol::fbs::detection::TAG_POSE;

type TableOffset = WIPOffset<TableFinishedWIPOffset>;

fn create_availability(
    builder: &mut FlatBufferBuilder,
    visibility: f32,
    presence: f32,
) -> TableOffset {
    let start = builder.start_table();
    builder.push_slot::<f32>(SLOT_PRESENCE, presence, 0.0);
    builder.push_slot::<f32>(SLOT_VISIBILITY, visibility, 0.0);
    builder.end_table(start)
}

fn create_landmark(
    builder: &mut FlatBufferBuilder,
    x: f32,
    y: f32,
    z: f32,
    availability: Option<TableOffset>,
) -> TableOffset {
    let start = builder.start_table();
    if let Some(offset) = availability {
        builder.push_slot_always::<TableOffset>(SLOT_AVAILABILITY, offset);
    }
    builder.push_slot::<f32>(SLOT_Z, z, 0.0);
    builder.push_slot::<f32>(SLOT_Y, y, 0.0);
    builder.push_slot::<f32>(SLOT_X, x, 0.0);
    builder.end_table(start)
}

fn create_pose(builder: &mut FlatBufferBuilder, landmarks: Option<&[TableOffset]>) -> TableOffset {
    let vector = landmarks.map(|items| builder.create_vector(items));
    let start = builder.start_table();
    if let Some(offset) = vector {
        builder.push_slot_always(SLOT_LANDMARKS, offset);
    }
    builder.end_table(start)
}

fn create_empty_table(builder: &mut FlatBufferBuilder) -> TableOffset {
    let start = builder.start_table();
    builder.end_table(start)
}

fn create_message(
    builder: &mut FlatBufferBuilder,
    payload_type: u8,
    payload: Option<TableOffset>,
) -> TableOffset {
    let start = builder.start_table();
    if let Some(offset) = payload {
        builder.push_slot_always::<TableOffset>(SLOT_PAYLOAD, offset);
    }
    builder.push_slot::<u8>(SLOT_PAYLOAD_TYPE, payload_type, 0);
    builder.end_table(start)
}

fn encode(result: &DetectionResult) -> Vec<u8> {
    let mut builder = FlatBufferBuilder::new();
    let mut tables: Vec<TableOffset> = Vec::new();
    for landmark in &result.landmarks {
        let availability = landmark.availability.as_ref().map(|a| {
            create_availability(
                &mut builder,
                f32::from_bits(a.visibility),
                f32::from_bits(a.presence),
            )
        });
        tables.push(create_landmark(
            &mut builder,
            f32::from_bits(landmark.x),
            f32::from_bits(landmark.y),
            f32::from_bits(landmark.z),
            availability,
        ));
    }
    let pose = create_pose(&mut builder, Some(&tables));
    let message = create_message(&mut builder, TAG_POSE, Some(pose));
    builder.finish(message, None);
    builder.finished_data().to_vec()
}

fn landmark(x: f32, y: f32, z: f32, availability: Option<(f32, f32)>) -> Landmark {
    Landmark {
        x: x.to_bits(),
        y: y.to_bits(),
        z: z.to_bits(),
        availability: availability.map(|(visibility, presence)| Availability {
            visibility: visibility.to_bits(),
            presence: presence.to_bits(),
        }),
    }
}

#[test]
fn test_parse_pose_detection_result_from_flatbuffer_bytes() {
    let mut builder = FlatBufferBuilder::new();

    let availability1 = create_availability(&mut builder, 0.99, 0.95);
    let availability2 = create_availability(&mut builder, 0.89, 0.85);

    let landmarks = vec![
        create_landmark(&mut builder, 1.0, 2.0, 3.0, Some(availability1)),
        create_landmark(&mut builder, 4.0, 5.0, 6.0, Some(availability2)),
    ];

    let pose_result = create_pose(&mut builder, Some(&landmarks));
    let message = create_message(&mut builder, TAG_POSE, Some(pose_result));

    builder.finish(message, None);
    let bytes = builder.finished_data();

    let parsed = parse(bytes).expect("failed to parse");

    assert_eq!(parsed.landmarks.len(), 2);
    assert_eq!(f32::from_bits(parsed.landmarks[0].x), 1.0);
    assert_eq!(f32::from_bits(parsed.landmarks[1].z), 6.0);
    assert!(parsed.landmarks[0].availability.is_some());
}

#[test]
fn test_parse_pose_integration() {
    let mut builder = FlatBufferBuilder::new();

    let availability = create_availability(&mut builder, 0.9, 0.95);
    let l1 = create_landmark(&mut builder, 1.0, 2.0, 3.0, Some(availability));
    let l2 = create_landmark(&mut builder, 4.0, 5.0, 6.0, None);

    let pose_result = create_pose(&mut builder, Some(&[l1, l2]));
    let detection_msg = create_message(&mut builder, TAG_POSE, Some(pose_result));

    builder.finish(detection_msg, None);
    let bytes = builder.finished_data();

    let parsed = parse(bytes).expect("Should successfully parse");

    assert_eq!(parsed.landmarks.len(), 2);
    assert_eq!(f32::from_bits(parsed.landmarks[0].x), 1.0);
    assert_eq!(f32::from_bits(parsed.landmarks[0].y), 2.0);
    assert_eq!(f32::from_bits(parsed.landmarks[1].z), 6.0);
}

#[test]
fn concrete_scenario_decodes_every_field() {
    let expected = DetectionResult {
        landmarks: vec![
            landmark(1.0, 2.0, 3.0, Some((0.99, 0.95))),
            landmark(4.0, 5.0, 6.0, None),
        ],
    };
    let parsed = parse(&encode(&expected)).expect("well-formed envelope");
    assert_eq!(parsed, expected);
    assert_eq!(parsed.landmarks[0].x, 0x3F80_0000);
    assert_eq!(parsed.landmarks[1].availability, None);
    let first = parsed.landmarks[0].availability.clone().unwrap();
    assert_eq!(f32::from_bits(first.visibility), 0.99);
    assert_eq!(f32::from_bits(first.presence), 0.95);
}

#[test]
fn round_trip_keeps_every_field_and_the_order() {
    for n in [0usize, 1, 2, 3, 33, 200] {
        let mut landmarks = Vec::new();
        for i in 0..n {
            let base = i as f32;
            let availability = if i % 2 == 0 {
                Some((0.25 + base, 0.5 + base))
            } else {
                None
            };
            landmarks.push(landmark(base + 0.125, -base - 1.0, base * 3.0 + 7.0, availability));
        }
        let sent = DetectionResult { landmarks };
        let parsed = parse(&encode(&sent)).expect("well-formed envelope");
        assert_eq!(parsed, sent);
    }
}

#[test]
fn values_out_of_range_pass_through_unchanged() {
    let sent = DetectionResult {
        landmarks: vec![Landmark {
            x: f32::NAN.to_bits(),
            y: f32::INFINITY.to_bits(),
            z: (-1.0e30f32).to_bits(),
            availability: Some(Availability {
                visibility: 7.5f32.to_bits(),
                presence: (-3.0f32).to_bits(),
            }),
        }],
    };
    let parsed = parse(&encode(&sent)).expect("well-formed envelope");
    assert_eq!(parsed, sent);
}

#[test]
fn absent_scalar_reads_as_zero() {
    let mut builder = FlatBufferBuilder::new();
    let l = create_landmark(&mut builder, 0.0, 0.5, 0.0, None);
    let pose = create_pose(&mut builder, Some(&[l]));
    let message = create_message(&mut builder, TAG_POSE, Some(pose));
    builder.finish(message, None);
    let parsed = parse(builder.finished_data()).expect("well-formed envelope");
    assert_eq!(parsed.landmarks, vec![landmark(0.0, 0.5, 0.0, None)]);
    assert_eq!(parsed.landmarks[0].x, 0);
}

#[test]
fn missing_landmark_vector_is_an_empty_detection() {
    let mut builder = FlatBufferBuilder::new();
    let pose = create_pose(&mut builder, None);
    let message = create_message(&mut builder, TAG_POSE, Some(pose));
    builder.finish(message, None);
    let parsed = parse(builder.finished_data()).expect("well-formed envelope");
    assert_eq!(parsed, DetectionResult { landmarks: vec![] });
}

#[test]
fn empty_tag_yields_nothing() {
    let mut builder = FlatBufferBuilder::new();
    let empty = create_empty_table(&mut builder);
    let message = create_message(&mut builder, TAG_EMPTY, Some(empty));
    builder.finish(message, None);
    assert_eq!(parse(builder.finished_data()), None);
}

#[test]
fn unknown_tag_yields_nothing() {
    for tag in [3u8, 9, 255] {
        let mut builder = FlatBufferBuilder::new();
        let l = create_landmark(&mut builder, 1.0, 2.0, 3.0, None);
        let pose = create_pose(&mut builder, Some(&[l]));
        let message = create_message(&mut builder, tag, Some(pose));
        builder.finish(message, None);
        assert_eq!(parse(builder.finished_data()), None);
    }
}

#[test]
fn message_without_payload_yields_nothing() {
    let mut builder = FlatBufferBuilder::new();
    let message = create_message(&mut builder, 0, None);
    builder.finish(message, None);
    assert_eq!(parse(builder.finished_data()), None);
}

#[test]
fn tag_without_payload_yields_nothing() {
    let mut builder = FlatBufferBuilder::new();
    let message = create_message(&mut builder, TAG_POSE, None);
    builder.finish(message, None);
    assert_eq!(parse(builder.finished_data()), None);
}

#[test]
fn malformed_buffers_yield_nothing() {
    assert_eq!(parse(&[]), None);
    assert_eq!(parse(&[1, 2, 3]), None);
    assert_eq!(parse(&[0xFF; 64]), None);
    assert_eq!(parse(&[0u8; 64]), None);
    let noise: Vec<u8> = (0..257u32).map(|i| (i * 31 % 251) as u8).collect();
    assert_eq!(parse(&noise), None);
}

#[test]
fn truncated_envelope_yields_nothing() {
    let sent = DetectionResult {
        landmarks: vec![landmark(1.0, 2.0, 3.0, Some((0.9, 0.8)))],
    };
    let bytes = encode(&sent);
    assert_eq!(parse(&bytes), Some(sent));
    assert_eq!(parse(&bytes[..bytes.len() - 1]), None);
    assert_eq!(parse(&bytes[..bytes.len() / 2]), None);
}

#[test]
fn root_offset_past_the_end_yields_nothing() {
    let sent = DetectionResult { landmarks: vec![landmark(1.0, 2.0, 3.0, None)] };
    let mut bytes = encode(&sent);
    bytes[3] = 0x7F;
    assert_eq!(parse(&bytes), None);
}

#[test]
fn unaligned_root_offset_yields_nothing() {
    let sent = DetectionResult { landmarks: vec![landmark(1.0, 2.0, 3.0, None)] };
    let mut bytes = encode(&sent);
    bytes[0] = bytes[0].wrapping_add(1);
    assert_eq!(parse(&bytes), None);
}

fn reference_words(result: &DetectionResult) -> Vec<u32> {
    let n = result.landmarks.len() as u32;
    let pack = |lo: u32, hi: u32| lo + 65536 * hi;
    let mut words = vec![
        12,
        pack(8, 12),
        pack(8, 4),
        8,
        16,
        TAG_POSE as u32,
        pack(6, 8),
        pack(4, 0),
        8,
        4,
        n,
    ];
    for i in 0..n {
        words.push(4 * (11 + n + 13 * i + 3) - 4 * (11 + i));
    }
    for landmark in &result.landmarks {
        let availability = landmark.availability.as_ref();
        words.extend([
            pack(12, 20),
            pack(4, 8),
            pack(12, if availability.is_some() { 16 } else { 0 }),
            12,
            landmark.x,
            landmark.y,
            landmark.z,
            12,
            pack(8, 12),
            pack(4, 8),
            8,
            availability.map_or(0, |a| a.visibility),
            availability.map_or(0, |a| a.presence),
        ]);
    }
    words
}

fn reference_encode(result: &DetectionResult) -> Vec<u8> {
    reference_words(result).iter().flat_map(|w| w.to_le_bytes()).collect()
}

#[test]
fn reference_encoding_reads_back() {
    for n in [0usize, 1, 2, 5, 33] {
        let mut landmarks = Vec::new();
        for i in 0..n {
            let base = i as f32;
            let availability = if i % 3 == 0 { None } else { Some((base, 1.0 - base)) };
            landmarks.push(landmark(base, 0.5 * base, 0.0, availability));
        }
        let sent = DetectionResult { landmarks };
        let bytes = reference_encode(&sent);
        assert_eq!(bytes.len(), 4 * (11 + 14 * n));
        assert_eq!(parse(&bytes), Some(sent));
    }
}

#[test]
fn reference_encoding_of_the_scenario_is_exact() {
    let scenario = DetectionResult {
        landmarks: vec![
            landmark(1.0, 2.0, 3.0, Some((0.99, 0.95))),
            landmark(4.0, 5.0, 6.0, None),
        ],
    };
    let bytes = reference_encode(&scenario);
    assert_eq!(bytes.len(), 156);
    assert_eq!(&bytes[0..4], &[12, 0, 0, 0]);
    assert_eq!(bytes[20], TAG_POSE);
    assert_eq!(&bytes[40..44], &[2, 0, 0, 0]);
    assert_eq!(&bytes[44..48], &[20, 0, 0, 0]);
    assert_eq!(&bytes[68..72], &[0x00, 0x00, 0x80, 0x3F]);
    assert_eq!(parse(&bytes), Some(scenario));
}

#[test]
fn pose_envelope_is_told_with_its_detection() {
    let sent = DetectionResult {
        landmarks: vec![
            landmark(1.0, 2.0, 3.0, Some((0.99, 0.95))),
            landmark(4.0, 5.0, 6.0, None),
        ],
    };
    assert_eq!(classify(&encode(&sent)), Envelope::Pose(sent.clone()));
    assert_eq!(classify(&reference_encode(&sent)), Envelope::Pose(sent));
}

#[test]
fn empty_envelope_is_told_apart() {
    let mut builder = FlatBufferBuilder::new();
    let empty = create_empty_table(&mut builder);
    let message = create_message(&mut builder, TAG_EMPTY, Some(empty));
    builder.finish(message, None);
    assert_eq!(classify(builder.finished_data()), Envelope::Empty);
}

#[test]
fn unknown_tags_are_told_with_their_number() {
    for tag in [3u8, 9, 255] {
        let mut builder = FlatBufferBuilder::new();
        let l = create_landmark(&mut builder, 1.0, 2.0, 3.0, None);
        let pose = create_pose(&mut builder, Some(&[l]));
        let message = create_message(&mut builder, tag, Some(pose));
        builder.finish(message, None);
        assert_eq!(classify(builder.finished_data()), Envelope::Unknown(tag));
    }
}

#[test]
fn envelope_without_tag_and_payload_has_the_tag_zero() {
    let mut builder = FlatBufferBuilder::new();
    let message = create_message(&mut builder, 0, None);
    builder.finish(message, None);
    assert_eq!(classify(builder.finished_data()), Envelope::Unknown(0));
}

#[test]
fn tag_and_payload_must_come_together() {
    let mut builder = FlatBufferBuilder::new();
    let message = create_message(&mut builder, TAG_POSE, None);
    builder.finish(message, None);
    assert_eq!(classify(builder.finished_data()), Envelope::Malformed);

    let mut builder = FlatBufferBuilder::new();
    let pose = create_pose(&mut builder, None);
    let message = create_message(&mut builder, 0, Some(pose));
    builder.finish(message, None);
    assert_eq!(classify(builder.finished_data()), Envelope::Malformed);
}

#[test]
fn malformed_buffers_are_told_apart() {
    assert_eq!(classify(&[]), Envelope::Malformed);
    assert_eq!(classify(&[0xFF; 64]), Envelope::Malformed);
    let sent = DetectionResult { landmarks: vec![landmark(1.0, 2.0, 3.0, None)] };
    let bytes = encode(&sent);
    assert_eq!(classify(&bytes[..bytes.len() - 1]), Envelope::Malformed);

    let mut broken = reference_encode(&sent);
    broken[20] = TAG_EMPTY;
    assert_eq!(classify(&broken), Envelope::Empty);
    broken[16] = 200;
    assert_eq!(classify(&broken), Envelope::Malformed);
}

fn shared_block_envelope(elements: u32, availability: Option<(f32, f32)>) -> Vec<u8> {
    let one = DetectionResult { landmarks: vec![landmark(1.0, 2.0, 3.0, availability)] };
    let words = reference_words(&one);
    let mut out: Vec<u32> = words[..10].to_vec();
    out.push(elements);
    for i in 0..elements {
        out.push(4 * (11 + elements + 3) - 4 * (11 + i));
    }
    out.extend(&words[12..]);
    out.iter().flat_map(|w| w.to_le_bytes()).collect()
}

#[test]
fn envelope_at_the_table_limit_decodes() {
    assert_eq!(MAX_TABLES, 1_000_000);
    let parsed = parse(&shared_block_envelope(999_998, None)).expect("within the limit");
    assert_eq!(parsed.landmarks.len(), 999_998);
    assert_eq!(parsed.landmarks[999_997], landmark(1.0, 2.0, 3.0, None));

    let parsed = parse(&shared_block_envelope(499_999, Some((0.5, 0.25)))).expect("within the limit");
    assert_eq!(parsed.landmarks.len(), 499_999);
    assert_eq!(parsed.landmarks[0], landmark(1.0, 2.0, 3.0, Some((0.5, 0.25))));
}

#[test]
fn envelope_over_the_table_limit_is_malformed() {
    assert_eq!(classify(&shared_block_envelope(999_999, None)), Envelope::Malformed);
    assert_eq!(parse(&shared_block_envelope(999_999, None)), None);
    assert_eq!(
        classify(&shared_block_envelope(500_000, Some((0.5, 0.25)))),
        Envelope::Malformed
    );
    assert_eq!(parse(&shared_block_envelope(2_000_000, None)), None);
}
