use flatbuffers::FlatBufferBuilder;
use flatbuffers::ForwardsUOffset;
use flatbuffers::InvalidFlatbuffer;
use flatbuffers::TableFinishedWIPOffset;
use flatbuffers::Vector;
use flatbuffers::Verifiable;
use flatbuffers::Verifier;
use flatbuffers::VerifierOptions;
use flatbuffers::WIPOffset;
use pose::protocol::fbs::detection::classify;
use pose::protocol::fbs::detection::Envelope;
use pose::protocol::fbs::detection::MAX_APPARENT_SIZE;
use pose::protocol::fbs::detection::MAX_TABLES;
use pose::protocol::fbs::detection::SLOT_AVAILABILITY;
use pose::protocol::fbs::detection::SLOT_LANDMARKS;
use pose::protocol::fbs::detection::SLOT_PAYLOAD;
use pose::protocol::fbs::detection::SLOT_PAYLOAD_TYPE;
use pose::protocol::fbs::detection::SLOT_PRESENCE;
use pose::protocol::fbs::detection::SLOT_VISIBILITY;
use pose::protocol::fbs::detection::SLOT_X;
use pose::protocol::fbs::detection::SLOT_Y;
use pose::protocol::fbs::detection::SLOT_Z;
use pose::protocol::fbs::detection::TAG_EMPTY;
use pose::protocol::fbs::detection::TAG_POSE;

type TableOffset = WIPOffset<TableFinishedWIPOffset>;

struct AvailabilityTable;

struct LandmarkTable;

struct PoseTable;

struct EmptyTable;

struct MessageTable;

impl Verifiable for AvailabilityTable {
    fn run_verifier(v: &mut Verifier, pos: usize) -> Result<(), InvalidFlatbuffer> {
        v.visit_table(pos)?
            .visit_field::<f32>("visibility", SLOT_VISIBILITY, false)?
            .visit_field::<f32>("presence", SLOT_PRESENCE, false)?
            .finish();
        Ok(())
    }
}

impl Verifiable for LandmarkTable {
    fn run_verifier(v: &mut Verifier, pos: usize) -> Result<(), InvalidFlatbuffer> {
        v.visit_table(pos)?
            .visit_field::<f32>("x", SLOT_X, false)?
            .visit_field::<f32>("y", SLOT_Y, false)?
            .visit_field::<f32>("z", SLOT_Z, false)?
            .visit_field::<ForwardsUOffset<AvailabilityTable>>(
                "availability",
                SLOT_AVAILABILITY,
                false,
            )?
            .finish();
        Ok(())
    }
}

impl Verifiable for PoseTable {
    fn run_verifier(v: &mut Verifier, pos: usize) -> Result<(), InvalidFlatbuffer> {
        v.visit_table(pos)?
            .visit_field::<ForwardsUOffset<Vector<'_, ForwardsUOffset<LandmarkTable>>>>(
                "landmarks",
                SLOT_LANDMARKS,
                false,
            )?
            .finish();
        Ok(())
    }
}

impl Verifiable for EmptyTable {
    fn run_verifier(v: &mut Verifier, pos: usize) -> Result<(), InvalidFlatbuffer> {
        v.visit_table(pos)?.finish();
        Ok(())
    }
}

fn verify_payload(key: u8, v: &mut Verifier, pos: usize) -> Result<(), InvalidFlatbuffer> {
    if key == TAG_POSE {
        v.verify_union_variant::<ForwardsUOffset<PoseTable>>("pose", pos)
    } else if key == TAG_EMPTY {
        v.verify_union_variant::<ForwardsUOffset<EmptyTable>>("empty", pos)
    } else {
        Ok(())
    }
}

impl Verifiable for MessageTable {
    fn run_verifier(v: &mut Verifier, pos: usize) -> Result<(), InvalidFlatbuffer> {
        v.visit_table(pos)?
            .visit_union::<u8, _>(
                "payload_type",
                SLOT_PAYLOAD_TYPE,
                "payload",
                SLOT_PAYLOAD,
                false,
                verify_payload,
            )?
            .finish();
        Ok(())
    }
}

fn verified(buf: &[u8]) -> bool {
    let opts = VerifierOptions::default();
    let mut v = Verifier::new(&opts, buf);
    <ForwardsUOffset<MessageTable>>::run_verifier(&mut v, 0).is_ok()
}

fn build(points: &[(f32, f32, f32, Option<(f32, f32)>)], tag: u8) -> Vec<u8> {
    let mut builder = FlatBufferBuilder::new();
    let mut tables: Vec<TableOffset> = Vec::new();
    for (x, y, z, availability) in points {
        let inner = availability.map(|(visibility, presence)| {
            let start = builder.start_table();
            builder.push_slot::<f32>(SLOT_PRESENCE, presence, 0.0);
            builder.push_slot::<f32>(SLOT_VISIBILITY, visibility, 0.0);
            builder.end_table(start)
        });
        let start = builder.start_table();
        if let Some(offset) = inner {
            builder.push_slot_always::<TableOffset>(SLOT_AVAILABILITY, offset);
        }
        builder.push_slot::<f32>(SLOT_Z, *z, 0.0);
        builder.push_slot::<f32>(SLOT_Y, *y, 0.0);
        builder.push_slot::<f32>(SLOT_X, *x, 0.0);
        tables.push(builder.end_table(start));
    }
    let vector = builder.create_vector(&tables);
    let start = builder.start_table();
    builder.push_slot_always(SLOT_LANDMARKS, vector);
    let pose = builder.end_table(start);
    let start = builder.start_table();
    builder.push_slot_always::<TableOffset>(SLOT_PAYLOAD, pose);
    builder.push_slot::<u8>(SLOT_PAYLOAD_TYPE, tag, 0);
    let message = builder.end_table(start);
    builder.finish(message, None);
    builder.finished_data().to_vec()
}

fn agree(buf: &[u8]) {
    let accepted = classify(buf) != Envelope::Malformed;
    assert_eq!(accepted, verified(buf), "buffer {:?}", buf);
}

fn samples() -> Vec<Vec<u8>> {
    vec![
        build(&[], TAG_POSE),
        build(&[(1.0, 2.0, 3.0, Some((0.99, 0.95))), (4.0, 5.0, 6.0, None)], TAG_POSE),
        build(&[(0.0, 0.5, 0.0, None), (0.25, 0.0, 1.0, Some((0.0, 1.0)))], TAG_POSE),
        build(&[(1.0, 2.0, 3.0, None)], TAG_EMPTY),
        build(&[(1.0, 2.0, 3.0, None)], 7),
        build(&[(1.0, 2.0, 3.0, None)], 0),
    ]
}

#[test]
fn well_formed_envelopes_pass_the_format_verifier() {
    for sample in samples() {
        agree(&sample);
    }
    assert!(verified(&build(&[(1.0, 2.0, 3.0, Some((0.5, 0.25)))], TAG_POSE)));
    assert!(verified(&build(&[], TAG_EMPTY)));
    assert!(verified(&build(&[], 9)));
    assert!(!verified(&build(&[], 0)));
}

#[test]
fn every_single_byte_change_is_judged_as_by_the_format_verifier() {
    for sample in samples() {
        for at in 0..sample.len() {
            for value in 0..=255u8 {
                let mut changed = sample.clone();
                changed[at] = value;
                agree(&changed);
            }
        }
    }
}

#[test]
fn every_truncation_is_judged_as_by_the_format_verifier() {
    for sample in samples() {
        for len in 0..sample.len() {
            agree(&sample[..len]);
        }
    }
}

#[test]
fn scrambled_buffers_are_judged_as_by_the_format_verifier() {
    let mut state: u32 = 0x1234_5678;
    let mut next = move || {
        state ^= state << 13;
        state ^= state >> 17;
        state ^= state << 5;
        state
    };
    for sample in samples() {
        for _ in 0..20000 {
            let mut changed = sample.clone();
            let edits = 1 + next() % 4;
            for _ in 0..edits {
                let at = next() as usize % changed.len();
                let small = next() % 3 == 0;
                changed[at] = if small { (next() % 64) as u8 } else { next() as u8 };
            }
            agree(&changed);
        }
    }
}

fn shared_landmark(elements: u32, availability: bool, vtable_len: u32) -> Vec<u8> {
    let pack = |lo: u32, hi: u32| lo + 65536 * hi;
    let mut words: Vec<u32> = vec![
        12,
        pack(8, 12),
        pack(8, 4),
        8,
        16,
        TAG_POSE as u32,
        pack(6, 8),
        pack(4, 0),
        8,
        4,
        elements,
    ];
    for i in 0..elements {
        words.push(4 * (11 + elements + 3) - 4 * (11 + i));
    }
    words.extend([
        pack(vtable_len, 20),
        pack(4, 8),
        pack(12, if availability { 16 } else { 0 }),
        12,
        1.0f32.to_bits(),
        2.0f32.to_bits(),
        3.0f32.to_bits(),
        12,
        pack(8, 12),
        pack(4, 8),
        8,
        0.5f32.to_bits(),
        0.25f32.to_bits(),
    ]);
    let mut bytes: Vec<u8> = words.iter().flat_map(|w| w.to_le_bytes()).collect();
    bytes.extend(vec![0u8; vtable_len as usize]);
    bytes
}

#[test]
fn table_limit_is_the_format_verifiers() {
    assert_eq!(MAX_TABLES, VerifierOptions::default().max_tables);
    for (elements, availability, accepted) in [
        (999_997u32, false, true),
        (999_998, false, true),
        (999_999, false, false),
        (499_999, true, true),
        (500_000, true, false),
    ] {
        let buf = shared_landmark(elements, availability, 12);
        assert_eq!(verified(&buf), accepted);
        agree(&buf);
    }
}

#[test]
fn apparent_size_limit_is_the_format_verifiers() {
    assert_eq!(MAX_APPARENT_SIZE, VerifierOptions::default().max_apparent_size as u64);
    let limit = MAX_APPARENT_SIZE;
    for (vtable_len, availability) in [(60_000u64, false), (65_534, false), (40_000, true)] {
        let each = if availability {
            4 + 6 + vtable_len + 8 + 12 + 4 + 14 + 4 + 8
        } else {
            4 + 6 + vtable_len + 8 + 12
        };
        let most = (limit - 49) / (4 + each);
        for elements in [most - 1, most, most + 1, most + 2] {
            let buf = shared_landmark(elements as u32, availability, vtable_len as u32);
            assert_eq!(verified(&buf), elements <= most);
            let envelope = classify(&buf);
            assert_eq!(envelope != Envelope::Malformed, elements <= most);
            if let Envelope::Pose(result) = envelope {
                assert_eq!(result.landmarks.len() as u64, elements);
            }
        }
    }
}
