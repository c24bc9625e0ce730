use mkaudiolibrary::audiofile::{
    get_u16, get_u32, get_u64, set_u16, set_u32, set_u64, AudioFile, BextChunk, Endianness,
    FileFormat, Marker, TempoInfo,
};
use mkaudiolibrary::realtime::MKAudioError;

fn quantize(x: f64, peak: f64) -> i32 {
    (x.clamp(-1.0, 1.0) * peak) as i32
}

#[test]
fn field_codecs_round_trip() {
    for endianness in [Endianness::Little, Endianness::Big] {
        let mut buffer: Vec<u8> = Vec::new();
        set_u16(&mut buffer, 0xBEEF, endianness);
        set_u32(&mut buffer, 0xDEADBEEF, endianness);
        set_u64(&mut buffer, 0x0123456789ABCDEF, endianness);
        assert_eq!(get_u16(&buffer, 0, endianness), 0xBEEF);
        assert_eq!(get_u32(&buffer, 2, endianness), 0xDEADBEEF);
        assert_eq!(get_u64(&buffer, 6, endianness), 0x0123456789ABCDEF);
    }
    let mut buffer: Vec<u8> = Vec::new();
    set_u16(&mut buffer, 0x1234, Endianness::Little);
    assert_eq!(buffer, vec![0x34, 0x12]);
    // Out-of-range reads yield zero.
    assert_eq!(get_u32(&buffer, 0, Endianness::Little), 0);
}

#[test]
fn wav_16_bit_mono_silence_round_trip() {
    let mut audio = AudioFile::new(1, 44100);
    audio.set_sample_rate(44100);
    audio.set_bit_depth(16);
    let bytes = audio.save(FileFormat::Wav).unwrap();
    assert_eq!(bytes.len(), 88244);
    let mut decoded = AudioFile::default();
    decoded.load_bytes(&bytes).unwrap();
    assert_eq!(decoded.num_channel(), 1);
    assert_eq!(decoded.num_sample(), 44100);
    assert_eq!(decoded.sample_rate(), 44100);
    assert_eq!(decoded.bit_depth(), 16);
    assert_eq!(decoded.format(), FileFormat::Wav);
    for i in [0usize, 1, 22050, 44099] {
        assert_eq!(decoded.get_sample(0, i), Some(0));
    }
}

#[test]
fn wav_16_bit_stereo_impulse_payload() {
    let mut audio = AudioFile::new(2, 4);
    audio.set_sample_rate(44100);
    audio.set_bit_depth(16);
    audio.set_sample(0, 0, quantize(1.0, 32767.0));
    audio.set_sample(1, 3, quantize(-1.0, 32767.0));
    let bytes = audio.save(FileFormat::Wav).unwrap();
    let payload = &bytes[44..60];
    assert_eq!(
        payload,
        [
            0xFF, 0x7F, 0x00, 0x00, 0x00, 0x00, 0x00, 0x00, 0x00, 0x00, 0x00, 0x00, 0x00, 0x00,
            0x01, 0x80,
        ],
    );
    let mut decoded = AudioFile::default();
    decoded.load_bytes(&bytes).unwrap();
    assert_eq!(decoded.get_sample(0, 0), Some(32767));
    assert_eq!(decoded.get_sample(1, 3), Some(-32767));
    assert_eq!(decoded.get_sample(0, 1), Some(0));
}

#[test]
fn aiff_24_bit_stereo_round_trip() {
    let mut audio = AudioFile::new(2, 1);
    audio.set_sample_rate(48000);
    audio.set_bit_depth(24);
    audio.set_sample(0, 0, quantize(0.5, 8388607.0));
    audio.set_sample(1, 0, quantize(-0.5, 8388607.0));
    let bytes = audio.save(FileFormat::Aiff).unwrap();
    // FORM header (12) + COMM chunk (26) + SSND header (16), then frames.
    let payload = &bytes[54..60];
    assert_eq!(payload, [0x3F, 0xFF, 0xFF, 0xC0, 0x00, 0x01]);
    let mut decoded = AudioFile::default();
    decoded.load_bytes(&bytes).unwrap();
    assert_eq!(decoded.format(), FileFormat::Aiff);
    assert_eq!(decoded.num_channel(), 2);
    assert_eq!(decoded.num_sample(), 1);
    assert_eq!(decoded.sample_rate(), 48000);
    assert_eq!(decoded.bit_depth(), 24);
    assert_eq!(decoded.get_sample(0, 0), Some(4194303));
    assert_eq!(decoded.get_sample(1, 0), Some(-4194303));
}

#[test]
fn bwf_bext_present() {
    let mut audio = AudioFile::new(1, 8);
    audio.set_bit_depth(16);
    let mut bext = BextChunk::with_description("take 1", "unit");
    bext.time_reference = 88200;
    audio.set_bext(bext);
    let with_bext = audio.save_bwf().unwrap();
    let mut decoded = AudioFile::default();
    decoded.load_bytes(&with_bext).unwrap();
    let parsed = decoded.bext().expect("bext chunk expected");
    assert_eq!(parsed.description, "take 1");
    assert_eq!(parsed.version, 2);
    assert_eq!(parsed.time_reference, 88200);
    // The rest of the file decodes identically to the plain encoding.
    let plain = audio.save(FileFormat::Wav).unwrap();
    let mut plain_decoded = AudioFile::default();
    plain_decoded.load_bytes(&plain).unwrap();
    assert!(plain_decoded.bext().is_none());
    assert_eq!(plain_decoded.num_sample(), decoded.num_sample());
    assert_eq!(plain_decoded.sample_rate(), decoded.sample_rate());
    assert_eq!(plain_decoded.bit_depth(), decoded.bit_depth());
    for i in 0..8 {
        assert_eq!(plain_decoded.get_sample(0, i), decoded.get_sample(0, i));
    }
}

#[test]
fn sample_round_trip_all_integer_depths() {
    for (depth, peak) in [(8usize, 127i32), (16, 32767), (24, 8388607), (32, 2147483647)] {
        let mut audio = AudioFile::new(1, 5);
        audio.set_bit_depth(depth);
        audio.set_sample(0, 0, peak);
        audio.set_sample(0, 1, -peak);
        audio.set_sample(0, 2, 0);
        audio.set_sample(0, 3, peak / 3);
        audio.set_sample(0, 4, -(peak / 7));
        let bytes = audio.save(FileFormat::Wav).unwrap();
        let mut decoded = AudioFile::default();
        decoded.load_bytes(&bytes).unwrap();
        for i in 0..5 {
            assert_eq!(decoded.get_sample(0, i), audio.get_sample(0, i), "depth {depth}");
        }
    }
}

#[test]
fn markers_round_trip_with_labels() {
    let mut audio = AudioFile::new(1, 16);
    audio.set_bit_depth(16);
    audio.add_marker(Marker::new(500, "verse"));
    audio.add_marker(Marker::new(100, "intro"));
    audio.add_marker(Marker::with_id(9, 300, ""));
    assert_eq!(audio.markers().len(), 3);
    assert_eq!(audio.markers()[0].position, 100);
    assert_eq!(audio.markers()[1].position, 300);
    assert_eq!(audio.markers()[2].position, 500);
    let bytes = audio.save(FileFormat::Wav).unwrap();
    let mut decoded = AudioFile::default();
    decoded.load_bytes(&bytes).unwrap();
    assert_eq!(decoded.markers().len(), 3);
    assert_eq!(decoded.markers()[0].position, 100);
    assert_eq!(decoded.markers()[0].label, "intro");
    assert_eq!(decoded.markers()[1].position, 300);
    assert_eq!(decoded.markers()[1].label, "");
    assert_eq!(decoded.markers()[2].position, 500);
    assert_eq!(decoded.markers()[2].label, "verse");
}

#[test]
fn marker_management() {
    let mut audio = AudioFile::new(1, 4);
    audio.add_marker(Marker::new(10, "a"));
    audio.add_marker(Marker::new(20, "b"));
    let first_id = audio.markers()[0].id;
    let second_id = audio.markers()[1].id;
    assert_eq!(first_id, 1);
    assert_eq!(second_id, 2);
    assert!(audio.remove_marker(first_id));
    assert!(!audio.remove_marker(first_id));
    assert_eq!(audio.markers().len(), 1);
    audio.clear_markers();
    assert!(audio.markers().is_empty());
}

#[test]
fn tempo_round_trip() {
    let mut audio = AudioFile::new(1, 4);
    audio.set_bit_depth(16);
    // 120 beats per minute as 32-bit float bits.
    let tempo = TempoInfo::with_time_signature(120.0f32.to_bits(), 3, 4);
    audio.set_tempo(tempo);
    let bytes = audio.save(FileFormat::Wav).unwrap();
    let mut decoded = AudioFile::default();
    decoded.load_bytes(&bytes).unwrap();
    let parsed = decoded.tempo().expect("tempo expected");
    assert_eq!(parsed.bpm_bits, 120.0f32.to_bits());
    assert_eq!(f32::from_bits(parsed.bpm_bits), 120.0);
    assert_eq!(parsed.time_sig_numerator, 3);
    assert_eq!(parsed.time_sig_denominator, 4);
    audio.clear_tempo();
    assert!(audio.tempo().is_none());
}

#[test]
fn ixml_round_trip() {
    let mut audio = AudioFile::new(1, 2);
    audio.set_bit_depth(16);
    audio.xml_chunk = String::from("<BWFXML><NOTE>mix</NOTE></BWFXML>");
    let bytes = audio.save(FileFormat::Wav).unwrap();
    let mut decoded = AudioFile::default();
    decoded.load_bytes(&bytes).unwrap();
    assert_eq!(decoded.xml_chunk, "<BWFXML><NOTE>mix</NOTE></BWFXML>");
}

#[test]
fn decode_errors() {
    let mut audio = AudioFile::default();
    // Not a container at all.
    assert_eq!(audio.load_bytes(b"nope"), Err(MKAudioError::BadMagic));
    assert_eq!(audio.format(), FileFormat::Unknown);
    // RIFF but not WAVE.
    let mut bad = b"RIFF\x04\x00\x00\x00JUNK".to_vec();
    assert_eq!(audio.load_bytes(&bad), Err(MKAudioError::BadFormat));
    // RIFF/WAVE without chunks.
    bad = b"RIFF\x04\x00\x00\x00WAVE".to_vec();
    assert_eq!(audio.load_bytes(&bad), Err(MKAudioError::ChunkNotFound));
    // A good file truncated in the sample data.
    let mut good_file = AudioFile::new(1, 100);
    good_file.set_bit_depth(16);
    let good = good_file.save(FileFormat::Wav).unwrap();
    let truncated = &good[..good.len() - 10];
    assert_eq!(audio.load_bytes(truncated), Err(MKAudioError::Truncated));
}

#[test]
fn decode_rejects_unsupported_formats() {
    let mut base = AudioFile::new(1, 4);
    base.set_bit_depth(16);
    let mut bytes = base.save(FileFormat::Wav).unwrap();
    // Patch the fmt audio-format code to A-law (6).
    bytes[20] = 6;
    let mut audio = AudioFile::default();
    assert_eq!(audio.load_bytes(&bytes), Err(MKAudioError::UnsupportedCodec));
    // Patch the bits-per-sample to 12.
    let mut bytes = base.save(FileFormat::Wav).unwrap();
    bytes[34] = 12;
    assert_eq!(audio.load_bytes(&bytes), Err(MKAudioError::UnsupportedBitDepth));
    // Break the average byte rate.
    let mut bytes = base.save(FileFormat::Wav).unwrap();
    bytes[28] = bytes[28].wrapping_add(1);
    assert_eq!(audio.load_bytes(&bytes), Err(MKAudioError::BadFormat));
}

#[test]
fn encode_errors() {
    let mut audio = AudioFile::new(1, 4);
    audio.set_bit_depth(20);
    assert_eq!(audio.save(FileFormat::Wav), Err(MKAudioError::UnsupportedBitDepth));
    audio.set_bit_depth(16);
    assert_eq!(audio.save(FileFormat::NotLoaded), Err(MKAudioError::InvalidParameter));
    let empty = AudioFile::new(0, 0);
    assert_eq!(empty.save(FileFormat::Wav), Err(MKAudioError::InvalidParameter));
    // An AIFF rate outside the lookup table is refused.
    let mut audio = AudioFile::new(1, 4);
    audio.set_bit_depth(16);
    audio.set_sample_rate(44101);
    assert_eq!(audio.save(FileFormat::Aiff), Err(MKAudioError::UnsupportedSampleRate));
    assert_eq!(
        MKAudioError::UnsupportedSampleRate.message(),
        "sample rate is not in the lookup table"
    );
}

#[test]
fn aiff_sample_rate_table_round_trips() {
    for rate in [
        8000usize, 11025, 16000, 22050, 32000, 37800, 44056, 44100, 47250, 48000, 50000, 50400,
        88200, 96000, 176400, 192000, 352800, 2822400, 5644800,
    ] {
        let mut audio = AudioFile::new(1, 1);
        audio.set_bit_depth(16);
        audio.set_sample_rate(rate);
        let bytes = audio.save(FileFormat::Aiff).unwrap();
        let mut decoded = AudioFile::default();
        decoded.load_bytes(&bytes).unwrap();
        assert_eq!(decoded.sample_rate(), rate, "rate {rate}");
    }
}

#[test]
fn bext_datetime_helpers() {
    let mut bext = BextChunk::new();
    bext.set_datetime("2024-06-01", "12:34:56");
    assert_eq!(bext.origination_date, "2024-06-01");
    assert_eq!(bext.origination_time, "12:34:56");
    bext.set_current_datetime();
    assert_eq!(bext.origination_date, "2025-01-01");
    assert_eq!(bext.origination_time, "00:00:00");
}

#[test]
fn decode_sorts_cue_markers_by_position() {
    let mut audio = AudioFile::new(1, 16);
    audio.set_bit_depth(16);
    audio.add_marker(Marker::with_id(1, 100, ""));
    audio.add_marker(Marker::with_id(2, 300, ""));
    let mut bytes = audio.save(FileFormat::Wav).unwrap();
    // The cue chunk follows the fmt chunk; swap its two 24-byte entries so
    // the file carries them out of position order.
    assert_eq!(get_u32(&bytes, 44, Endianness::Little), 2);
    let cue_entries = 48;
    for k in 0..24 {
        bytes.swap(cue_entries + k, cue_entries + 24 + k);
    }
    let mut decoded = AudioFile::default();
    decoded.load_bytes(&bytes).unwrap();
    assert_eq!(decoded.markers().len(), 2);
    assert_eq!(decoded.markers()[0].position, 100);
    assert_eq!(decoded.markers()[1].position, 300);
}

#[test]
fn add_marker_sorts_out_of_order_input() {
    let mut audio = AudioFile::new(1, 4);
    audio.add_marker(Marker::with_id(7, 900, "late"));
    audio.add_marker(Marker::with_id(3, 50, "early"));
    audio.add_marker(Marker::new(400, "middle"));
    let positions: Vec<u64> = audio.markers().iter().map(|m| m.position).collect();
    assert_eq!(positions, vec![50, 400, 900]);
    // The id-0 marker received the largest id in use plus one.
    assert_eq!(audio.markers()[1].id, 8);
}

#[test]
fn bext_ascii_fields_survive_byte_level() {
    // An ASCII description written into the fixed 256-byte field reads
    // back as exactly its own characters.
    let mut audio = AudioFile::new(1, 2);
    audio.set_bit_depth(16);
    let mut bext = BextChunk::with_description("Grand Hall, mic 3", "unit");
    bext.coding_history = String::from("A=PCM,F=44100,W=16,M=mono");
    audio.set_bext(bext);
    let bytes = audio.save_bwf().unwrap();
    let mut decoded = AudioFile::default();
    decoded.load_bytes(&bytes).unwrap();
    let parsed = decoded.bext().unwrap();
    assert_eq!(parsed.description, "Grand Hall, mic 3");
    assert_eq!(parsed.originator, "unit");
    assert_eq!(parsed.coding_history, "A=PCM,F=44100,W=16,M=mono");
}
