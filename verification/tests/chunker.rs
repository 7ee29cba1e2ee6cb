use audiostream::{Wave, WaveChunks};

fn mono_wave(sample_rate: u32, samples: Vec<i16>) -> Wave {
    Wave::from_samples(sample_rate, samples)
}

#[test]
fn single_short_chunk() {
    // chunk_size = 1 * 10 * 44100 / 1000 = 441; 5 < 441, so exactly one
    // chunk of length 5 is produced, then exhaustion.
    let wave = mono_wave(44100, vec![100, 200, 300, 400, 500]);
    let (mut buffer, mut chunks) = wave.chunk_ms(10, false);

    let len = chunks.next(&mut buffer);
    assert_eq!(len, Some(10));
    assert_eq!(
        &buffer[..10],
        &[0, 100, 0, 200, 1, 44, 1, 144, 1, 244]
    );

    assert_eq!(chunks.next(&mut buffer), None);
    assert_eq!(chunks.next(&mut buffer), None);
}

#[test]
fn single_short_chunk_with_sequence_number() {
    let wave = mono_wave(44100, vec![100, 200, 300, 400, 500]);
    let (mut buffer, mut chunks) = wave.chunk_ms(10, true);

    let len = chunks.next(&mut buffer);
    assert_eq!(len, Some(14));
    assert_eq!(&buffer[..4], &[0, 0, 0, 0]);
    assert_eq!(&buffer[4..14], &[0, 100, 0, 200, 1, 44, 1, 144, 1, 244]);

    assert_eq!(chunks.next(&mut buffer), None);
}

#[test]
fn chunks_partition_the_input() {
    // chunk_size = 1 * 2 * 1000 / 1000 = 2 over 5 samples: chunks of
    // lengths 2, 2, 1 cover the input with no gap, overlap or reordering.
    let wave = mono_wave(1000, vec![1, 2, 3, 4, 5]);
    let (mut buffer, mut chunks) = wave.chunk_ms(2, false);

    let mut lengths = Vec::new();
    let mut concatenated: Vec<i16> = Vec::new();
    while let Some(len) = chunks.next(&mut buffer) {
        lengths.push(len);
        concatenated.extend(audiostream::decode_samples(&buffer[..len]));
    }

    assert_eq!(lengths, vec![4, 4, 2]);
    assert_eq!(concatenated, vec![1, 2, 3, 4, 5]);
}

#[test]
fn sequence_numbers_increase_from_zero() {
    let wave = mono_wave(1000, vec![1, 2, 3, 4, 5]);
    let (mut buffer, mut chunks) = wave.chunk_ms(2, true);

    let mut headers: Vec<[u8; 4]> = Vec::new();
    while let Some(len) = chunks.next(&mut buffer) {
        assert!(len >= 4);
        headers.push([buffer[0], buffer[1], buffer[2], buffer[3]]);
    }

    assert_eq!(
        headers,
        vec![[0, 0, 0, 0], [0, 0, 0, 1], [0, 0, 0, 2]]
    );
}

#[test]
fn empty_wave_is_immediately_exhausted() {
    let wave = mono_wave(44100, Vec::new());
    let (mut buffer, mut chunks) = wave.chunk_ms(10, true);
    assert_eq!(chunks.next(&mut buffer), None);
}

#[test]
fn exact_multiple_has_no_short_chunk() {
    let wave = mono_wave(1000, vec![10, 20, 30, 40]);
    let (mut buffer, mut chunks) = wave.chunk_ms(2, false);
    assert_eq!(chunks.next(&mut buffer), Some(4));
    assert_eq!(chunks.next(&mut buffer), Some(4));
    assert_eq!(chunks.next(&mut buffer), None);
}

#[test]
fn extreme_samples_round_trip_through_payloads() {
    let wave = mono_wave(1000, vec![i16::MIN, -1, 0, 1, i16::MAX]);
    let (mut buffer, mut chunks) = wave.chunk_ms(2, false);

    let mut decoded: Vec<i16> = Vec::new();
    while let Some(len) = chunks.next(&mut buffer) {
        decoded.extend(audiostream::decode_samples(&buffer[..len]));
    }
    assert_eq!(decoded, vec![i16::MIN, -1, 0, 1, i16::MAX]);
}

#[test]
fn make_stereo_duplicates_each_sample() {
    let mut wave = mono_wave(44100, vec![1, -2, 3]);
    wave.make_stereo();
    assert_eq!(wave.channels, 2);
    assert_eq!(wave.sample_rate, 44100);
    assert_eq!(wave.data, vec![1, 1, -2, -2, 3, 3]);
}

#[test]
fn make_stereo_leaves_stereo_unchanged() {
    let mut wave = mono_wave(44100, vec![1, -2, 3]);
    wave.make_stereo();
    wave.make_stereo();
    assert_eq!(wave.channels, 2);
    assert_eq!(wave.data, vec![1, 1, -2, -2, 3, 3]);
}

#[test]
fn stereo_upmix_doubles_chunk_size() {
    // After upmixing, chunk_size = 2 * 2 * 1000 / 1000 = 4.
    let mut wave = mono_wave(1000, vec![1, 2, 3]);
    wave.make_stereo();
    let (mut buffer, mut chunks) = wave.chunk_ms(2, false);
    assert_eq!(chunks.next(&mut buffer), Some(8));
    assert_eq!(audiostream::decode_samples(&buffer[..8]), vec![1, 1, 2, 2]);
    assert_eq!(chunks.next(&mut buffer), Some(4));
    assert_eq!(audiostream::decode_samples(&buffer[..4]), vec![3, 3]);
    assert_eq!(chunks.next(&mut buffer), None);
}

#[test]
fn new_chunker_directly() {
    let mut chunks = WaveChunks::new(vec![7, 8], 1, false);
    let mut buffer = Vec::new();
    assert_eq!(chunks.next(&mut buffer), Some(2));
    assert_eq!(&buffer[..2], &[0, 7]);
    assert_eq!(chunks.next(&mut buffer), Some(2));
    assert_eq!(&buffer[..2], &[0, 8]);
    assert_eq!(chunks.next(&mut buffer), None);
}
