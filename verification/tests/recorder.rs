use std::io::Cursor;

use audiostream::{Recorder, RecorderMessage, RecorderState};

#[test]
fn accumulates_batches_in_arrival_order() {
    let mut recorder = Recorder::new(44100);
    assert!(recorder.listen(RecorderMessage::Incoming(vec![1, 2, 3])));
    assert!(recorder.listen(RecorderMessage::Incoming(vec![])));
    assert!(recorder.listen(RecorderMessage::Incoming(vec![4, 5])));
    assert_eq!(recorder.recording, vec![1, 2, 3, 4, 5]);
    assert_eq!(recorder.state, RecorderState::Listening);
}

#[test]
fn just_exit_stops_without_saving() {
    let mut recorder = Recorder::new(44100);
    assert!(recorder.listen(RecorderMessage::Incoming(vec![9])));
    assert!(!recorder.listen(RecorderMessage::JustExit));
    assert_eq!(recorder.state, RecorderState::Stopped);
    assert_eq!(recorder.recording, vec![9]);
}

#[test]
fn save_and_exit_round_trips_through_wav() {
    // The saved container must decode back to exactly the accumulated
    // samples, in order, with the configured layout.
    let mut recorder = Recorder::new(44100);
    assert!(recorder.listen(RecorderMessage::Incoming(vec![100, -200, 300])));
    assert!(recorder.listen(RecorderMessage::Incoming(vec![i16::MIN, i16::MAX, 0])));
    assert!(!recorder.listen(RecorderMessage::SaveAndExit));
    assert_eq!(recorder.state, RecorderState::Saving);

    let bytes = recorder.save().expect("in-memory save cannot fail");
    assert_eq!(recorder.state, RecorderState::Stopped);

    let mut reader = hound::WavReader::new(Cursor::new(bytes)).expect("saved bytes are valid WAV");
    let spec = reader.spec();
    assert_eq!(spec.channels, 2);
    assert_eq!(spec.sample_rate, 44100);
    assert_eq!(spec.bits_per_sample, 16);
    assert_eq!(spec.sample_format, hound::SampleFormat::Int);

    let decoded: Vec<i16> = reader.samples::<i16>().map(|s| s.unwrap()).collect();
    assert_eq!(decoded, vec![100, -200, 300, i16::MIN, i16::MAX, 0]);
}

#[test]
fn save_writes_an_odd_sample_count_in_full() {
    // Odd-length datagrams make the stereo recording's sample count odd (a
    // 7-byte datagram decodes to 3 samples). Saving still writes every
    // sample and the final header: a 44-byte header whose data-chunk length
    // field counts all 6 data bytes, then the samples, little-endian.
    let mut recorder = Recorder::new(44100);
    assert!(recorder.listen(RecorderMessage::Incoming(vec![100, 200, 300])));
    assert!(!recorder.listen(RecorderMessage::SaveAndExit));

    let bytes = recorder.save().expect("save completes for any recording that fits");
    assert_eq!(bytes.len(), 44 + 6);
    assert_eq!(&bytes[40..44], &[6, 0, 0, 0]);
    assert_eq!(&bytes[44..], &[100, 0, 200, 0, 44, 1]);
}

#[test]
fn save_of_empty_recording_is_an_empty_wav() {
    let mut recorder = Recorder::new(8000);
    assert!(!recorder.listen(RecorderMessage::SaveAndExit));
    let bytes = recorder.save().expect("in-memory save cannot fail");

    let mut reader = hound::WavReader::new(Cursor::new(bytes)).expect("saved bytes are valid WAV");
    assert_eq!(reader.spec().sample_rate, 8000);
    assert_eq!(reader.samples::<i16>().count(), 0);
}
