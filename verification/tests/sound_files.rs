use yuri::wav::{write_wav, WavError};

#[test]
fn no_samples_no_file() {
    assert_eq!(write_wav(&[], 22050), Err(WavError::NoSamples));
    assert_eq!(write_wav(&[], 0), Err(WavError::NoSamples));
}

#[test]
fn whole_file() {
    let bytes = write_wav(&[1, -1, i16::MIN], 22050).unwrap();
    let mut expected = Vec::new();
    expected.extend_from_slice(b"RIFF");
    expected.extend_from_slice(&42u32.to_le_bytes());
    expected.extend_from_slice(b"WAVEfmt ");
    expected.extend_from_slice(&16u32.to_le_bytes());
    expected.extend_from_slice(&1u16.to_le_bytes());
    expected.extend_from_slice(&1u16.to_le_bytes());
    expected.extend_from_slice(&22050u32.to_le_bytes());
    expected.extend_from_slice(&44100u32.to_le_bytes());
    expected.extend_from_slice(&2u16.to_le_bytes());
    expected.extend_from_slice(&16u16.to_le_bytes());
    expected.extend_from_slice(b"data");
    expected.extend_from_slice(&6u32.to_le_bytes());
    expected.extend_from_slice(&[1, 0, 0xFF, 0xFF, 0x00, 0x80]);
    assert_eq!(bytes, expected);
}

#[test]
fn samples_are_kept() {
    let samples: Vec<i16> = (0..1000).map(|i| (i * 65 - 32000) as i16).collect();
    let bytes = write_wav(&samples, 8000).unwrap();
    let mut reader = hound::WavReader::new(std::io::Cursor::new(bytes)).unwrap();
    assert_eq!(reader.spec().sample_rate, 8000);
    assert_eq!(reader.spec().channels, 1);
    let read: Vec<i16> = reader.samples::<i16>().map(|s| s.unwrap()).collect();
    assert_eq!(read, samples);
}

#[test]
fn rates_that_do_not_fit() {
    assert_eq!(write_wav(&[1], 0), Err(WavError::OutOfRange));
    assert_eq!(write_wav(&[1], 0x8000_0000), Err(WavError::OutOfRange));
    assert!(write_wav(&[1], 0x7FFF_FFFF).is_ok());
}
