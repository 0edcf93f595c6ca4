use catguard::sound::{wav_from_pcm, Sound, SAMPLE_RATE};

#[test]
fn the_whistle_stays_lower_than_the_rest() {
    assert_eq!(Sound::Whistle.peak_percent(), 50);
    for sound in [Sound::Harmonica, Sound::Hiss, Sound::Spray] {
        assert_eq!(sound.peak_percent(), 90);
    }
    assert_eq!(Sound::all(), [Sound::Harmonica, Sound::Hiss, Sound::Spray, Sound::Whistle]);
    assert_eq!(Sound::default(), Sound::Harmonica);
}

#[test]
fn a_wav_states_its_sizes() {
    let pcm: Vec<i16> = (0..1000).map(|i| (i * 31 % 2000 - 1000) as i16).collect();
    let wav = wav_from_pcm(&pcm);
    assert_eq!(&wav[0..4], b"RIFF");
    assert_eq!(&wav[8..16], b"WAVEfmt ");
    assert_eq!(&wav[36..40], b"data");
    assert_eq!(u32::from_le_bytes(wav[4..8].try_into().unwrap()) as usize, wav.len() - 8);
    assert_eq!(u32::from_le_bytes(wav[40..44].try_into().unwrap()) as usize, wav.len() - 44);
    assert_eq!(u32::from_le_bytes(wav[24..28].try_into().unwrap()), SAMPLE_RATE);
    assert_eq!(u32::from_le_bytes(wav[28..32].try_into().unwrap()), 2 * SAMPLE_RATE);
    assert_eq!(u16::from_le_bytes([wav[20], wav[21]]), 1);
    assert_eq!(u16::from_le_bytes([wav[22], wav[23]]), 1);
    assert_eq!(u16::from_le_bytes([wav[34], wav[35]]), 16);
    let back: Vec<i16> = wav[44..].chunks_exact(2).map(|b| i16::from_le_bytes([b[0], b[1]])).collect();
    assert_eq!(back, pcm);
}

#[test]
fn an_empty_wav_is_just_its_header() {
    let wav = wav_from_pcm(&[]);
    assert_eq!(wav.len(), 44);
    assert_eq!(u32::from_le_bytes(wav[4..8].try_into().unwrap()), 36);
}

#[test]
fn negative_samples_are_twos_complement() {
    let wav = wav_from_pcm(&[-1, i16::MIN, i16::MAX]);
    assert_eq!(&wav[44..], &[0xFF, 0xFF, 0x00, 0x80, 0xFF, 0x7F]);
}
