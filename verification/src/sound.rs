//! The deterrents and their framing as WAV files.
//!
//! The sounds themselves are synthesized in floating point by the program;
//! this module picks how loud each may be and frames the 16-bit samples as
//! a mono PCM WAV file.
use vstd::prelude::*;

verus! {

pub const SAMPLE_RATE: u32 = 44_100;

#[derive(Clone, Copy, Debug, Default, PartialEq, Eq, Structural)]
pub enum Sound {
    /// The harmonica PawSense has used since 1999.
    #[default]
    Harmonica,
    /// A cat's hiss: a short spit, then breath that flutters and fades.
    Hiss,
    /// Two bursts from a can of compressed air.
    Spray,
    /// A tone that jumps between 15 and 17.5 kHz.
    Whistle,
}

impl Sound {
    /// Every sound, in the order the settings list them.
    pub fn all() -> (r: [Sound; 4])
        ensures
            r@ == seq![Sound::Harmonica, Sound::Hiss, Sound::Spray, Sound::Whistle],
    {
        let r = [Sound::Harmonica, Sound::Hiss, Sound::Spray, Sound::Whistle];
        assert(r@ =~= seq![Sound::Harmonica, Sound::Hiss, Sound::Spray, Sound::Whistle]);
        r
    }

    /// How loud the sound peaks, in percent of full scale. The whistle sits
    /// where ears are most easily annoyed and speakers distort first, so it
    /// stays lower.
    pub fn peak_percent(self) -> (r: u32)
        ensures
            r == if self == Sound::Whistle {
                50u32
            } else {
                90u32
            },
    {
        match self {
            Sound::Whistle => 50,
            _ => 90,
        }
    }
}

/// `x` as two bytes, least significant first.
pub open spec fn le16(x: u16) -> Seq<u8> {
    seq![(x % 256) as u8, (x / 256) as u8]
}

/// `x` as four bytes, least significant first.
pub open spec fn le32(x: u32) -> Seq<u8> {
    seq![(x % 256) as u8, (x / 256 % 256) as u8, (x / 65536 % 256) as u8, (x / 16777216) as u8]
}

/// The 44 bytes before the samples of a mono 16-bit PCM WAV file at
/// [`SAMPLE_RATE`] that holds `n` samples.
pub open spec fn wav_header(n: nat) -> Seq<u8> {
    seq![0x52u8, 0x49, 0x46, 0x46] + le32((36 + 2 * n) as u32) + seq![
        0x57u8,
        0x41,
        0x56,
        0x45,
        0x66,
        0x6D,
        0x74,
        0x20,
    ] + le32(16) + le16(1) + le16(1) + le32(SAMPLE_RATE) + le32(88_200u32) + le16(2) + le16(16)
        + seq![0x64u8, 0x61, 0x74, 0x61] + le32((2 * n) as u32)
}

/// The samples, each as two bytes, least significant first.
pub open spec fn pcm_bytes(pcm: Seq<i16>) -> Seq<u8>
    decreases pcm.len(),
{
    if pcm.len() == 0 {
        Seq::empty()
    } else {
        pcm_bytes(pcm.drop_last()) + le16(pcm.last() as u16)
    }
}

proof fn lemma_pcm_bytes_len(pcm: Seq<i16>)
    ensures
        pcm_bytes(pcm).len() == 2 * pcm.len(),
    decreases pcm.len(),
{
    if pcm.len() > 0 {
        lemma_pcm_bytes_len(pcm.drop_last());
    }
}

fn push_le16(v: &mut Vec<u8>, x: u16)
    ensures
        final(v)@ == old(v)@ + le16(x),
{
    v.push((x % 256) as u8);
    v.push((x / 256) as u8);
    assert(final(v)@ =~= old(v)@ + le16(x));
}

fn push_le32(v: &mut Vec<u8>, x: u32)
    ensures
        final(v)@ == old(v)@ + le32(x),
{
    v.push((x % 256) as u8);
    v.push((x / 256 % 256) as u8);
    v.push((x / 65536 % 256) as u8);
    v.push((x / 16777216) as u8);
    assert(final(v)@ =~= old(v)@ + le32(x));
}

fn push_bytes4(v: &mut Vec<u8>, a: u8, b: u8, c: u8, d: u8)
    ensures
        final(v)@ == old(v)@ + seq![a, b, c, d],
{
    v.push(a);
    v.push(b);
    v.push(c);
    v.push(d);
    assert(final(v)@ =~= old(v)@ + seq![a, b, c, d]);
}

/// The samples as a mono 16-bit PCM WAV file at [`SAMPLE_RATE`].
pub fn wav_from_pcm(pcm: &[i16]) -> (r: Vec<u8>)
    requires
        36 + 2 * pcm@.len() <= u32::MAX,
    ensures
        r@ == wav_header(pcm@.len()) + pcm_bytes(pcm@),
{
    let data_len: u32 = (pcm.len() * 2) as u32;
    let mut wav: Vec<u8> = Vec::new();
    push_bytes4(&mut wav, 0x52, 0x49, 0x46, 0x46);  // RIFF
    push_le32(&mut wav, 36 + data_len);
    push_bytes4(&mut wav, 0x57, 0x41, 0x56, 0x45);  // WAVE
    push_bytes4(&mut wav, 0x66, 0x6D, 0x74, 0x20);  // "fmt "
    push_le32(&mut wav, 16);
    push_le16(&mut wav, 1);  // PCM
    push_le16(&mut wav, 1);  // mono
    push_le32(&mut wav, SAMPLE_RATE);
    push_le32(&mut wav, SAMPLE_RATE * 2);  // bytes per second
    push_le16(&mut wav, 2);  // bytes per frame
    push_le16(&mut wav, 16);  // bits per sample
    push_bytes4(&mut wav, 0x64, 0x61, 0x74, 0x61);  // data
    push_le32(&mut wav, data_len);
    let ghost header = wav@;
    assert(header =~= wav_header(pcm@.len()));
    let mut i: usize = 0;
    while i < pcm.len()
        invariant
            i <= pcm@.len(),
            header == wav_header(pcm@.len()),
            wav@ == header + pcm_bytes(pcm@.take(i as int)),
        decreases pcm@.len() - i,
    {
        assert(pcm@.take(i + 1).drop_last() =~= pcm@.take(i as int));
        push_le16(&mut wav, pcm[i] as u16);
        assert(wav@ =~= header + pcm_bytes(pcm@.take(i + 1)));
        i = i + 1;
    }
    assert(pcm@.take(pcm@.len() as int) =~= pcm@);
    wav
}

/// The two sizes a WAV file states about itself are right: the RIFF size
/// counts every byte after the first eight, the data size every byte after
/// the header.
pub proof fn law_wav_sizes(pcm: Seq<i16>)
    requires
        36 + 2 * pcm.len() <= u32::MAX,
    ensures
        ({
            let wav = wav_header(pcm.len()) + pcm_bytes(pcm);
            &&& wav.len() == 44 + 2 * pcm.len()
            &&& wav.subrange(0, 4) == seq![0x52u8, 0x49, 0x46, 0x46]
            &&& wav.subrange(4, 8) == le32((wav.len() - 8) as u32)
            &&& wav.subrange(40, 44) == le32((wav.len() - 44) as u32)
            &&& wav.subrange(44, wav.len() as int) == pcm_bytes(pcm)
        }),
{
    lemma_pcm_bytes_len(pcm);
    let h = wav_header(pcm.len());
    let wav = h + pcm_bytes(pcm);
    assert(h.len() == 44);
    assert(wav.subrange(0, 4) =~= seq![0x52u8, 0x49, 0x46, 0x46]);
    assert(wav.subrange(4, 8) =~= le32((36 + 2 * pcm.len()) as u32));
    assert(wav.subrange(40, 44) =~= le32((2 * pcm.len()) as u32));
    assert(wav.subrange(44, wav.len() as int) =~= pcm_bytes(pcm));
}

} // verus!
