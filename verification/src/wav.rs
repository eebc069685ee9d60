//! Samples as a WAV file: 16-bit PCM, mono. Writing the format is the work of
//! `hound`.

use crate::dispatch;
use crate::memory;
use crate::num;
use vstd::prelude::*;

verus! {

/// The number of channels.
pub const CHANNELS: u16 = 1;

/// The bits of a sample.
pub const SAMPLE_BITS: u16 = 16;

/// The size of what stands before the samples.
pub const HEADER_SIZE: usize = 44;

/// Why there is no WAV file.
#[derive(Debug, Clone, Copy, PartialEq, Eq, Structural)]
pub enum WavError {
    /// There are no samples to write.
    NoSamples,
    /// The rate is zero, or the rate or the number of samples is too large for
    /// the format.
    OutOfRange,
}

/// What a WAV file holds.
pub struct Sound {
    pub channels: int,
    pub rate: int,
    pub bits: int,
    pub samples: Seq<i16>,
}

/// The bytes of samples, the low byte of each first.
pub open spec fn sample_bytes(samples: Seq<i16>) -> Seq<u8> {
    Seq::new(
        samples.len() * 2,
        |i: int| memory::le16(num::unsigned16(samples[i / 2] as int))[i % 2],
    )
}

/// What stands before `size` bytes of samples.
pub open spec fn header(channels: int, rate: int, bits: int, size: int) -> Seq<u8> {
    seq![0x52u8, 0x49u8, 0x46u8, 0x46u8] + memory::le32(36 + size) + seq![
        0x57u8,
        0x41u8,
        0x56u8,
        0x45u8,
        0x66u8,
        0x6Du8,
        0x74u8,
        0x20u8,
    ] + memory::le32(16) + memory::le16(1) + memory::le16(channels) + memory::le32(rate)
        + memory::le32(rate * channels * bits / 8) + memory::le16(channels * bits / 8)
        + memory::le16(bits) + seq![0x64u8, 0x61u8, 0x74u8, 0x61u8] + memory::le32(size)
}

/// The WAV file of samples in a given format.
pub open spec fn wav_bytes(channels: u16, rate: u32, bits: u16, samples: Seq<i16>) -> Seq<u8> {
    header(channels as int, rate as int, bits as int, 2 * samples.len() as int) + sample_bytes(
        samples,
    )
}

/// The WAV file of samples.
pub open spec fn wav_file(samples: Seq<i16>, rate: u32) -> Seq<u8> {
    wav_bytes(CHANNELS, rate, SAMPLE_BITS, samples)
}

/// Calls `hound::WavWriter::new` on memory, `write_sample` for each sample,
/// and `finalize`. For one channel of 16 bits none of these fails, and they
/// write the 44 bytes of a PCM header and the samples. A rate of zero would
/// divide by zero, and a rate or a number of samples whose bytes are no 32-bit
/// number would overflow.
#[verifier::external_body]
fn encode(channels: u16, rate: u32, bits: u16, samples: &[i16]) -> (r: Option<Vec<u8>>)
    requires
        channels == 1,
        bits == 16,
        0 < rate,
        2 * rate <= u32::MAX,
        2 * samples@.len() + 36 <= u32::MAX,
    ensures
        r is Some,
        r matches Some(bytes) ==> bytes@ == wav_bytes(channels, rate, bits, samples@),
{
    let sample_format = hound::SampleFormat::Int;
    let spec = hound::WavSpec { channels, sample_rate: rate, bits_per_sample: bits, sample_format };
    let mut out = std::io::Cursor::new(Vec::new());
    let mut writer = hound::WavWriter::new(&mut out, spec).ok()?;
    for &sample in samples {
        writer.write_sample(sample).ok()?;
    }
    writer.finalize().ok()?;
    Some(out.into_inner())
}

/// The rate and the number of bytes of `count` samples are such that the
/// 32-bit fields of the format hold them.
pub open spec fn in_range(count: int, rate: u32) -> bool {
    &&& 0 < rate
    &&& 2 * rate <= u32::MAX
    &&& 2 * count + 36 <= u32::MAX
}

/// The 16-bit number at address `at`.
pub open spec fn number16(file: Seq<u8>, at: int) -> int {
    file[at] + 256 * file[at + 1]
}

/// The 32-bit number at address `at`.
pub open spec fn number32(file: Seq<u8>, at: int) -> int {
    file[at] + 256 * file[at + 1] + 65536 * file[at + 2] + 16777216 * file[at + 3]
}

/// What a WAV file with a PCM header holds: integer samples of 16 bits, as many
/// as the header says. None where it is no such file.
pub open spec fn read_wav(file: Seq<u8>) -> Option<Sound> {
    let size = number32(file, 40);
    if file.len() >= HEADER_SIZE && file.take(4) == seq![0x52u8, 0x49u8, 0x46u8, 0x46u8]
        && number32(file, 4) == file.len() - 8 && file.subrange(8, 16) == seq![
        0x57u8,
        0x41u8,
        0x56u8,
        0x45u8,
        0x66u8,
        0x6Du8,
        0x74u8,
        0x20u8,
    ] && number32(file, 16) == 16 && number16(file, 20) == 1 && file.subrange(36, 40) == seq![
        0x64u8,
        0x61u8,
        0x74u8,
        0x61u8,
    ] && file.len() == HEADER_SIZE + size && size % 2 == 0 {
        Some(
            Sound {
                channels: number16(file, 22),
                rate: number32(file, 24),
                bits: number16(file, 34),
                samples: dispatch::samples_at(file, HEADER_SIZE as int, size / 2),
            },
        )
    } else {
        None
    }
}

/// The WAV file of samples; without samples there is none. Read back, it holds
/// exactly these samples, in one channel of 16 bits and at the given rate.
pub fn write_wav(samples: &[i16], sample_rate: u32) -> (r: Result<Vec<u8>, WavError>)
    ensures
        r == Err::<Vec<u8>, WavError>(WavError::NoSamples) <==> samples@.len() == 0,
        r == Err::<Vec<u8>, WavError>(WavError::OutOfRange) <==> samples@.len() > 0 && !in_range(
            samples@.len() as int,
            sample_rate,
        ),
        r matches Ok(bytes) ==> bytes@ == wav_file(samples@, sample_rate),
        r matches Ok(bytes) ==> read_wav(bytes@) == Some(
            Sound {
                channels: 1,
                rate: sample_rate as int,
                bits: 16,
                samples: samples@,
            },
        ),
{
    let size: usize = samples.len();
    if size == 0 {
        return Err(WavError::NoSamples);
    }
    if sample_rate == 0 || sample_rate > u32::MAX / 2 || size as u64 > (u32::MAX as u64 - 36) / 2 {
        return Err(WavError::OutOfRange);
    }
    proof {
        law_read_back(samples@, sample_rate);
    }
    match encode(CHANNELS, sample_rate, SAMPLE_BITS, samples) {
        Some(bytes) => Ok(bytes),
        None => Err(WavError::OutOfRange),
    }
}

/// Two bytes of a sample give the sample back.
proof fn lemma_sample_bytes(v: i16)
    ensures
        ({
            let b = memory::le16(num::unsigned16(v as int));
            num::signed16(b[0] + 256 * b[1]) == v
        }),
{
}

/// The samples stand in the file as they were, behind the header.
pub proof fn law_samples_kept(samples: Seq<i16>, rate: u32)
    ensures
        wav_file(samples, rate).len() == HEADER_SIZE + 2 * samples.len(),
        dispatch::samples_at(wav_file(samples, rate), HEADER_SIZE as int, samples.len() as int)
            == samples,
{
    let file = wav_file(samples, rate);
    let head = header(
        CHANNELS as int,
        rate as int,
        SAMPLE_BITS as int,
        2 * samples.len() as int,
    );
    assert(head.len() == 44);
    assert forall|i: int| 0 <= i < samples.len() implies dispatch::samples_at(
        file,
        44,
        samples.len() as int,
    )[i] == samples[i] by {
        assert(file[44 + 2 * i] == sample_bytes(samples)[2 * i]);
        assert(file[44 + 2 * i + 1] == sample_bytes(samples)[2 * i + 1]);
        lemma_sample_bytes(samples[i]);
    }
    assert(dispatch::samples_at(file, 44, samples.len() as int) =~= samples);
}

/// A WAV file that was written holds what was written.
pub proof fn law_read_back(samples: Seq<i16>, rate: u32)
    requires
        in_range(samples.len() as int, rate),
    ensures
        read_wav(wav_file(samples, rate)) == Some(
            Sound { channels: 1, rate: rate as int, bits: 16, samples },
        ),
{
    let file = wav_file(samples, rate);
    let size = 2 * samples.len() as int;
    law_samples_kept(samples, rate);
    memory::lemma_le32_value(36 + size);
    memory::lemma_le32_value(16);
    memory::lemma_le32_value(rate as int);
    memory::lemma_le32_value(size);
    let parts = header(CHANNELS as int, rate as int, SAMPLE_BITS as int, size);
    assert(parts.len() == 44);
    assert(forall|i: int| 0 <= i < 44 ==> file[i] == #[trigger] parts[i]);
    assert(parts.subrange(4, 8) =~= memory::le32(36 + size));
    assert(parts.subrange(16, 20) =~= memory::le32(16));
    assert(parts.subrange(24, 28) =~= memory::le32(rate as int));
    assert(parts.subrange(40, 44) =~= memory::le32(size));
    assert forall|at: int, v: int|
        0 <= at <= 40 && #[trigger] parts.subrange(at, at + 4) == #[trigger] memory::le32(v) implies {
        &&& file[at] == memory::le32(v)[0]
        &&& file[at + 1] == memory::le32(v)[1]
        &&& file[at + 2] == memory::le32(v)[2]
        &&& file[at + 3] == memory::le32(v)[3]
    } by {
        let four = parts.subrange(at, at + 4);
        assert(four[0] == parts[at] && four[1] == parts[at + 1]);
        assert(four[2] == parts[at + 2] && four[3] == parts[at + 3]);
    }
    assert(number32(file, 4) == 36 + size);
    assert(number32(file, 16) == 16);
    assert(number32(file, 24) == rate);
    assert(number32(file, 40) == size);
    assert(parts.subrange(20, 22) =~= memory::le16(1));
    assert(parts[20] == parts.subrange(20, 22)[0] && parts[21] == parts.subrange(20, 22)[1]);
    assert(parts.subrange(22, 24) =~= memory::le16(1));
    assert(parts[22] == parts.subrange(22, 24)[0] && parts[23] == parts.subrange(22, 24)[1]);
    assert(parts.subrange(34, 36) =~= memory::le16(16));
    assert(parts[34] == parts.subrange(34, 36)[0] && parts[35] == parts.subrange(34, 36)[1]);
    assert(number16(file, 20) == 1);
    assert(number16(file, 22) == 1);
    assert(number16(file, 34) == 16);
    assert(file.take(4) =~= seq![0x52u8, 0x49u8, 0x46u8, 0x46u8]);
    assert(file.subrange(8, 16) =~= seq![
        0x57u8,
        0x41u8,
        0x56u8,
        0x45u8,
        0x66u8,
        0x6Du8,
        0x74u8,
        0x20u8,
    ]);
    assert(file.subrange(36, 40) =~= seq![0x64u8, 0x61u8, 0x74u8, 0x61u8]);
}

} // verus!
