//! The output container: uncompressed PCM in a RIFF WAVE file.

use vstd::prelude::*;

verus! {

/// Bytes of a file before the first sample.
pub const HEADER_LEN: usize = 44;

/// Most samples a file can hold: sizes in its header are 32-bit byte counts.
pub const MAX_SAMPLES: usize = 0x7fff_ffed;

#[verifier::external_type_specification]
#[verifier::external_body]
pub struct ExWavError(hound::Error);

/// The two bytes of a 16-bit number, low byte first.
pub open spec fn le16(x: int) -> Seq<u8> {
    seq![(x % 256) as u8, (x / 256 % 256) as u8]
}

/// The four bytes of a 32-bit number, low byte first.
pub open spec fn le32(x: int) -> Seq<u8> {
    seq![
        (x % 256) as u8,
        (x / 256 % 256) as u8,
        (x / 65536 % 256) as u8,
        (x / 16777216 % 256) as u8,
    ]
}

/// The bytes of `samples`, two per sample in two's complement, low byte first.
pub open spec fn sample_bytes(samples: Seq<i16>) -> Seq<u8> {
    Seq::new(
        2 * samples.len(),
        |i: int|
            {
                let s = samples[i / 2] as int;
                let u = if s < 0 {
                    s + 65536
                } else {
                    s
                };
                if i % 2 == 0 {
                    (u % 256) as u8
                } else {
                    (u / 256) as u8
                }
            },
    )
}

/// The header of a file of 16-bit integer samples: the RIFF chunk with the size
/// of what follows it, the format chunk in its 16-byte PCM form, and the head of
/// the data chunk with the size of the samples.
pub open spec fn wav_header(channels: int, sample_rate: int, bits: int, data_len: int) -> Seq<u8> {
    seq![0x52u8, 0x49, 0x46, 0x46] + le32(data_len + 36) + seq![0x57u8, 0x41, 0x56, 0x45]
        + seq![0x66u8, 0x6d, 0x74, 0x20] + le32(16) + le16(1) + le16(channels) + le32(sample_rate)
        + le32(sample_rate * (bits / 8) * channels) + le16((bits / 8) * channels) + le16(bits)
        + seq![0x64u8, 0x61, 0x74, 0x61] + le32(data_len)
}

/// The whole file for `samples`.
pub open spec fn wav_image(channels: int, sample_rate: int, bits: int, samples: Seq<i16>) -> Seq<
    u8,
> {
    wav_header(channels, sample_rate, bits, 2 * samples.len() as int) + sample_bytes(samples)
}

/// A file is its 44-byte header and two bytes per sample, and its header
/// names the format: the channels at bytes 22 and 23, the sample rate at
/// bytes 24 to 27, the bits per sample at bytes 34 and 35.
pub proof fn lemma_wav_layout(channels: int, sample_rate: int, bits: int, samples: Seq<i16>)
    ensures
        ({
            let image = wav_image(channels, sample_rate, bits, samples);
            &&& image.len() == HEADER_LEN + 2 * samples.len()
            &&& image.subrange(0, 4) == seq![0x52u8, 0x49, 0x46, 0x46]
            &&& image.subrange(8, 16) == seq![0x57u8, 0x41, 0x56, 0x45, 0x66, 0x6d, 0x74, 0x20]
            &&& image.subrange(20, 22) == le16(1)
            &&& image.subrange(22, 24) == le16(channels)
            &&& image.subrange(24, 28) == le32(sample_rate)
            &&& image.subrange(34, 36) == le16(bits)
            &&& image.subrange(36, 40) == seq![0x64u8, 0x61, 0x74, 0x61]
            &&& image.subrange(40, 44) == le32(2 * samples.len() as int)
            &&& image.subrange(HEADER_LEN as int, image.len() as int) == sample_bytes(samples)
        }),
{
    let image = wav_image(channels, sample_rate, bits, samples);
    let header = wav_header(channels, sample_rate, bits, 2 * samples.len() as int);
    assert(header.len() == HEADER_LEN);
    assert(image.subrange(0, 4) =~= seq![0x52u8, 0x49, 0x46, 0x46]);
    assert(image.subrange(8, 16) =~= seq![0x57u8, 0x41, 0x56, 0x45, 0x66, 0x6d, 0x74, 0x20]);
    assert(image.subrange(20, 22) =~= le16(1));
    assert(image.subrange(22, 24) =~= le16(channels));
    assert(image.subrange(24, 28) =~= le32(sample_rate));
    assert(image.subrange(34, 36) =~= le16(bits));
    assert(image.subrange(36, 40) =~= seq![0x64u8, 0x61, 0x74, 0x61]);
    assert(image.subrange(40, 44) =~= le32(2 * samples.len() as int));
    assert(image.subrange(HEADER_LEN as int, image.len() as int) =~= sample_bytes(samples));
}

/// The header of a file of 16-bit mono samples at 22050 Hz says so: format 1
/// and one channel at bytes 20 to 23, 22050 at bytes 24 to 27, 16 at bytes 34 and 35.
pub proof fn lemma_mono_header(samples: Seq<i16>)
    ensures
        ({
            let image = wav_image(1, 22050, 16, samples);
            &&& image.len() == HEADER_LEN + 2 * samples.len()
            &&& image.subrange(20, 24) == seq![1u8, 0, 1, 0]
            &&& image.subrange(24, 28) == seq![0x22u8, 0x56, 0, 0]
            &&& image.subrange(34, 36) == seq![16u8, 0]
        }),
{
    let image = wav_image(1, 22050, 16, samples);
    lemma_wav_layout(1, 22050, 16, samples);
    assert(image.subrange(20, 24) =~= image.subrange(20, 22) + image.subrange(22, 24));
    assert(image.subrange(20, 24) =~= seq![1u8, 0, 1, 0]);
    assert(image.subrange(24, 28) =~= seq![0x22u8, 0x56, 0, 0]);
    assert(image.subrange(34, 36) =~= seq![16u8, 0]);
}

/// `hound::WavWriter`, over a cursor on a vector: `new`, then `write_sample`
/// for each sample in order, then `finalize`. For 16-bit integer samples on at
/// most two channels the writer puts out the 44-byte header with a PCM format
/// chunk, then each sample as two bytes, and `finalize` fills in the two sizes.
/// It fails in one case only: `finalize` refuses a number of samples that is
/// no multiple of the number of channels. `new` accepts 16 bits, a 16-bit
/// sample written in two bytes cannot be too wide, and a cursor on a vector
/// has no failing write or seek. The sizes asked for are those that the
/// writer's 32-bit counters can hold.
#[verifier::external_body]
pub(crate) fn encode_wav(channels: u16, sample_rate: u32, bits: u16, samples: &Vec<i16>) -> (r:
    Result<Vec<u8>, hound::Error>)
    requires
        1 <= channels <= 2,
        bits == 16,
        1 <= sample_rate,
        sample_rate * 2 * channels <= u32::MAX,
        samples@.len() <= MAX_SAMPLES,
    ensures
        r is Ok <==> samples@.len() as int % (channels as int) == 0,
        r matches Ok(bytes) ==> bytes@ == wav_image(
            channels as int,
            sample_rate as int,
            bits as int,
            samples@,
        ),
{
    let spec = hound::WavSpec {
        channels,
        sample_rate,
        bits_per_sample: bits,
        sample_format: hound::SampleFormat::Int,
    };
    let mut cursor = std::io::Cursor::new(Vec::new());
    let mut writer = hound::WavWriter::new(&mut cursor, spec)?;
    for sample in samples.iter() {
        writer.write_sample(*sample)?;
    }
    writer.finalize()?;
    Ok(cursor.into_inner())
}

} // verus!
