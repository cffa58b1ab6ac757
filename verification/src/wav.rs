//! Audio in WAV files: reading it, writing it, and merging the audio of several
//! files into one.

use vstd::prelude::*;

use crate::errors::Failure;

verus! {

broadcast use vstd::string::group_string_axioms;

/// How the samples of a WAV file are stored.
#[derive(Clone, Copy, Debug, PartialEq, Eq, Structural)]
pub enum SampleFormat {
    Float,
    Int,
}

/// The format of a WAV file.
#[derive(Clone, Copy, Debug, PartialEq, Eq, Structural)]
pub struct WavFormat {
    pub channels: u16,
    /// The number of samples of a channel in a second.
    pub sample_rate: u32,
    pub bits_per_sample: u16,
    pub sample_format: SampleFormat,
}

/// What the header of a WAV file says.
#[derive(Clone, Copy, Debug, PartialEq, Eq, Structural)]
pub struct WavHeader {
    pub format: WavFormat,
    /// The number of samples of each channel.
    pub duration: u32,
}

/// A WAV file: where it stands, and what it holds if it can be read.
pub struct WavFile {
    pub path: String,
    pub bytes: Option<Vec<u8>>,
}

/// The audio of several WAV files in one.
pub enum Merged {
    /// The bytes of a WAV file.
    Ints(Vec<u8>),
    /// The first file holds floating-point samples, which are not merged here.
    Floats,
}

// ---------------------------------------------------------------------------
// Limits
// ---------------------------------------------------------------------------

/// The sizes of a sample, in bits, in which a WAV file can be written.
pub open spec fn is_depth(bits: int) -> bool {
    bits == 8 || bits == 16 || bits == 24 || bits == 32
}

/// The number of bytes that hold a number of bits.
pub open spec fn width(bits: int) -> int {
    (bits + 7) / 8
}

/// The sample fits in the number of bits.
pub open spec fn fits(sample: i32, bits: int) -> bool {
    if bits == 8 {
        -128 <= sample <= 127
    } else if bits == 16 {
        -32_768 <= sample <= 32_767
    } else if bits == 24 {
        -8_388_608 <= sample <= 8_388_607
    } else {
        bits == 32
    }
}

/// All samples fit in the number of bits.
pub open spec fn all_fit(samples: Seq<i32>, bits: int) -> bool {
    forall|i: int| 0 <= i < samples.len() ==> fits(#[trigger] samples[i], bits)
}

/// A WAV file of this format can hold the samples: they have a size that can be
/// written, all of them fit in it, and each channel has as many of them as the
/// others.
pub open spec fn can_hold(format: WavFormat, samples: Seq<i32>) -> bool {
    &&& is_depth(format.bits_per_sample as int)
    &&& all_fit(samples, format.bits_per_sample as int)
    &&& samples.len() % (format.channels as nat) == 0
}

/// The numbers in the header of a WAV file of this format stay in range.
pub open spec fn is_playable(format: WavFormat) -> bool {
    &&& format.channels > 0
    &&& format.sample_rate > 0
    &&& format.sample_rate * width(format.bits_per_sample as int) * format.channels <= u32::MAX
}

/// The bytes in front of the samples that the header of a file counts along with
/// them. A header for more than two channels or more than 16 bits is longer.
pub open spec fn counted_header(format: WavFormat) -> int {
    if format.channels > 2 || format.bits_per_sample > 16 {
        60
    } else {
        36
    }
}

/// The bytes of this number of samples, and those of the header, can be
/// counted in the header.
pub open spec fn is_countable(format: WavFormat, len: int) -> bool {
    len * width(format.bits_per_sample as int) + counted_header(format) <= u32::MAX
}

/// The samples that belong together at one moment can be counted in the header.
pub open spec fn is_aligned(format: WavFormat) -> bool {
    width(format.bits_per_sample as int) * format.channels <= u16::MAX
}

/// The header of a file with so many samples.
pub open spec fn header_for(format: WavFormat, len: int) -> WavHeader {
    WavHeader { format, duration: (len / format.channels as int) as u32 }
}

// ---------------------------------------------------------------------------
// The WAV library
// ---------------------------------------------------------------------------

/// The error of the WAV library.
#[verifier::external_type_specification]
#[verifier::external_body]
pub struct ExWavError(hound::Error);

/// What `hound::WavReader` says of a file, if it can open it.
pub uninterp spec fn wav_header(bytes: Seq<u8>) -> Option<WavHeader>;

/// The samples that `hound::WavReader` finds in a file, if it can read all of
/// them as integers.
pub uninterp spec fn wav_samples(bytes: Seq<u8>) -> Option<Seq<i32>>;

/// The file that `hound::WavWriter` makes of samples.
pub uninterp spec fn wav_bytes(format: WavFormat, samples: Seq<i32>) -> Seq<u8>;

/// `hound::WavReader::new`, with `spec` and `duration` of the reader. What they
/// say of a file depends on its bytes alone. A file without channels is not
/// opened.
#[verifier::external_body]
fn read_header(bytes: &Vec<u8>) -> (r: Result<WavHeader, hound::Error>)
    ensures
        match r {
            Ok(header) => wav_header(bytes@) == Some(header) && header.format.channels > 0,
            Err(_) => wav_header(bytes@) is None,
        },
{
    let reader = hound::WavReader::new(std::io::Cursor::new(bytes.as_slice()))?;
    let found = reader.spec();
    let sample_format = match found.sample_format {
        hound::SampleFormat::Float => SampleFormat::Float,
        hound::SampleFormat::Int => SampleFormat::Int,
    };
    let format = WavFormat {
        channels: found.channels,
        sample_rate: found.sample_rate,
        bits_per_sample: found.bits_per_sample,
        sample_format,
    };
    Ok(WavHeader { format, duration: reader.duration() })
}

/// `hound::WavReader::into_samples`, on a new reader, with 32-bit samples. What
/// it yields depends on the bytes of the file alone. A file from which all
/// samples can be read as integers has a header, which counts them, and every
/// sample fits in the number of bits that the header names; where there is a
/// sample at all, the header can be written again.
#[verifier::external_body]
fn read_samples(bytes: &Vec<u8>) -> (r: Result<Vec<i32>, hound::Error>)
    ensures
        match r {
            Ok(samples) => {
                &&& wav_samples(bytes@) == Some(samples@)
                &&& wav_header(bytes@) matches Some(header)
                &&& samples@.len() == header.duration * header.format.channels
                &&& all_fit(samples@, header.format.bits_per_sample as int)
                &&& samples@.len() > 0 ==> is_aligned(header.format)
            },
            Err(_) => wav_samples(bytes@) is None,
        },
{
    hound::WavReader::new(std::io::Cursor::new(bytes.as_slice()))?.into_samples::<i32>().collect()
}

/// `hound::WavWriter::new`, with `write_sample` for each sample and then
/// `finalize`, on bytes in memory. It writes integer samples of 8, 16, 24 or 32
/// bits that fit, as long as each channel gets as many of them as the others,
/// and the bytes depend on the format and the samples alone. A reader finds in
/// them the format and the samples, as long as the header can tell how many
/// bytes belong together.
#[verifier::external_body]
fn write_wav(format: WavFormat, samples: &Vec<i32>) -> (r: Result<Vec<u8>, hound::Error>)
    requires
        format.sample_format is Int,
        0 < format.bits_per_sample <= 65_528,
        is_playable(format),
        is_countable(format, samples@.len() as int),
    ensures
        match r {
            Ok(bytes) => {
                &&& can_hold(format, samples@)
                &&& bytes@ == wav_bytes(format, samples@)
                &&& is_aligned(format) ==> wav_header(bytes@) == Some(
                    header_for(format, samples@.len() as int),
                )
                &&& is_aligned(format) ==> wav_samples(bytes@) == Some(samples@)
            },
            Err(_) => !can_hold(format, samples@),
        },
{
    let (channels, sample_rate) = (format.channels, format.sample_rate);
    let (bits_per_sample, sample_format) = (format.bits_per_sample, hound::SampleFormat::Int);
    let spec = hound::WavSpec { channels, sample_rate, bits_per_sample, sample_format };
    let mut bytes = Vec::new();
    let mut writer = hound::WavWriter::new(std::io::Cursor::new(&mut bytes), spec)?;
    for sample in samples {
        writer.write_sample(*sample)?;
    }
    writer.finalize()?;
    Ok(bytes)
}

// ---------------------------------------------------------------------------
// Duration
// ---------------------------------------------------------------------------

/// How long the audio of a file is: `frames` samples of each channel, of which
/// `sample_rate` are played in a second.
#[derive(Clone, Copy, Debug, PartialEq, Eq, Structural)]
pub struct WavDuration {
    pub frames: u32,
    pub sample_rate: u32,
    pub channels: u16,
}

/// How long the audio of a file with this header is.
pub open spec fn duration_of(header: Option<WavHeader>) -> Option<WavDuration> {
    match header {
        Some(h) => if h.format.sample_rate == 0 || h.format.channels == 0 {
            None
        } else {
            Some(
                WavDuration {
                    frames: h.duration,
                    sample_rate: h.format.sample_rate,
                    channels: h.format.channels,
                },
            )
        },
        None => None,
    }
}

impl WavHeader {
    /// How long the audio is. Without samples in a second, or without channels,
    /// it has no length.
    pub fn length(self) -> (r: Option<WavDuration>)
        ensures
            r == duration_of(Some(self)),
    {
        if self.format.sample_rate == 0 || self.format.channels == 0 {
            return None;
        }
        Some(
            WavDuration {
                frames: self.duration,
                sample_rate: self.format.sample_rate,
                channels: self.format.channels,
            },
        )
    }
}

/// How long the audio of a WAV file is, if the file can be read.
pub fn wav_duration(bytes: &Vec<u8>) -> (r: Option<WavDuration>)
    ensures
        r == duration_of(wav_header(bytes@)),
{
    match read_header(bytes) {
        Ok(header) => header.length(),
        Err(_) => None,
    }
}

// ---------------------------------------------------------------------------
// Silence
// ---------------------------------------------------------------------------

/// The number of samples in a second of silence.
pub const FALLBACK_SAMPLE_RATE: u32 = 24_000;

/// The format of silence.
pub open spec fn silent_format() -> WavFormat {
    WavFormat {
        channels: 1,
        sample_rate: FALLBACK_SAMPLE_RATE,
        bits_per_sample: 16,
        sample_format: SampleFormat::Int,
    }
}

/// A WAV file of silence with so many samples.
pub fn silent_wav(sample_count: usize) -> (r: Vec<u8>)
    requires
        is_countable(silent_format(), sample_count as int),
    ensures
        r@ == wav_bytes(silent_format(), Seq::new(sample_count as nat, |i: int| 0i32)),
        wav_header(r@) == Some(header_for(silent_format(), sample_count as int)),
        wav_samples(r@) == Some(Seq::new(sample_count as nat, |i: int| 0i32)),
{
    let ghost silence = Seq::new(sample_count as nat, |i: int| 0i32);
    let format = WavFormat {
        channels: 1,
        sample_rate: FALLBACK_SAMPLE_RATE,
        bits_per_sample: 16,
        sample_format: SampleFormat::Int,
    };
    let mut samples: Vec<i32> = Vec::new();
    let mut i: usize = 0;
    while i < sample_count
        invariant
            i <= sample_count,
            samples@ == Seq::new(i as nat, |k: int| 0i32),
        decreases sample_count - i,
    {
        samples.push(0);
        i += 1;
        proof {
            assert(samples@ =~= Seq::new(i as nat, |k: int| 0i32));
        }
    }
    proof {
        assert(samples@ =~= silence);
        assert(width(16) == 2);
        assert(24_000 * width(16) * 1 == 48_000) by (nonlinear_arith)
            requires
                width(16) == 2,
        ;
    }
    match write_wav(format, &samples) {
        Ok(bytes) => bytes,
        Err(_) => {
            proof {
                assert(can_hold(format, samples@));
            }
            Vec::new()
        },
    }
}

// ---------------------------------------------------------------------------
// Merging
// ---------------------------------------------------------------------------

/// What was read of a file: its header and its samples.
pub struct FileParts {
    pub header: Option<WavHeader>,
    pub samples: Option<Seq<i32>>,
}

/// What becomes of files that are to be merged.
pub enum Verdict {
    NoFiles,
    /// The file at this position cannot be opened.
    Unreadable { at: int },
    /// The first file holds floating-point samples.
    Floats,
    /// No file can be written in the format of the first.
    Unwritable,
    /// The header of the merged file cannot count what the file is to hold.
    BeyondLimits,
    /// The file at this position has another format than the first.
    Mismatch { at: int },
    /// The samples of the file at this position cannot be read.
    SampleUnreadable { at: int },
    /// All samples, in the format of all files.
    Merged { format: WavFormat, samples: Seq<i32> },
}

/// What can be read of a file.
pub open spec fn parts_of(file: WavFile) -> FileParts {
    match file.bytes {
        Some(bytes) => FileParts { header: wav_header(bytes@), samples: wav_samples(bytes@) },
        None => FileParts { header: None, samples: None },
    }
}

/// What can be read of each of the files.
pub open spec fn all_parts(files: Seq<WavFile>) -> Seq<FileParts> {
    files.map_values(|file: WavFile| parts_of(file))
}

/// What becomes of the files from `at` on, with the samples of those before.
pub open spec fn verdict_from(
    parts: Seq<FileParts>,
    at: int,
    format: WavFormat,
    samples: Seq<i32>,
) -> Verdict
    decreases parts.len() - at,
{
    if at >= parts.len() {
        Verdict::Merged { format, samples }
    } else {
        match parts[at].header {
            None => Verdict::Unreadable { at },
            Some(header) => if header.format != format {
                Verdict::Mismatch { at }
            } else {
                match parts[at].samples {
                    None => Verdict::SampleUnreadable { at },
                    Some(more) => if !is_countable(format, (samples + more).len() as int) {
                        Verdict::BeyondLimits
                    } else {
                        verdict_from(parts, at + 1, format, samples + more)
                    },
                }
            },
        }
    }
}

/// What becomes of the files.
pub open spec fn verdict(parts: Seq<FileParts>) -> Verdict {
    if parts.len() == 0 {
        Verdict::NoFiles
    } else {
        match parts[0].header {
            None => Verdict::Unreadable { at: 0 },
            Some(header) => if header.format.sample_format is Float {
                Verdict::Floats
            } else if !is_depth(header.format.bits_per_sample as int) {
                Verdict::Unwritable
            } else if !is_playable(header.format) {
                Verdict::BeyondLimits
            } else {
                verdict_from(parts, 0, header.format, Seq::empty())
            },
        }
    }
}

/// Every file holds as many samples as its header says.
pub open spec fn counts_agree(parts: Seq<FileParts>) -> bool {
    forall|i: int|
        0 <= i < parts.len() ==> ((#[trigger] parts[i]).samples matches Some(samples) ==> {
            &&& parts[i].header matches Some(header)
            &&& samples.len() == header.duration * header.format.channels
        })
}

/// The format of the merged file, from the header of the first file. There is
/// none if the file holds floating-point samples.
pub fn merge_format(header: Option<WavHeader>, path: &str, output_path: &str) -> (r: Result<
    Option<WavFormat>,
    Failure,
>)
    ensures
        match r {
            Ok(Some(format)) => {
                &&& header matches Some(h)
                &&& format == h.format
                &&& format.sample_format is Int
                &&& is_depth(format.bits_per_sample as int)
                &&& is_playable(format)
            },
            Ok(None) => header matches Some(h) && h.format.sample_format is Float,
            Err(Failure::WavUnreadable { path: p }) => header is None && p@ == path@,
            Err(Failure::WavUnwritable { path: p }) => {
                &&& header matches Some(h)
                &&& h.format.sample_format is Int
                &&& !is_depth(h.format.bits_per_sample as int)
                &&& p@ == output_path@
            },
            Err(Failure::WavBeyondLimits { path: p }) => {
                &&& header matches Some(h)
                &&& h.format.sample_format is Int
                &&& is_depth(h.format.bits_per_sample as int)
                &&& !is_playable(h.format)
                &&& p@ == output_path@
            },
            Err(_) => false,
        },
{
    let format = match header {
        Some(h) => h.format,
        None => {
            return Err(Failure::WavUnreadable { path: path.to_owned() });
        },
    };
    match format.sample_format {
        SampleFormat::Float => {
            return Ok(None);
        },
        SampleFormat::Int => {},
    }
    let bits: u16 = format.bits_per_sample;
    if bits != 8 && bits != 16 && bits != 24 && bits != 32 {
        return Err(Failure::WavUnwritable { path: output_path.to_owned() });
    }
    let bytes: u64 = bits as u64 / 8;
    let rate: u64 = format.sample_rate as u64;
    let channels: u64 = format.channels as u64;
    proof {
        assert(rate * bytes <= 0xffff_ffff * 4) by (nonlinear_arith)
            requires
                rate <= 0xffff_ffff,
                bytes <= 4,
        ;
        assert((rate * bytes) * channels <= (0xffff_ffff * 4) * 0xffff) by (nonlinear_arith)
            requires
                0 <= rate * bytes <= 0xffff_ffff * 4,
                channels <= 0xffff,
        ;
    }
    if channels == 0 || rate == 0 || rate * bytes * channels > u32::MAX as u64 {
        return Err(Failure::WavBeyondLimits { path: output_path.to_owned() });
    }
    Ok(Some(format))
}

/// Puts the samples of one more file behind those that there are. `header` and
/// `more` are what was read of the file.
pub fn append_samples(
    samples: &mut Vec<i32>,
    format: WavFormat,
    header: Option<WavHeader>,
    more: Option<Vec<i32>>,
    path: &str,
    output_path: &str,
) -> (r: Result<(), Failure>)
    requires
        is_depth(format.bits_per_sample as int),
    ensures
        match r {
            Ok(()) => {
                &&& header matches Some(h)
                &&& h.format == format
                &&& more matches Some(m)
                &&& final(samples)@ == old(samples)@ + m@
                &&& is_countable(format, final(samples)@.len() as int)
            },
            Err(Failure::WavUnreadable { path: p }) => header is None && p@ == path@,
            Err(Failure::WavMismatch { path: p }) => {
                &&& header matches Some(h)
                &&& h.format != format
                &&& p@ == path@
            },
            Err(Failure::WavSampleUnreadable { path: p }) => {
                &&& header matches Some(h)
                &&& h.format == format
                &&& more is None
                &&& p@ == path@
            },
            Err(Failure::WavBeyondLimits { path: p }) => {
                &&& header matches Some(h)
                &&& h.format == format
                &&& more matches Some(m)
                &&& !is_countable(format, (old(samples)@ + m@).len() as int)
                &&& p@ == output_path@
            },
            Err(_) => false,
        },
        r is Err ==> final(samples)@ == old(samples)@,
{
    match header {
        Some(h) => {
            if h.format != format {
                return Err(Failure::WavMismatch { path: path.to_owned() });
            }
        },
        None => {
            return Err(Failure::WavUnreadable { path: path.to_owned() });
        },
    }
    let mut more: Vec<i32> = match more {
        Some(m) => m,
        None => {
            return Err(Failure::WavSampleUnreadable { path: path.to_owned() });
        },
    };
    let bytes: u32 = format.bits_per_sample as u32 / 8;
    let header_bytes: u32 = if format.channels > 2 || format.bits_per_sample > 16 {
        60
    } else {
        36
    };
    let most: usize = ((u32::MAX - header_bytes) / bytes) as usize;
    let ghost len = samples@.len() + more@.len();
    proof {
        lemma_most_samples(len as int, bytes as int, u32::MAX - header_bytes);
        assert(width(format.bits_per_sample as int) == bytes);
    }
    if more.len() > most || samples.len() > most - more.len() {
        return Err(Failure::WavBeyondLimits { path: output_path.to_owned() });
    }
    samples.append(&mut more);
    Ok(())
}

/// Merges WAV files into one that holds their samples one behind the other.
pub fn merge_wav_chunks_to_wav(files: &Vec<WavFile>, output_path: &str) -> (r: Result<
    Merged,
    Failure,
>)
    ensures
        match r {
            Ok(Merged::Ints(bytes)) => {
                &&& verdict(all_parts(files@)) matches Verdict::Merged { format, samples }
                &&& counts_agree(all_parts(files@))
                &&& bytes@ == wav_bytes(format, samples)
                &&& samples.len() > 0 || is_aligned(format) ==> {
                    &&& wav_header(bytes@) == Some(header_for(format, samples.len() as int))
                    &&& wav_samples(bytes@) == Some(samples)
                }
            },
            Ok(Merged::Floats) => verdict(all_parts(files@)) is Floats,
            Err(Failure::NothingToMerge) => verdict(all_parts(files@)) is NoFiles,
            Err(Failure::WavUnreadable { path }) => {
                &&& verdict(all_parts(files@)) matches Verdict::Unreadable { at }
                &&& path@ == files@[at].path@
            },
            Err(Failure::WavUnwritable { path }) => {
                &&& verdict(all_parts(files@)) is Unwritable
                &&& path@ == output_path@
            },
            Err(Failure::WavBeyondLimits { path }) => {
                &&& verdict(all_parts(files@)) is BeyondLimits
                &&& path@ == output_path@
            },
            Err(Failure::WavMismatch { path }) => {
                &&& verdict(all_parts(files@)) matches Verdict::Mismatch { at }
                &&& path@ == files@[at].path@
            },
            Err(Failure::WavSampleUnreadable { path }) => {
                &&& verdict(all_parts(files@)) matches Verdict::SampleUnreadable { at }
                &&& path@ == files@[at].path@
            },
            Err(_) => false,
        },
{
    let ghost parts = all_parts(files@);
    if files.len() == 0 {
        return Err(Failure::NothingToMerge);
    }
    let first = header_of(&files[0]);
    let format = match merge_format(first, files[0].path.as_str(), output_path) {
        Ok(Some(format)) => format,
        Ok(None) => {
            return Ok(Merged::Floats);
        },
        Err(error) => {
            return Err(error);
        },
    };
    let ghost bits = format.bits_per_sample as int;
    let mut samples: Vec<i32> = Vec::new();
    let mut i: usize = 0;
    proof {
        assert(samples@ =~= Seq::<i32>::empty());
        assert(is_countable(format, 0));
    }
    while i < files.len()
        invariant
            parts == all_parts(files@),
            files@.len() > 0,
            i <= files@.len(),
            bits == format.bits_per_sample,
            format.sample_format is Int,
            is_depth(bits),
            is_playable(format),
            is_countable(format, samples@.len() as int),
            all_fit(samples@, bits),
            samples@.len() % (format.channels as nat) == 0,
            samples@.len() > 0 ==> is_aligned(format),
            counts_agree(parts.take(i as int)),
            verdict(parts) == verdict_from(parts, i as int, format, samples@),
        decreases files@.len() - i,
    {
        let ghost before = samples@;
        let header = header_of(&files[i]);
        let more = match header {
            Some(h) => if h.format == format {
                samples_of(&files[i])
            } else {
                None
            },
            None => None,
        };
        proof {
            assert(parts[i as int] == parts_of(files@[i as int]));
            if more is Some {
                let m = more->0@;
                lemma_whole_frames(before.len(), header->0.duration as nat, format.channels as nat);
                assert forall|k: int| 0 <= k < (before + m).len() implies fits(
                    #[trigger] (before + m)[k],
                    bits,
                ) by {
                    if k >= before.len() {
                        assert((before + m)[k] == m[k - before.len()]);
                    }
                }
            }
        }
        match append_samples(
            &mut samples,
            format,
            header,
            more,
            files[i].path.as_str(),
            output_path,
        ) {
            Ok(()) => {},
            Err(error) => {
                return Err(error);
            },
        }
        proof {
            assert forall|k: int| 0 <= k < parts.take(i + 1).len() implies ((
            #[trigger] parts.take(i + 1)[k]).samples matches Some(s) ==> {
                &&& parts.take(i + 1)[k].header matches Some(h)
                &&& s.len() == h.duration * h.format.channels
            }) by {
                if k < i {
                    assert(parts.take(i + 1)[k] == parts.take(i as int)[k]);
                }
            }
        }
        i += 1;
    }
    proof {
        assert(parts.take(i as int) =~= parts);
    }
    match write_wav(format, &samples) {
        Ok(bytes) => Ok(Merged::Ints(bytes)),
        Err(_) => {
            proof {
                assert(can_hold(format, samples@));
            }
            Ok(Merged::Ints(Vec::new()))
        },
    }
}

fn header_of(file: &WavFile) -> (r: Option<WavHeader>)
    ensures
        r == parts_of(*file).header,
        r matches Some(header) ==> header.format.channels > 0,
{
    match &file.bytes {
        Some(bytes) => match read_header(bytes) {
            Ok(header) => Some(header),
            Err(_) => None,
        },
        None => None,
    }
}

fn samples_of(file: &WavFile) -> (r: Option<Vec<i32>>)
    ensures
        match r {
            Some(samples) => {
                &&& parts_of(*file).samples == Some(samples@)
                &&& parts_of(*file).header matches Some(header)
                &&& samples@.len() == header.duration * header.format.channels
                &&& all_fit(samples@, header.format.bits_per_sample as int)
                &&& samples@.len() > 0 ==> is_aligned(header.format)
            },
            None => parts_of(*file).samples is None,
        },
{
    match &file.bytes {
        Some(bytes) => match read_samples(bytes) {
            Ok(samples) => Some(samples),
            Err(_) => None,
        },
        None => None,
    }
}

proof fn lemma_most_samples(len: int, bytes: int, all: int)
    requires
        1 <= bytes <= 4,
    ensures
        len <= all / bytes <==> len * bytes <= all,
{
    vstd::arithmetic::div_mod::lemma_fundamental_div_mod(all, bytes);
    let most = all / bytes;
    assert(len <= most <==> len * bytes <= all) by (nonlinear_arith)
        requires
            1 <= bytes <= 4,
            all == bytes * most + all % bytes,
            0 <= all % bytes < bytes,
    ;
}

proof fn lemma_whole_frames(len: nat, duration: nat, channels: nat)
    requires
        channels > 0,
        len % channels == 0,
    ensures
        (len + duration * channels) % channels == 0,
{
    vstd::arithmetic::div_mod::lemma_mod_multiples_vanish(
        duration as int,
        len as int,
        channels as int,
    );
    assert(channels * duration + len == len + duration * channels) by (nonlinear_arith);
}

} // verus!
