//! What holds of every merge of WAV files.

use vstd::prelude::*;

use crate::wav;

verus! {

/// The samples of all files, one file behind the other.
pub open spec fn all_samples(parts: Seq<wav::FileParts>) -> Seq<i32>
    decreases parts.len(),
{
    if parts.len() == 0 {
        Seq::empty()
    } else {
        all_samples(parts.drop_last()) + parts.last().samples->0
    }
}

/// The durations of all files together.
pub open spec fn total_duration(parts: Seq<wav::FileParts>) -> nat
    decreases parts.len(),
{
    if parts.len() == 0 {
        0
    } else {
        total_duration(parts.drop_last()) + parts.last().header->0.duration as nat
    }
}

/// The file has the format and can be read to its end.
pub open spec fn is_whole(part: wav::FileParts, format: wav::WavFormat) -> bool {
    &&& part.header matches Some(header)
    &&& header.format == format
    &&& part.samples is Some
}

proof fn lemma_verdict_from(
    parts: Seq<wav::FileParts>,
    at: int,
    format: wav::WavFormat,
    samples: Seq<i32>,
)
    requires
        0 <= at <= parts.len(),
        samples == all_samples(parts.take(at)),
        wav::verdict_from(parts, at, format, samples) is Merged,
    ensures
        wav::verdict_from(parts, at, format, samples) == (wav::Verdict::Merged {
            format,
            samples: all_samples(parts),
        }),
        forall|i: int| at <= i < parts.len() ==> is_whole(#[trigger] parts[i], format),
    decreases parts.len() - at,
{
    if at == parts.len() {
        assert(parts.take(at) =~= parts);
    } else {
        let more = parts[at].samples->0;
        assert(parts.take(at + 1).drop_last() =~= parts.take(at));
        assert(parts.take(at + 1).last() == parts[at]);
        lemma_verdict_from(parts, at + 1, format, samples + more);
    }
}

/// A merged file holds the samples of all files, in the order of the files and
/// with nothing between them. All files have its format.
pub proof fn law_merged_audio_is_all_audio(parts: Seq<wav::FileParts>)
    requires
        wav::verdict(parts) is Merged,
    ensures
        wav::verdict(parts)->samples == all_samples(parts),
        forall|i: int|
            0 <= i < parts.len() ==> is_whole(#[trigger] parts[i], wav::verdict(parts)->format),
{
    assert(parts.take(0) =~= Seq::empty());
    lemma_verdict_from(parts, 0, parts[0].header->0.format, Seq::empty());
}

proof fn lemma_samples_grow(parts: Seq<wav::FileParts>, k: int)
    requires
        0 <= k <= parts.len(),
    ensures
        all_samples(parts.take(k)).len() <= all_samples(parts).len(),
    decreases parts.len(),
{
    if k == parts.len() {
        assert(parts.take(k) =~= parts);
    } else {
        lemma_samples_grow(parts.drop_last(), k);
        assert(parts.drop_last().take(k) =~= parts.take(k));
    }
}

proof fn lemma_merged_from(parts: Seq<wav::FileParts>, at: int, format: wav::WavFormat)
    requires
        0 <= at <= parts.len(),
        wav::is_depth(format.bits_per_sample as int),
        forall|i: int| 0 <= i < parts.len() ==> is_whole(#[trigger] parts[i], format),
        wav::is_countable(format, all_samples(parts).len() as int),
    ensures
        wav::verdict_from(parts, at, format, all_samples(parts.take(at))) == (
        wav::Verdict::Merged { format, samples: all_samples(parts) }),
    decreases parts.len() - at,
{
    if at == parts.len() {
        assert(parts.take(at) =~= parts);
    } else {
        assert(is_whole(parts[at], format));
        assert(parts.take(at + 1).drop_last() =~= parts.take(at));
        assert(parts.take(at + 1).last() == parts[at]);
        lemma_samples_grow(parts, at + 1);
        let few = all_samples(parts.take(at + 1)).len() as int;
        let many = all_samples(parts).len() as int;
        let bytes = wav::width(format.bits_per_sample as int);
        assert(few * bytes <= many * bytes) by (nonlinear_arith)
            requires
                few <= many,
                1 <= bytes,
        ;
        lemma_merged_from(parts, at + 1, format);
    }
}

/// Files that all have one format in which a file can be written, and that all
/// can be read to their ends, are merged, unless they are too long together.
pub proof fn law_files_of_one_format_are_merged(
    parts: Seq<wav::FileParts>,
    format: wav::WavFormat,
)
    requires
        parts.len() > 0,
        format.sample_format is Int,
        wav::is_depth(format.bits_per_sample as int),
        wav::is_playable(format),
        forall|i: int| 0 <= i < parts.len() ==> is_whole(#[trigger] parts[i], format),
        wav::is_countable(format, all_samples(parts).len() as int),
    ensures
        wav::verdict(parts) == (wav::Verdict::Merged { format, samples: all_samples(parts) }),
{
    assert(is_whole(parts[0], format));
    assert(parts.take(0) =~= Seq::empty());
    lemma_merged_from(parts, 0, format);
}

proof fn lemma_total_duration(parts: Seq<wav::FileParts>, format: wav::WavFormat)
    requires
        wav::counts_agree(parts),
        forall|i: int| 0 <= i < parts.len() ==> is_whole(#[trigger] parts[i], format),
    ensures
        all_samples(parts).len() == total_duration(parts) * format.channels,
    decreases parts.len(),
{
    if parts.len() > 0 {
        let front = parts.drop_last();
        assert forall|i: int| 0 <= i < front.len() implies is_whole(
            #[trigger] front[i],
            format,
        ) by {
            assert(front[i] == parts[i]);
        }
        assert forall|i: int| 0 <= i < front.len() implies ((
        #[trigger] front[i]).samples matches Some(samples) ==> {
            &&& front[i].header matches Some(header)
            &&& samples.len() == header.duration * header.format.channels
        }) by {
            assert(front[i] == parts[i]);
        }
        lemma_total_duration(front, format);
        assert(is_whole(parts[parts.len() - 1], format));
        let before = total_duration(front) as int;
        let last = parts.last().header->0.duration as int;
        let channels = format.channels as int;
        assert((before + last) * channels == before * channels + last * channels)
            by (nonlinear_arith);
    } else {
        let none = total_duration(parts) as int;
        assert(none * format.channels == 0) by (nonlinear_arith)
            requires
                none == 0,
        ;
    }
}

/// The merged audio lasts as long as the audio of all files together.
pub proof fn law_merged_audio_lasts_as_long(parts: Seq<wav::FileParts>)
    requires
        wav::verdict(parts) is Merged,
        wav::counts_agree(parts),
    ensures
        wav::header_for(
            wav::verdict(parts)->format,
            wav::verdict(parts)->samples.len() as int,
        ).duration == total_duration(parts),
{
    let format = wav::verdict(parts)->format;
    law_merged_audio_is_all_audio(parts);
    lemma_total_duration(parts, format);
    let total = total_duration(parts) as int;
    let channels = format.channels as int;
    vstd::arithmetic::div_mod::lemma_div_multiples_vanish(total, channels);
    assert(channels * total == total * channels) by (nonlinear_arith);
    lemma_verdict_is_countable(parts, 0, format, Seq::empty());
    let len = total * channels;
    let bytes = wav::width(format.bits_per_sample as int);
    assert(total <= len * bytes) by (nonlinear_arith)
        requires
            len == total * channels,
            total >= 0,
            channels >= 1,
            bytes >= 1,
    ;
}

proof fn lemma_verdict_is_countable(
    parts: Seq<wav::FileParts>,
    at: int,
    format: wav::WavFormat,
    samples: Seq<i32>,
)
    requires
        0 <= at <= parts.len(),
        wav::is_countable(format, samples.len() as int),
        wav::verdict_from(parts, at, format, samples) is Merged,
    ensures
        wav::is_countable(
            format,
            wav::verdict_from(parts, at, format, samples)->samples.len() as int,
        ),
    decreases parts.len() - at,
{
    if at < parts.len() {
        lemma_verdict_is_countable(parts, at + 1, format, samples + parts[at].samples->0);
    }
}

// ---------------------------------------------------------------------------
// Lengths
// ---------------------------------------------------------------------------

/// A file with channels and a sample rate is as long as its header counts: so
/// many frames, so many channels, and so many frames in a second. Any other file
/// has no length.
pub proof fn law_length_is_what_the_header_counts(header: wav::WavHeader)
    ensures
        header.format.sample_rate > 0 && header.format.channels > 0 ==> {
            &&& wav::duration_of(Some(header)) matches Some(length)
            &&& length.frames == header.duration
            &&& length.sample_rate == header.format.sample_rate
            &&& length.channels == header.format.channels
        },
        header.format.sample_rate == 0 || header.format.channels == 0 ==> wav::duration_of(
            Some(header),
        ) is None,
        wav::duration_of(None) is None,
{
}

/// A file with so many frames in each channel has so many samples, and a length of
/// so many frames.
pub proof fn law_frames_are_counted_per_channel(format: wav::WavFormat, frames: int)
    requires
        wav::is_playable(format),
        0 <= frames <= u32::MAX,
    ensures
        wav::duration_of(Some(wav::header_for(format, frames * format.channels))) == Some(
            wav::WavDuration {
                frames: frames as u32,
                sample_rate: format.sample_rate,
                channels: format.channels,
            },
        ),
{
    let channels = format.channels as int;
    vstd::arithmetic::div_mod::lemma_div_multiples_vanish(frames, channels);
    assert(channels * frames == frames * channels) by (nonlinear_arith);
}

/// Silence lasts as many frames as it was asked for.
pub proof fn law_silence_lasts_as_long_as_asked(sample_count: usize)
    requires
        wav::is_countable(wav::silent_format(), sample_count as int),
    ensures
        wav::duration_of(
            Some(wav::header_for(wav::silent_format(), sample_count as int)),
        ) matches Some(length) && length.frames == sample_count && length.sample_rate == 24_000
            && length.channels == 1,
{
    let n = sample_count as int;
    assert(n / 1 == n);
    assert(wav::width(16) == 2);
    assert(n * wav::width(16) == 2 * n) by (nonlinear_arith)
        requires
            wav::width(16) == 2,
    ;
}

/// All audio that a header can count is accepted: up to the number of bytes that
/// four bytes can tell, the header included.
pub proof fn law_audio_within_four_bytes_is_countable(format: wav::WavFormat, len: int)
    requires
        0 <= len,
    ensures
        format.bits_per_sample == 8 && len + 60 <= 0xffff_ffff ==> wav::is_countable(format, len),
        format.bits_per_sample == 16 && 2 * len + 60 <= 0xffff_ffff ==> wav::is_countable(
            format,
            len,
        ),
        format.bits_per_sample == 24 && 3 * len + 60 <= 0xffff_ffff ==> wav::is_countable(
            format,
            len,
        ),
        format.bits_per_sample == 32 && 4 * len + 60 <= 0xffff_ffff ==> wav::is_countable(
            format,
            len,
        ),
{
    let bits = format.bits_per_sample as int;
    let bytes = wav::width(bits);
    if bits == 8 {
        assert(len * bytes == len) by (nonlinear_arith)
            requires
                bytes == 1,
        ;
    } else if bits == 16 {
        assert(len * bytes == 2 * len) by (nonlinear_arith)
            requires
                bytes == 2,
        ;
    } else if bits == 24 {
        assert(len * bytes == 3 * len) by (nonlinear_arith)
            requires
                bytes == 3,
        ;
    } else if bits == 32 {
        assert(len * bytes == 4 * len) by (nonlinear_arith)
            requires
                bytes == 4,
        ;
    }
}

/// What is accepted does not pass what four bytes can tell.
pub proof fn law_countable_audio_is_within_four_bytes(format: wav::WavFormat, len: int)
    requires
        wav::is_countable(format, len),
    ensures
        format.bits_per_sample == 8 ==> len + 36 <= 0xffff_ffff,
        format.bits_per_sample == 16 ==> 2 * len + 36 <= 0xffff_ffff,
        format.bits_per_sample == 24 ==> 3 * len + 60 <= 0xffff_ffff,
        format.bits_per_sample == 32 ==> 4 * len + 60 <= 0xffff_ffff,
        format.channels > 2 && format.bits_per_sample == 8 ==> len + 60 <= 0xffff_ffff,
        format.channels > 2 && format.bits_per_sample == 16 ==> 2 * len + 60 <= 0xffff_ffff,
{
    let bits = format.bits_per_sample as int;
    let bytes = wav::width(bits);
    if bits == 8 {
        assert(len * bytes == len) by (nonlinear_arith)
            requires
                bytes == 1,
        ;
    } else if bits == 16 {
        assert(len * bytes == 2 * len) by (nonlinear_arith)
            requires
                bytes == 2,
        ;
    } else if bits == 24 {
        assert(len * bytes == 3 * len) by (nonlinear_arith)
            requires
                bytes == 3,
        ;
    } else if bits == 32 {
        assert(len * bytes == 4 * len) by (nonlinear_arith)
            requires
                bytes == 4,
        ;
    }
}

/// A format is playable exactly where it has channels and a sample rate, and four
/// bytes can tell how many bytes a second of it takes.
pub proof fn law_playable_formats(format: wav::WavFormat)
    requires
        format.bits_per_sample == 8 || format.bits_per_sample == 16 || format.bits_per_sample
            == 24 || format.bits_per_sample == 32,
    ensures
        wav::is_depth(format.bits_per_sample as int),
        wav::is_playable(format) <==> format.channels > 0 && format.sample_rate > 0 && (
        format.bits_per_sample as int / 8) * (format.sample_rate * format.channels) <= 0xffff_ffff,
{
    let bits = format.bits_per_sample as int;
    let bytes = wav::width(bits);
    let rate = format.sample_rate as int;
    let channels = format.channels as int;
    assert(bytes == bits / 8);
    assert(rate * bytes * channels == bytes * (rate * channels)) by (nonlinear_arith);
}

/// The frames of all files together.
pub open spec fn total_frames(parts: Seq<wav::FileParts>) -> nat
    decreases parts.len(),
{
    if parts.len() == 0 {
        0
    } else {
        total_frames(parts.drop_last()) + wav::duration_of(parts.last().header)->0.frames as nat
    }
}

proof fn lemma_total_frames(parts: Seq<wav::FileParts>, format: wav::WavFormat)
    requires
        wav::is_playable(format),
        forall|i: int| 0 <= i < parts.len() ==> is_whole(#[trigger] parts[i], format),
    ensures
        total_frames(parts) == total_duration(parts),
    decreases parts.len(),
{
    if parts.len() > 0 {
        let front = parts.drop_last();
        assert forall|i: int| 0 <= i < front.len() implies is_whole(
            #[trigger] front[i],
            format,
        ) by {
            assert(front[i] == parts[i]);
        }
        lemma_total_frames(front, format);
        assert(is_whole(parts[parts.len() - 1], format));
        law_length_is_what_the_header_counts(parts.last().header->0);
    }
}

/// The length of a merged file has as many frames as the lengths of its parts have
/// together, and their sample rate and channels.
pub proof fn law_merged_frames_are_all_frames(parts: Seq<wav::FileParts>)
    requires
        wav::verdict(parts) is Merged,
        wav::counts_agree(parts),
    ensures
        wav::duration_of(
            Some(
                wav::header_for(
                    wav::verdict(parts)->format,
                    wav::verdict(parts)->samples.len() as int,
                ),
            ),
        ) matches Some(length) && length.frames == total_frames(parts) && forall|i: int|
            0 <= i < parts.len() ==> (wav::duration_of((#[trigger] parts[i]).header) matches Some(
                part,
            ) && part.sample_rate == length.sample_rate && part.channels == length.channels),
{
    let format = wav::verdict(parts)->format;
    law_merged_audio_is_all_audio(parts);
    law_merged_audio_lasts_as_long(parts);
    lemma_total_frames(parts, format);
    assert(is_whole(parts[0], format));
    assert forall|i: int| 0 <= i < parts.len() implies (wav::duration_of(
        (#[trigger] parts[i]).header,
    ) matches Some(part) && part.sample_rate == format.sample_rate && part.channels
        == format.channels) by {
        assert(is_whole(parts[i], format));
    }
}

// ---------------------------------------------------------------------------
// Files that are not merged
// ---------------------------------------------------------------------------

proof fn lemma_first_fault(
    parts: Seq<wav::FileParts>,
    at: int,
    format: wav::WavFormat,
    samples: Seq<i32>,
)
    requires
        0 <= at <= parts.len(),
        forall|i: int| 0 <= i < at ==> is_whole(#[trigger] parts[i], format),
    ensures
        match wav::verdict_from(parts, at, format, samples) {
            wav::Verdict::Unreadable { at: k } => {
                &&& 0 <= k < parts.len()
                &&& parts[k].header is None
                &&& forall|i: int| 0 <= i < k ==> is_whole(#[trigger] parts[i], format)
            },
            wav::Verdict::Mismatch { at: k } => {
                &&& 0 <= k < parts.len()
                &&& parts[k].header matches Some(header) && header.format != format
                &&& forall|i: int| 0 <= i < k ==> is_whole(#[trigger] parts[i], format)
            },
            wav::Verdict::SampleUnreadable { at: k } => {
                &&& 0 <= k < parts.len()
                &&& parts[k].header matches Some(header) && header.format == format
                &&& parts[k].samples is None
                &&& forall|i: int| 0 <= i < k ==> is_whole(#[trigger] parts[i], format)
            },
            wav::Verdict::BeyondLimits => true,
            wav::Verdict::Merged { .. } => true,
            _ => false,
        },
    decreases parts.len() - at,
{
    if at < parts.len() && is_whole(parts[at], format) {
        let more = parts[at].samples->0;
        lemma_first_fault(parts, at + 1, format, samples + more);
    }
}

/// Where a file is named as the reason that nothing was merged, it is the first
/// with a fault: it cannot be opened, has another format than the first file, or
/// cannot be read to its end. All files before it are whole.
pub proof fn law_the_first_fault_is_named(parts: Seq<wav::FileParts>)
    ensures
        match wav::verdict(parts) {
            wav::Verdict::NoFiles => parts.len() == 0,
            wav::Verdict::Floats => {
                &&& parts.len() > 0
                &&& parts[0].header matches Some(header) && header.format.sample_format is Float
            },
            wav::Verdict::Unwritable => {
                &&& parts.len() > 0
                &&& parts[0].header matches Some(header)
                &&& header.format.bits_per_sample != 8
                &&& header.format.bits_per_sample != 16
                &&& header.format.bits_per_sample != 24
                &&& header.format.bits_per_sample != 32
            },
            wav::Verdict::Unreadable { at } => {
                &&& 0 <= at < parts.len()
                &&& parts[at].header is None
                &&& forall|i: int|
                    0 <= i < at ==> is_whole(#[trigger] parts[i], parts[0].header->0.format)
            },
            wav::Verdict::Mismatch { at } => {
                &&& 0 <= at < parts.len()
                &&& parts[at].header matches Some(header) && header.format
                    != parts[0].header->0.format
                &&& forall|i: int|
                    0 <= i < at ==> is_whole(#[trigger] parts[i], parts[0].header->0.format)
            },
            wav::Verdict::SampleUnreadable { at } => {
                &&& 0 <= at < parts.len()
                &&& parts[at].header is Some
                &&& parts[at].samples is None
                &&& forall|i: int|
                    0 <= i < at ==> is_whole(#[trigger] parts[i], parts[0].header->0.format)
            },
            _ => true,
        },
{
    if parts.len() > 0 && parts[0].header is Some {
        lemma_first_fault(parts, 0, parts[0].header->0.format, Seq::empty());
    }
}

/// What was read of the files is what was read of each of them, one for one.
pub proof fn law_every_file_is_read(files: Seq<wav::WavFile>)
    ensures
        wav::all_parts(files).len() == files.len(),
        forall|i: int|
            0 <= i < files.len() ==> {
                let part = #[trigger] wav::all_parts(files)[i];
                match files[i].bytes {
                    Some(bytes) => {
                        &&& part.header == wav::wav_header(bytes@)
                        &&& part.samples == wav::wav_samples(bytes@)
                    },
                    None => part.header is None && part.samples is None,
                }
            },
{
}

/// Samples of all files together are those of the first files and then those of the
/// others.
pub proof fn law_samples_follow_each_other(a: Seq<wav::FileParts>, b: Seq<wav::FileParts>)
    ensures
        all_samples(a + b) == all_samples(a) + all_samples(b),
    decreases b.len(),
{
    if b.len() == 0 {
        assert(a + b =~= a);
        assert(all_samples(a) + all_samples(b) =~= all_samples(a));
    } else {
        assert((a + b).drop_last() =~= a + b.drop_last());
        law_samples_follow_each_other(a, b.drop_last());
        assert(all_samples(a + b) =~= all_samples(a) + all_samples(b));
    }
}

} // verus!
