//! The compact binary artifact: a magic/version header, JSON-encoded file
//! metadata and statistics sections, and fixed-size packed frames with
//! near-lossless 16/8-bit quantization.

use vstd::prelude::*;
use vstd::arithmetic::div_mod::{lemma_fundamental_div_mod, lemma_multiply_divide_le};
use vstd::string::StringSliceAdditionalSpecFns;
use crate::features::FrequencyBands;
use crate::json::{
    append_literal, escape_seq, expect_byte, expect_literal, json_fields_from, keys_bytes,
    lemma_tail_split, lemma_unescape_escape, parse_fields, parse_json_string, tail_at,
    write_fields, write_json_string,
};
use crate::normalizer::{FeatureNormalizer, NormalizationParameters};
use crate::prescan::{
    file_info_like, AnalysisStatistics, DominantRange, EnergyProfile, FileInfo, PrescanData,
    PrescanFrame, PrescanProcessor,
};

verus! {

/// The artifact's magic bytes ("ARVV").
pub open spec fn magic_seq() -> Seq<u8> {
    seq![65u8, 82u8, 86u8, 86u8]
}

/// The format version this codec understands.
pub const FORMAT_VERSION: u8 = 1;

/// Fixed size of one packed frame on disk: eight quantized 16-bit scalars,
/// the beat flag byte, the quantized beat strength, and two reserved bytes.
pub const BYTES_PER_FRAME: usize = 20;

/// Why loading an artifact failed.
#[derive(Clone, Copy, Debug, PartialEq, Eq, Structural)]
pub enum ArvError {
    /// The first four bytes are not the magic.
    InvalidFormat,
    /// The version byte is not the one this codec understands.
    UnsupportedVersion,
    /// A fixed-size section ended before the input did.
    Truncated,
    /// A section's content does not read as this codec writes it.
    Malformed,
}

/// A normalized micro-unit value quantized to 16 bits:
/// `floor(clamp(x, 0, 1) * 65535)`.
pub open spec fn pack_unit(x: int) -> int {
    let c = if x < 0 {
        0int
    } else if x > 1_000_000 {
        1_000_000int
    } else {
        x
    };
    c * 65535 / 1_000_000
}

/// A 16-bit quantized value rescaled to micro-units (rounded).
pub open spec fn unpack_unit(v: int) -> int {
    (v * 1_000_000 + 32767) / 65535
}

/// A beat strength (micro-units over the `[0, 5]` domain) quantized to 8
/// bits: `floor(clamp(s, 0, 5) * 51)`.
pub open spec fn pack_strength(s: int) -> int {
    let c = if s < 0 {
        0int
    } else if s > 5_000_000 {
        5_000_000int
    } else {
        s
    };
    c * 51 / 1_000_000
}

/// An 8-bit quantized beat strength rescaled to micro-units (rounded).
pub open spec fn unpack_strength(v: int) -> int {
    (v * 1_000_000 + 25) / 51
}

/// One frame as persisted: 20 bytes, fixed-width, no padding.
#[derive(Clone, Copy, Debug, PartialEq, Eq, Structural)]
pub struct PackedFrame {
    pub bass: u16,
    pub mid: u16,
    pub treble: u16,
    pub sub_bass: u16,
    pub presence: u16,
    pub spectral_centroid: u16,
    pub pitch_confidence: u16,
    pub onset_strength: u16,
    /// Bit 0: the beat flag; the other bits are reserved.
    pub beat_data: u8,
    /// Beat strength over the `[0, 5]` domain, quantized to `[0, 255]`.
    pub beat_strength: u8,
}

impl PackedFrame {
    /// Quantize a normalized micro-unit value to 16 bits.
    pub fn pack_float(value: u32) -> (r: u16)
        ensures
            r == pack_unit(value as int),
    {
        let c: u64 = if value > 1_000_000 {
            1_000_000
        } else {
            value as u64
        };
        proof {
            lemma_multiply_divide_le(c as int * 65535, 1_000_000, 65535);
        }
        (c * 65535 / 1_000_000) as u16
    }

    /// Rescale a 16-bit quantized value to micro-units.
    pub fn unpack_float(value: u16) -> (r: u32)
        ensures
            r == unpack_unit(value as int),
            r <= 1_000_000,
    {
        proof {
            vstd::arithmetic::div_mod::lemma_multiply_divide_lt(
                value as int * 1_000_000 + 32767,
                65535,
                1_000_001,
            );
        }
        (((value as u64) * 1_000_000 + 32767) / 65535) as u32
    }

    /// Quantize a beat strength to 8 bits.
    pub fn pack_beat_strength(strength: u32) -> (r: u8)
        ensures
            r == pack_strength(strength as int),
    {
        let c: u64 = if strength > 5_000_000 {
            5_000_000
        } else {
            strength as u64
        };
        proof {
            lemma_multiply_divide_le(c as int * 51, 1_000_000, 255);
        }
        (c * 51 / 1_000_000) as u8
    }

    /// Rescale an 8-bit quantized beat strength to micro-units.
    pub fn unpack_beat_strength(value: u8) -> (r: u32)
        ensures
            r == unpack_strength(value as int),
            r <= 5_000_000,
    {
        proof {
            vstd::arithmetic::div_mod::lemma_multiply_divide_lt(
                value as int * 1_000_000 + 25,
                51,
                5_000_001,
            );
        }
        (((value as u64) * 1_000_000 + 25) / 51) as u32
    }

    /// The packed form of a frame: quantized bands and spectral scalars, the
    /// beat flag in bit 0, the beat strength over the `[0, 5]` domain.
    pub open spec fn spec_from_frame(f: PrescanFrame) -> PackedFrame {
        PackedFrame {
            bass: pack_unit(f.frequency_bands.bass as int) as u16,
            mid: pack_unit(f.frequency_bands.mid as int) as u16,
            treble: pack_unit(f.frequency_bands.treble as int) as u16,
            sub_bass: pack_unit(f.frequency_bands.sub_bass as int) as u16,
            presence: pack_unit(f.frequency_bands.presence as int) as u16,
            spectral_centroid: pack_unit(f.spectral_centroid as int) as u16,
            pitch_confidence: pack_unit(f.pitch_confidence as int) as u16,
            onset_strength: pack_unit(f.onset_strength as int) as u16,
            beat_data: if f.beat_detected {
                1u8
            } else {
                0u8
            },
            beat_strength: pack_strength(f.beat_strength as int) as u8,
        }
    }

    /// Pack one frame for persistence.
    pub fn from_prescan_frame(frame: &PrescanFrame) -> (r: PackedFrame)
        ensures
            r == Self::spec_from_frame(*frame),
    {
        PackedFrame {
            bass: Self::pack_float(frame.frequency_bands.bass),
            mid: Self::pack_float(frame.frequency_bands.mid),
            treble: Self::pack_float(frame.frequency_bands.treble),
            sub_bass: Self::pack_float(frame.frequency_bands.sub_bass),
            presence: Self::pack_float(frame.frequency_bands.presence),
            spectral_centroid: Self::pack_float(frame.spectral_centroid),
            pitch_confidence: Self::pack_float(frame.pitch_confidence),
            onset_strength: Self::pack_float(frame.onset_strength),
            beat_data: if frame.beat_detected {
                1u8
            } else {
                0u8
            },
            beat_strength: Self::pack_beat_strength(frame.beat_strength),
        }
    }

    /// The frame a packed record reconstructs at a given timestamp and
    /// file-level tempo: quantized fields rescaled, unstored fields zero.
    pub open spec fn spec_to_frame(p: PackedFrame, timestamp: u64, estimated_bpm: u32) -> PrescanFrame {
        PrescanFrame {
            timestamp,
            frequency_bands: FrequencyBands {
                bass: unpack_unit(p.bass as int) as u32,
                mid: unpack_unit(p.mid as int) as u32,
                treble: unpack_unit(p.treble as int) as u32,
                sub_bass: unpack_unit(p.sub_bass as int) as u32,
                presence: unpack_unit(p.presence as int) as u32,
            },
            beat_detected: p.beat_data & 1 == 1,
            beat_strength: unpack_strength(p.beat_strength as int) as u32,
            estimated_bpm,
            spectral_centroid: unpack_unit(p.spectral_centroid as int) as u32,
            spectral_rolloff: 0,
            pitch_confidence: unpack_unit(p.pitch_confidence as int) as u32,
            zero_crossing_rate: 0,
            spectral_flux: 0,
            onset_strength: unpack_unit(p.onset_strength as int) as u32,
            dynamic_range: 0,
            volume: 0,
        }
    }

    /// Unpack one persisted frame.
    pub fn to_prescan_frame(&self, timestamp: u64, estimated_bpm: u32) -> (r: PrescanFrame)
        ensures
            r == Self::spec_to_frame(*self, timestamp, estimated_bpm),
    {
        PrescanFrame {
            timestamp,
            frequency_bands: FrequencyBands {
                bass: Self::unpack_float(self.bass),
                mid: Self::unpack_float(self.mid),
                treble: Self::unpack_float(self.treble),
                sub_bass: Self::unpack_float(self.sub_bass),
                presence: Self::unpack_float(self.presence),
            },
            beat_detected: self.beat_data & 1 == 1,
            beat_strength: Self::unpack_beat_strength(self.beat_strength),
            estimated_bpm,
            spectral_centroid: Self::unpack_float(self.spectral_centroid),
            spectral_rolloff: 0,
            pitch_confidence: Self::unpack_float(self.pitch_confidence),
            zero_crossing_rate: 0,
            spectral_flux: 0,
            onset_strength: Self::unpack_float(self.onset_strength),
            dynamic_range: 0,
            volume: 0,
        }
    }
}

/// Law (quantization round trip): for a normalized value, rescaling its
/// 16-bit quantization lands within one quantization step (1/65535, about 16
/// micro-units) below the original, never above it.
pub proof fn lemma_pack_unit_round_trip(x: int)
    requires
        0 <= x <= 1_000_000,
    ensures
        0 <= unpack_unit(pack_unit(x)) <= 1_000_000,
        x - 16 <= unpack_unit(pack_unit(x)) <= x,
{
    let p = pack_unit(x);
    lemma_fundamental_div_mod(x * 65535, 1_000_000);
    let r = (x * 65535) % 1_000_000;
    assert(x * 65535 == 1_000_000 * p + r);
    assert(p * 1_000_000 + 32767 == x * 65535 + (32767 - r));
    lemma_fundamental_div_mod(p * 1_000_000 + 32767, 65535);
    assert(unpack_unit(p) == (x * 65535 + (32767 - r)) / 65535);
    assert((x * 65535 + (32767 - r)) / 65535 == x + (32767 - r) / 65535) by {
        vstd::arithmetic::div_mod::lemma_hoist_over_denominator(32767 - r, x, 65535nat);
    }
    assert(-15 <= (32767 - r) / 65535 <= 0) by (nonlinear_arith)
        requires
            0 <= r < 1_000_000,
    ;
    assert(x - 16 <= unpack_unit(pack_unit(x)) <= x);
}

/// Law (beat-strength round trip): for a beat strength over the `[0, 5]`
/// domain, rescaling its 8-bit quantization lands within one quantization
/// step (1/51, about 19609 micro-units) below the original, never above it.
pub proof fn lemma_pack_strength_round_trip(s: int)
    requires
        0 <= s <= 5_000_000,
    ensures
        0 <= unpack_strength(pack_strength(s)) <= 5_000_000,
        s - 19609 <= unpack_strength(pack_strength(s)) <= s,
{
    let p = pack_strength(s);
    lemma_fundamental_div_mod(s * 51, 1_000_000);
    let r = (s * 51) % 1_000_000;
    assert(s * 51 == 1_000_000 * p + r);
    assert(p * 1_000_000 + 25 == s * 51 + (25 - r));
    assert(unpack_strength(p) == (s * 51 + (25 - r)) / 51);
    assert((s * 51 + (25 - r)) / 51 == s + (25 - r) / 51) by {
        vstd::arithmetic::div_mod::lemma_hoist_over_denominator(25 - r, s, 51nat);
    }
    assert(-19609 <= (25 - r) / 51 <= 0) by (nonlinear_arith)
        requires
            0 <= r < 1_000_000,
    ;
}

/// The file-metadata section: a JSON object in this codec's canonical form,
/// the quoted filename followed by the canonical run of the numeric fields.
pub open spec fn json_file_info(fi: FileInfo) -> Seq<u8> {
    seq![123u8] + ("\"filename\":").spec_bytes() + seq![34u8] + escape_seq(fi.filename@)
        + seq![34u8] + seq![44u8] + json_fields_from(fi_keys(), fi_vals(fi), 0, 125u8)
}

/// The file-metadata section's numeric field keys, as the writer and the
/// parser pass them.
fn fi_key_table() -> (r: Vec<&'static str>)
    ensures
        keys_bytes(r@) == fi_keys(),
        r@.len() == 5,
{
    let mut keys: Vec<&str> = Vec::new();
    keys.push("\"duration_us\":");
    keys.push("\"sample_rate\":");
    keys.push("\"total_samples\":");
    keys.push("\"frame_rate_uhz\":");
    keys.push("\"chunk_size\":");
    proof {
        assert(keys_bytes(keys@) =~= fi_keys());
    }
    keys
}

/// Append the file-metadata section.
pub fn write_file_info(out: &mut Vec<u8>, fi: &FileInfo)
    ensures
        final(out)@ == old(out)@ + json_file_info(*fi),
{
    out.push(123);
    append_literal(out, "\"filename\":");
    write_json_string(out, &fi.filename);
    out.push(44);
    let keys = fi_key_table();
    let mut vals: Vec<u64> = Vec::new();
    vals.push(fi.duration_us);
    vals.push(fi.sample_rate as u64);
    vals.push(fi.total_samples);
    vals.push(fi.frame_rate_uhz);
    vals.push(fi.chunk_size);
    proof {
        assert(vals@ =~= fi_vals(*fi));
    }
    write_fields(out, &keys, &vals, 125);
    proof {
        assert(final(out)@ =~= old(out)@ + json_file_info(*fi));
    }
}

/// The file-metadata section's numeric field keys, in writing order.
pub open spec fn fi_keys() -> Seq<Seq<u8>> {
    seq![
        ("\"duration_us\":").spec_bytes(),
        ("\"sample_rate\":").spec_bytes(),
        ("\"total_samples\":").spec_bytes(),
        ("\"frame_rate_uhz\":").spec_bytes(),
        ("\"chunk_size\":").spec_bytes(),
    ]
}

/// The file-metadata section's numeric field values, in writing order.
pub open spec fn fi_vals(fi: FileInfo) -> Seq<u64> {
    seq![fi.duration_us, fi.sample_rate as u64, fi.total_samples, fi.frame_rate_uhz, fi.chunk_size]
}

/// Parse the file-metadata section at `pos`: the codec's canonical object
/// form, rejecting anything else. On an input that carries exactly the
/// section written for some metadata record, the result carries that
/// record's values and the position just past the section.
pub fn parse_file_info(bytes: &Vec<u8>, pos: usize) -> (r: Option<(FileInfo, usize)>)
    ensures
        r matches Some(t) ==> pos < t.1 <= bytes@.len(),
        forall|fi: FileInfo| #[trigger] tail_at(bytes@, pos as int, json_file_info(fi)) ==> (
        r matches Some(t) && file_info_like(t.0, fi) && t.1 == pos + json_file_info(fi).len()),
{
    let p0 = match expect_byte(bytes, pos, 123) {
        Some(p) => p,
        None => {
            proof {
                lemma_fi_prefix_all(bytes@, pos as int);
            }
            return None;
        },
    };
    let p1 = match expect_literal(bytes, p0, "\"filename\":") {
        Some(p) => p,
        None => {
            proof {
                lemma_fi_prefix_all(bytes@, pos as int);
            }
            return None;
        },
    };
    if p1 >= bytes.len() {
        proof {
            lemma_fi_prefix_all(bytes@, pos as int);
        }
        return None;
    }
    let (filename, p2) = match parse_json_string(bytes, p1) {
        Some(t) => t,
        None => {
            proof {
                lemma_fi_prefix_all(bytes@, pos as int);
            }
            return None;
        },
    };
    let p3 = match expect_byte(bytes, p2, 44) {
        Some(p) => p,
        None => {
            proof {
                lemma_fi_prefix_all(bytes@, pos as int);
            }
            return None;
        },
    };
    let keys = fi_key_table();
    let (vals, p4) = match parse_fields(bytes, p3, &keys, 125) {
        Some(t) => t,
        None => {
            proof {
                lemma_fi_prefix_all(bytes@, pos as int);
            }
            return None;
        },
    };
    let sample_rate_w = vals[1];
    if sample_rate_w > u32::MAX as u64 {
        proof {
            lemma_fi_prefix_all(bytes@, pos as int);
        }
        return None;
    }
    let out = FileInfo {
        filename,
        duration_us: vals[0],
        sample_rate: sample_rate_w as u32,
        total_samples: vals[2],
        frame_rate_uhz: vals[3],
        chunk_size: vals[4],
    };
    proof {
        assert forall|fi: FileInfo| #[trigger] tail_at(bytes@, pos as int, json_file_info(fi))
            implies file_info_like(out, fi) && p4 == pos + json_file_info(fi).len() by {
            lemma_fi_parts(bytes@, pos as int, fi);
            assert(fi_vals(fi).len() == keys@.len());
        }
    }
    Some((out, p4))
}

/// Under a canonical file-metadata section at `pos`, the filename string,
/// the separator and the numeric field run each stand at their pinned
/// positions.
proof fn lemma_fi_parts(bytes: Seq<u8>, pos: int, fi: FileInfo)
    requires
        tail_at(bytes, pos, json_file_info(fi)),
    ensures
        ({
            let lit = ("\"filename\":").spec_bytes();
            let esc = escape_seq(fi.filename@);
            let p1 = pos + 1 + lit.len();
            &&& bytes[pos] == 123
            &&& pos + 1 + lit.len() <= bytes.len()
            &&& bytes.subrange(pos + 1, p1) == lit
            &&& p1 < bytes.len()
            &&& bytes[p1] == 34
            &&& crate::json::unescape(bytes.subrange(p1 + 1, bytes.len() as int)) == Some(
                (fi.filename@, esc.len() + 1 as int),
            )
            &&& bytes[p1 + 1 + esc.len() + 1] == 44
            &&& tail_at(
                bytes,
                p1 + esc.len() + 3,
                json_fields_from(fi_keys(), fi_vals(fi), 0, 125u8),
            )
            &&& json_file_info(fi).len() == 1 + lit.len() + esc.len() + 3 + json_fields_from(
                fi_keys(),
                fi_vals(fi),
                0,
                125u8,
            ).len()
        }),
{
    let lit = ("\"filename\":").spec_bytes();
    let esc = escape_seq(fi.filename@);
    let rest = json_fields_from(fi_keys(), fi_vals(fi), 0, 125u8);
    lemma_tail_split(bytes, pos, seq![123u8] + lit + seq![34u8] + esc + seq![34u8] + seq![44u8], rest);
    let head = seq![123u8] + lit + seq![34u8] + esc + seq![34u8] + seq![44u8];
    assert(head =~= seq![123u8] + (lit + (seq![34u8] + (esc + (seq![34u8] + seq![44u8])))));
    lemma_tail_split(bytes, pos, seq![123u8], lit + (seq![34u8] + (esc + (seq![34u8] + seq![44u8]))));
    assert(bytes.subrange(pos, pos + 1)[0] == 123);
    lemma_tail_split(bytes, pos + 1, lit, seq![34u8] + (esc + (seq![34u8] + seq![44u8])));
    let p1 = pos + 1 + lit.len();
    lemma_tail_split(bytes, p1, seq![34u8], esc + (seq![34u8] + seq![44u8]));
    assert(bytes.subrange(p1, p1 + 1)[0] == 34);
    lemma_tail_split(bytes, p1 + 1, esc, seq![34u8] + seq![44u8]);
    lemma_tail_split(bytes, p1 + 1 + esc.len(), seq![34u8], seq![44u8]);
    assert(bytes.subrange(p1 + 1 + esc.len(), p1 + 2 + esc.len())[0] == 34);
    assert(bytes.subrange(p1 + 2 + esc.len(), p1 + 3 + esc.len())[0] == 44);
    let tail_rest = bytes.subrange(p1 + 2 + esc.len(), bytes.len() as int);
    assert(bytes.subrange(p1 + 1, bytes.len() as int) =~= esc + seq![34u8] + tail_rest);
    lemma_unescape_escape(fi.filename@, tail_rest);
}

/// On any input where some canonical file-metadata section stands at `pos`,
/// each early step of its parse succeeds; stated in the contrapositive for
/// the parser's failure paths.
proof fn lemma_fi_prefix_all(bytes: Seq<u8>, pos: int)
    ensures
        forall|fi: FileInfo| #[trigger] tail_at(bytes, pos, json_file_info(fi)) ==> ({
            let lit = ("\"filename\":").spec_bytes();
            let esc = escape_seq(fi.filename@);
            let p1 = pos + 1 + lit.len();
            &&& pos < bytes.len()
            &&& bytes[pos] == 123
            &&& pos + 1 + lit.len() <= bytes.len()
            &&& bytes.subrange(pos + 1, p1) == lit
            &&& p1 < bytes.len()
            &&& bytes[p1] == 34
            &&& crate::json::unescape(bytes.subrange(p1 + 1, bytes.len() as int)) == Some(
                (fi.filename@, esc.len() + 1 as int),
            )
            &&& bytes[p1 + 1 + esc.len() + 1] == 44
            &&& p1 + 1 + esc.len() + 1 < bytes.len()
            &&& tail_at(
                bytes,
                p1 + esc.len() + 3,
                json_fields_from(fi_keys(), fi_vals(fi), 0, 125u8),
            )
        }),
{
    assert forall|fi: FileInfo| #[trigger] tail_at(bytes, pos, json_file_info(fi)) implies ({
        let lit = ("\"filename\":").spec_bytes();
        let esc = escape_seq(fi.filename@);
        let p1 = pos + 1 + lit.len();
        &&& pos < bytes.len()
        &&& bytes[pos] == 123
        &&& pos + 1 + lit.len() <= bytes.len()
        &&& bytes.subrange(pos + 1, p1) == lit
        &&& p1 < bytes.len()
        &&& bytes[p1] == 34
        &&& crate::json::unescape(bytes.subrange(p1 + 1, bytes.len() as int)) == Some(
            (fi.filename@, esc.len() + 1 as int),
        )
        &&& bytes[p1 + 1 + esc.len() + 1] == 44
        &&& p1 + 1 + esc.len() + 1 < bytes.len()
        &&& tail_at(
            bytes,
            p1 + esc.len() + 3,
            json_fields_from(fi_keys(), fi_vals(fi), 0, 125u8),
        )
    }) by {
        lemma_fi_parts(bytes, pos, fi);
    }
}

/// Numeric code persisted for a dominant-range classification.
pub open spec fn dominant_code(d: DominantRange) -> int {
    match d {
        DominantRange::Unknown => 0,
        DominantRange::BassHeavy => 1,
        DominantRange::TrebleFocused => 2,
        DominantRange::Balanced => 3,
    }
}

/// Numeric code persisted for an energy-profile classification.
pub open spec fn energy_code(e: EnergyProfile) -> int {
    match e {
        EnergyProfile::Unknown => 0,
        EnergyProfile::Low => 1,
        EnergyProfile::Medium => 2,
        EnergyProfile::High => 3,
        EnergyProfile::Dynamic => 4,
    }
}

fn dominant_to_code(d: &DominantRange) -> (r: u64)
    ensures
        r == dominant_code(*d),
{
    match d {
        DominantRange::Unknown => 0,
        DominantRange::BassHeavy => 1,
        DominantRange::TrebleFocused => 2,
        DominantRange::Balanced => 3,
    }
}

/// The classification a persisted code denotes (unknown for zero).
pub open spec fn dominant_of_code(c: int) -> DominantRange {
    if c == 1 {
        DominantRange::BassHeavy
    } else if c == 2 {
        DominantRange::TrebleFocused
    } else if c == 3 {
        DominantRange::Balanced
    } else {
        DominantRange::Unknown
    }
}

/// A dominant-range classification survives the trip through its code.
proof fn lemma_dominant_code_round(d: DominantRange)
    ensures
        dominant_of_code(dominant_code(d)) == d,
{
    match d {
        DominantRange::Unknown => {},
        DominantRange::BassHeavy => {},
        DominantRange::TrebleFocused => {},
        DominantRange::Balanced => {},
    }
}

fn dominant_from_code(c: u64) -> (r: Option<DominantRange>)
    ensures
        r matches Some(d) ==> dominant_code(d) == c && d == dominant_of_code(c as int),
        r is None ==> c > 3,
{
    if c == 0 {
        Some(DominantRange::Unknown)
    } else if c == 1 {
        Some(DominantRange::BassHeavy)
    } else if c == 2 {
        Some(DominantRange::TrebleFocused)
    } else if c == 3 {
        Some(DominantRange::Balanced)
    } else {
        None
    }
}

fn energy_to_code(e: &EnergyProfile) -> (r: u64)
    ensures
        r == energy_code(*e),
{
    match e {
        EnergyProfile::Unknown => 0,
        EnergyProfile::Low => 1,
        EnergyProfile::Medium => 2,
        EnergyProfile::High => 3,
        EnergyProfile::Dynamic => 4,
    }
}

/// The energy profile a persisted code denotes (unknown for zero).
pub open spec fn energy_of_code(c: int) -> EnergyProfile {
    if c == 1 {
        EnergyProfile::Low
    } else if c == 2 {
        EnergyProfile::Medium
    } else if c == 3 {
        EnergyProfile::High
    } else if c == 4 {
        EnergyProfile::Dynamic
    } else {
        EnergyProfile::Unknown
    }
}

/// An energy-profile classification survives the trip through its code.
proof fn lemma_energy_code_round(e: EnergyProfile)
    ensures
        energy_of_code(energy_code(e)) == e,
{
    match e {
        EnergyProfile::Unknown => {},
        EnergyProfile::Low => {},
        EnergyProfile::Medium => {},
        EnergyProfile::High => {},
        EnergyProfile::Dynamic => {},
    }
}

fn energy_from_code(c: u64) -> (r: Option<EnergyProfile>)
    ensures
        r matches Some(e) ==> energy_code(e) == c && e == energy_of_code(c as int),
        r is None ==> c > 4,
{
    if c == 0 {
        Some(EnergyProfile::Unknown)
    } else if c == 1 {
        Some(EnergyProfile::Low)
    } else if c == 2 {
        Some(EnergyProfile::Medium)
    } else if c == 3 {
        Some(EnergyProfile::High)
    } else if c == 4 {
        Some(EnergyProfile::Dynamic)
    } else {
        None
    }
}

/// The statistics section: a JSON object in this codec's canonical form,
/// classifications carried as their numeric codes.
pub open spec fn json_stats(st: AnalysisStatistics) -> Seq<u8> {
    seq![123u8] + json_fields_from(stats_keys(), stats_vals(st), 0, 125u8)
}

/// Append the statistics section.
pub fn write_stats(out: &mut Vec<u8>, st: &AnalysisStatistics)
    ensures
        final(out)@ == old(out)@ + json_stats(*st),
{
    out.push(123);
    let keys = stats_key_table();
    let mut vals: Vec<u64> = Vec::new();
    vals.push(st.peak_bass as u64);
    vals.push(st.peak_mid as u64);
    vals.push(st.peak_treble as u64);
    vals.push(st.peak_presence as u64);
    vals.push(st.peak_volume as u64);
    vals.push(st.peak_spectral_flux as u64);
    vals.push(st.peak_onset as u64);
    vals.push(st.total_beats as u64);
    vals.push(st.average_bpm);
    vals.push(st.bpm_range.0);
    vals.push(st.bpm_range.1);
    vals.push(dominant_to_code(&st.dominant_frequency_range));
    vals.push(energy_to_code(&st.energy_profile));
    vals.push(st.complexity_score as u64);
    proof {
        assert(vals@ =~= stats_vals(*st));
    }
    write_fields(out, &keys, &vals, 125);
    proof {
        assert(final(out)@ =~= old(out)@ + json_stats(*st));
    }
}

/// The statistics section's field keys, in writing order.
pub open spec fn stats_keys() -> Seq<Seq<u8>> {
    seq![
        ("\"peak_bass\":").spec_bytes(),
        ("\"peak_mid\":").spec_bytes(),
        ("\"peak_treble\":").spec_bytes(),
        ("\"peak_presence\":").spec_bytes(),
        ("\"peak_volume\":").spec_bytes(),
        ("\"peak_spectral_flux\":").spec_bytes(),
        ("\"peak_onset\":").spec_bytes(),
        ("\"total_beats\":").spec_bytes(),
        ("\"average_bpm\":").spec_bytes(),
        ("\"bpm_min\":").spec_bytes(),
        ("\"bpm_max\":").spec_bytes(),
        ("\"dominant_frequency_range\":").spec_bytes(),
        ("\"energy_profile\":").spec_bytes(),
        ("\"complexity_score\":").spec_bytes(),
    ]
}

/// The statistics section's field values, in writing order.
pub open spec fn stats_vals(st: AnalysisStatistics) -> Seq<u64> {
    seq![
        st.peak_bass as u64,
        st.peak_mid as u64,
        st.peak_treble as u64,
        st.peak_presence as u64,
        st.peak_volume as u64,
        st.peak_spectral_flux as u64,
        st.peak_onset as u64,
        st.total_beats as u64,
        st.average_bpm,
        st.bpm_range.0,
        st.bpm_range.1,
        dominant_code(st.dominant_frequency_range) as u64,
        energy_code(st.energy_profile) as u64,
        st.complexity_score as u64,
    ]
}

/// The statistics section's field keys, as the writer and the parser pass
/// them.
fn stats_key_table() -> (r: Vec<&'static str>)
    ensures
        keys_bytes(r@) == stats_keys(),
        r@.len() == 14,
{
    let mut keys: Vec<&str> = Vec::new();
    keys.push("\"peak_bass\":");
    keys.push("\"peak_mid\":");
    keys.push("\"peak_treble\":");
    keys.push("\"peak_presence\":");
    keys.push("\"peak_volume\":");
    keys.push("\"peak_spectral_flux\":");
    keys.push("\"peak_onset\":");
    keys.push("\"total_beats\":");
    keys.push("\"average_bpm\":");
    keys.push("\"bpm_min\":");
    keys.push("\"bpm_max\":");
    keys.push("\"dominant_frequency_range\":");
    keys.push("\"energy_profile\":");
    keys.push("\"complexity_score\":");
    proof {
        assert(keys_bytes(keys@) =~= stats_keys());
    }
    keys
}

/// Under a canonical statistics section at `pos`, the opening brace and the
/// field run stand at their pinned positions.
proof fn lemma_stats_parts(bytes: Seq<u8>, pos: int)
    ensures
        forall|st: AnalysisStatistics| #[trigger] tail_at(bytes, pos, json_stats(st)) ==> ({
            &&& pos < bytes.len()
            &&& bytes[pos] == 123
            &&& tail_at(bytes, pos + 1, json_fields_from(stats_keys(), stats_vals(st), 0, 125u8))
            &&& json_stats(st).len() == 1 + json_fields_from(
                stats_keys(),
                stats_vals(st),
                0,
                125u8,
            ).len()
        }),
{
    assert forall|st: AnalysisStatistics| #[trigger] tail_at(bytes, pos, json_stats(st)) implies ({
        &&& pos < bytes.len()
        &&& bytes[pos] == 123
        &&& tail_at(bytes, pos + 1, json_fields_from(stats_keys(), stats_vals(st), 0, 125u8))
        &&& json_stats(st).len() == 1 + json_fields_from(
            stats_keys(),
            stats_vals(st),
            0,
            125u8,
        ).len()
    }) by {
        lemma_tail_split(
            bytes,
            pos,
            seq![123u8],
            json_fields_from(stats_keys(), stats_vals(st), 0, 125u8),
        );
        assert(bytes.subrange(pos, pos + 1)[0] == 123);
    }
}

/// Parse the statistics section at `pos`: the codec's canonical object form,
/// rejecting anything else. On an input that carries exactly the section
/// written for some statistics record, the result is that record and the
/// position just past the section.
#[verifier::rlimit(100)]
#[verifier::spinoff_prover]
pub fn parse_stats(bytes: &Vec<u8>, pos: usize) -> (r: Option<(AnalysisStatistics, usize)>)
    ensures
        r matches Some(t) ==> pos < t.1 <= bytes@.len(),
        forall|st: AnalysisStatistics| #[trigger] tail_at(bytes@, pos as int, json_stats(st)) ==> (
        r matches Some(t) && t.0 == st && t.1 == pos + json_stats(st).len()),
{
    let p0 = match expect_byte(bytes, pos, 123) {
        Some(p) => p,
        None => {
            proof {
                lemma_stats_parts(bytes@, pos as int);
            }
            return None;
        },
    };
    let keys = stats_key_table();
    let (vals, p1) = match parse_fields(bytes, p0, &keys, 125) {
        Some(t) => t,
        None => {
            proof {
                lemma_stats_parts(bytes@, pos as int);
            }
            return None;
        },
    };
    if vals[0] > u32::MAX as u64 || vals[1] > u32::MAX as u64 || vals[2] > u32::MAX as u64
        || vals[3] > u32::MAX as u64 || vals[4] > u32::MAX as u64 || vals[5] > u32::MAX as u64
        || vals[6] > u32::MAX as u64 || vals[7] > u32::MAX as u64 || vals[13] > u32::MAX as u64 {
        proof {
            lemma_stats_parts(bytes@, pos as int);
        }
        return None;
    }
    let dominant_frequency_range = match dominant_from_code(vals[11]) {
        Some(d) => d,
        None => {
            proof {
                lemma_stats_parts(bytes@, pos as int);
            }
            return None;
        },
    };
    let energy_profile = match energy_from_code(vals[12]) {
        Some(e) => e,
        None => {
            proof {
                lemma_stats_parts(bytes@, pos as int);
            }
            return None;
        },
    };
    let out = AnalysisStatistics {
        peak_bass: vals[0] as u32,
        peak_mid: vals[1] as u32,
        peak_treble: vals[2] as u32,
        peak_presence: vals[3] as u32,
        peak_volume: vals[4] as u32,
        peak_spectral_flux: vals[5] as u32,
        peak_onset: vals[6] as u32,
        total_beats: vals[7] as u32,
        average_bpm: vals[8],
        bpm_range: (vals[9], vals[10]),
        dominant_frequency_range,
        energy_profile,
        complexity_score: vals[13] as u32,
    };
    proof {
        lemma_stats_parts(bytes@, pos as int);
        assert forall|st: AnalysisStatistics| #[trigger] tail_at(
            bytes@,
            pos as int,
            json_stats(st),
        ) implies out == st && p1 == pos + json_stats(st).len() by {
            assert(stats_vals(st).len() == keys@.len());
            lemma_dominant_code_round(st.dominant_frequency_range);
            lemma_energy_code_round(st.energy_profile);
        }
    }
    Some((out, p1))
}


/// The two little-endian bytes of a 16-bit value.
pub open spec fn le16(v: u16) -> Seq<u8> {
    seq![(v as int % 256) as u8, (v as int / 256) as u8]
}

/// The 16-bit value two little-endian bytes carry.
pub open spec fn read_le16(b0: u8, b1: u8) -> u16 {
    (b0 + 256 * b1) as u16
}

/// The persisted bytes of one packed frame, in the fixed field order with
/// two zero reserved bytes.
pub open spec fn frame_bytes(p: PackedFrame) -> Seq<u8> {
    le16(p.bass) + le16(p.mid) + le16(p.treble) + le16(p.sub_bass) + le16(p.presence) + le16(
        p.spectral_centroid,
    ) + le16(p.pitch_confidence) + le16(p.onset_strength) + seq![
        p.beat_data,
        p.beat_strength,
        0u8,
        0u8,
    ]
}

/// The packed frame a 20-byte window carries; the reserved bytes are
/// ignored.
pub open spec fn parse_frame_spec(b: Seq<u8>) -> PackedFrame
    recommends
        b.len() == BYTES_PER_FRAME,
{
    PackedFrame {
        bass: read_le16(b[0], b[1]),
        mid: read_le16(b[2], b[3]),
        treble: read_le16(b[4], b[5]),
        sub_bass: read_le16(b[6], b[7]),
        presence: read_le16(b[8], b[9]),
        spectral_centroid: read_le16(b[10], b[11]),
        pitch_confidence: read_le16(b[12], b[13]),
        onset_strength: read_le16(b[14], b[15]),
        beat_data: b[16],
        beat_strength: b[17],
    }
}

/// Law (frame round trip): reading back a packed frame's persisted bytes
/// yields the frame exactly; the record is 20 bytes long.
pub proof fn lemma_frame_bytes_round_trip(p: PackedFrame)
    ensures
        frame_bytes(p).len() == BYTES_PER_FRAME,
        parse_frame_spec(frame_bytes(p)) == p,
{
    lemma_le16_round(p.bass);
    lemma_le16_round(p.mid);
    lemma_le16_round(p.treble);
    lemma_le16_round(p.sub_bass);
    lemma_le16_round(p.presence);
    lemma_le16_round(p.spectral_centroid);
    lemma_le16_round(p.pitch_confidence);
    lemma_le16_round(p.onset_strength);
}

/// Reassembling a 16-bit value from its little-endian bytes yields it back.
proof fn lemma_le16_round(v: u16)
    ensures
        read_le16(le16(v)[0], le16(v)[1]) == v,
{
    lemma_fundamental_div_mod(v as int, 256);
}

/// Append one packed frame's bytes.
fn write_frame(out: &mut Vec<u8>, p: &PackedFrame)
    ensures
        final(out)@ == old(out)@ + frame_bytes(*p),
{
    out.push((p.bass % 256) as u8);
    out.push((p.bass / 256) as u8);
    out.push((p.mid % 256) as u8);
    out.push((p.mid / 256) as u8);
    out.push((p.treble % 256) as u8);
    out.push((p.treble / 256) as u8);
    out.push((p.sub_bass % 256) as u8);
    out.push((p.sub_bass / 256) as u8);
    out.push((p.presence % 256) as u8);
    out.push((p.presence / 256) as u8);
    out.push((p.spectral_centroid % 256) as u8);
    out.push((p.spectral_centroid / 256) as u8);
    out.push((p.pitch_confidence % 256) as u8);
    out.push((p.pitch_confidence / 256) as u8);
    out.push((p.onset_strength % 256) as u8);
    out.push((p.onset_strength / 256) as u8);
    out.push(p.beat_data);
    out.push(p.beat_strength);
    out.push(0);
    out.push(0);
    proof {
        assert(final(out)@ =~= old(out)@ + frame_bytes(*p));
    }
}

/// Read one packed frame from a 20-byte window.
fn parse_frame(bytes: &Vec<u8>, pos: usize) -> (r: PackedFrame)
    requires
        pos + BYTES_PER_FRAME <= bytes@.len(),
        bytes@.len() <= usize::MAX,
    ensures
        r == parse_frame_spec(bytes@.subrange(pos as int, pos + BYTES_PER_FRAME)),
{
    let r = PackedFrame {
        bass: (bytes[pos] as u16) + 256 * (bytes[pos + 1] as u16),
        mid: (bytes[pos + 2] as u16) + 256 * (bytes[pos + 3] as u16),
        treble: (bytes[pos + 4] as u16) + 256 * (bytes[pos + 5] as u16),
        sub_bass: (bytes[pos + 6] as u16) + 256 * (bytes[pos + 7] as u16),
        presence: (bytes[pos + 8] as u16) + 256 * (bytes[pos + 9] as u16),
        spectral_centroid: (bytes[pos + 10] as u16) + 256 * (bytes[pos + 11] as u16),
        pitch_confidence: (bytes[pos + 12] as u16) + 256 * (bytes[pos + 13] as u16),
        onset_strength: (bytes[pos + 14] as u16) + 256 * (bytes[pos + 15] as u16),
        beat_data: bytes[pos + 16],
        beat_strength: bytes[pos + 17],
    };
    proof {
        assert(bytes@.subrange(pos as int, pos + BYTES_PER_FRAME)[0] == bytes@[pos as int]);
    }
    r
}

/// The persisted bytes of a whole frame sequence, in order.
pub open spec fn frames_bytes(frames: Seq<PrescanFrame>) -> Seq<u8>
    decreases frames.len(),
{
    if frames.len() == 0 {
        Seq::empty()
    } else {
        frames_bytes(frames.drop_last()) + frame_bytes(PackedFrame::spec_from_frame(frames.last()))
    }
}

/// Extending the persisted frames by one.
proof fn lemma_frames_bytes_step(frames: Seq<PrescanFrame>, i: int)
    requires
        0 <= i < frames.len(),
    ensures
        frames_bytes(frames.subrange(0, i + 1)) == frames_bytes(frames.subrange(0, i))
            + frame_bytes(PackedFrame::spec_from_frame(frames[i])),
{
    assert(frames.subrange(0, i + 1).drop_last() =~= frames.subrange(0, i));
}

/// The four little-endian bytes of a 32-bit length.
pub open spec fn le32(v: int) -> Seq<u8> {
    seq![
        (v % 256) as u8,
        (v / 256 % 256) as u8,
        (v / 65536 % 256) as u8,
        (v / 16777216 % 256) as u8,
    ]
}

fn write_le32(out: &mut Vec<u8>, v: u32)
    ensures
        final(out)@ == old(out)@ + le32(v as int),
{
    out.push((v % 256) as u8);
    out.push((v / 256 % 256) as u8);
    out.push((v / 65536 % 256) as u8);
    out.push((v / 16777216 % 256) as u8);
    proof {
        assert(final(out)@ =~= old(out)@ + le32(v as int));
    }
}

fn read_le32(bytes: &Vec<u8>, pos: usize) -> (r: u32)
    requires
        pos + 4 <= bytes@.len(),
        bytes@.len() <= usize::MAX,
    ensures
        r == bytes@[pos as int] + 256 * bytes@[pos + 1] + 65536 * bytes@[pos + 2] + 16777216
            * bytes@[pos + 3],
{
    (bytes[pos] as u32) + 256 * (bytes[pos + 1] as u32) + 65536 * (bytes[pos + 2] as u32)
        + 16777216 * (bytes[pos + 3] as u32)
}

/// Reassembling a 32-bit length from its little-endian bytes yields it back.
pub proof fn lemma_le32_round(v: u32)
    ensures
        le32(v as int)[0] + 256 * le32(v as int)[1] + 65536 * le32(v as int)[2] + 16777216 * le32(
            v as int,
        )[3] == v,
{
    assert(v as int % 256 + 256 * (v as int / 256 % 256) + 65536 * (v as int / 65536 % 256)
        + 16777216 * (v as int / 16777216 % 256) == v) by (bit_vector)
        requires
            v < 0x1_0000_0000,
    ;
}

/// The whole persisted artifact: magic, version, length-prefixed metadata
/// and statistics sections, the frame count, and the packed frames.
#[verifier::opaque]
pub open spec fn spec_encode(d: PrescanData) -> Seq<u8> {
    magic_seq() + seq![FORMAT_VERSION] + le32(json_file_info(d.file_info).len() as int)
        + json_file_info(d.file_info) + le32(json_stats(d.statistics).len() as int) + json_stats(
        d.statistics,
    ) + le32(d.frames@.len() as int) + frames_bytes(d.frames@)
}

/// The 32-bit little-endian value carried at `pos`.
pub open spec fn le32_at(bytes: Seq<u8>, pos: int) -> int
    recommends
        0 <= pos,
        pos + 4 <= bytes.len(),
{
    bytes[pos] + 256 * bytes[pos + 1] + 65536 * bytes[pos + 2] + 16777216 * bytes[pos + 3]
}

/// The input is exactly the canonical artifact encoding of `d`, with `d`
/// inside the ranges the artifact can carry back: metadata rates in range,
/// the frame count and average tempo within 32 bits, the sections within
/// their length prefixes, and every reconstructed timestamp within 64 bits.
pub open spec fn canonical_arv(bytes: Seq<u8>, d: PrescanData) -> bool {
    &&& spec_encode(d) == bytes
    &&& d.file_info.wf()
    &&& d.frames@.len() <= u32::MAX
    &&& d.statistics.average_bpm <= u32::MAX
    &&& json_file_info(d.file_info).len() <= u32::MAX
    &&& json_stats(d.statistics).len() <= u32::MAX
    &&& d.frames@.len() * d.file_info.window_us() <= u64::MAX
}

/// The persisted frame area is one fixed-size record per frame.
proof fn lemma_frames_bytes_len(frames: Seq<PrescanFrame>)
    ensures
        frames_bytes(frames).len() == (BYTES_PER_FRAME as int) * frames.len(),
    decreases frames.len(),
{
    if frames.len() > 0 {
        lemma_frames_bytes_len(frames.drop_last());
        lemma_frame_bytes_round_trip(PackedFrame::spec_from_frame(frames.last()));
    }
}

/// Each frame's record stands at its fixed offset in the persisted frame
/// area.
proof fn lemma_frame_bytes_at(bytes: Seq<u8>, base: int, frames: Seq<PrescanFrame>, i: int)
    requires
        0 <= i < frames.len(),
        tail_at(bytes, base, frames_bytes(frames)),
    ensures
        bytes.subrange(
            base + i * (BYTES_PER_FRAME as int),
            base + i * (BYTES_PER_FRAME as int) + (BYTES_PER_FRAME as int),
        ) == frame_bytes(PackedFrame::spec_from_frame(frames[i])),
    decreases frames.len(),
{
    let g = frames.drop_last();
    lemma_frames_bytes_len(g);
    lemma_frame_bytes_round_trip(PackedFrame::spec_from_frame(frames.last()));
    lemma_tail_split(bytes, base, frames_bytes(g), frame_bytes(
        PackedFrame::spec_from_frame(frames.last()),
    ));
    if i == frames.len() - 1 {
        assert(bytes.subrange(
            base + i * (BYTES_PER_FRAME as int),
            base + i * (BYTES_PER_FRAME as int) + (BYTES_PER_FRAME as int),
        ) == frame_bytes(PackedFrame::spec_from_frame(frames[i])));
    } else {
        assert(g[i] == frames[i]);
        lemma_frame_bytes_at(bytes, base, g, i);
    }
}

/// The artifact encoding decomposes at its section boundaries.
#[verifier::rlimit(100)]
proof fn lemma_encode_shape(d: PrescanData)
    ensures
        spec_encode(d) == magic_seq() + (seq![FORMAT_VERSION] + (le32(
            json_file_info(d.file_info).len() as int,
        ) + (json_file_info(d.file_info) + (le32(json_stats(d.statistics).len() as int) + (
        json_stats(d.statistics) + (le32(d.frames@.len() as int) + frames_bytes(d.frames@))))))),
{
    reveal(spec_encode);
    assert(spec_encode(d) =~= magic_seq() + (seq![FORMAT_VERSION] + (le32(
        json_file_info(d.file_info).len() as int,
    ) + (json_file_info(d.file_info) + (le32(json_stats(d.statistics).len() as int) + (
    json_stats(d.statistics) + (le32(d.frames@.len() as int) + frames_bytes(d.frames@))))))));
}

/// Under a canonical artifact, the header fields, the section prefixes and
/// contents, the frame count and the frame area all stand at their pinned
/// positions.
#[verifier::rlimit(100)]
proof fn lemma_encode_parts(bytes: Seq<u8>)
    ensures
        forall|d: PrescanData| #[trigger] canonical_arv(bytes, d) ==> ({
            let l1 = json_file_info(d.file_info).len() as int;
            let l2 = json_stats(d.statistics).len() as int;
            let fc = d.frames@.len() as int;
            &&& bytes.len() == 17 + l1 + l2 + (BYTES_PER_FRAME as int) * fc
            &&& bytes.subrange(0, 4) == magic_seq()
            &&& bytes[4] == FORMAT_VERSION
            &&& le32_at(bytes, 5) == l1
            &&& tail_at(bytes, 9, json_file_info(d.file_info))
            &&& le32_at(bytes, 9 + l1) == l2
            &&& tail_at(bytes, 13 + l1, json_stats(d.statistics))
            &&& le32_at(bytes, 13 + l1 + l2) == fc
            &&& tail_at(bytes, 17 + l1 + l2, frames_bytes(d.frames@))
        }),
{
    assert forall|d: PrescanData| #[trigger] canonical_arv(bytes, d) implies ({
        let l1 = json_file_info(d.file_info).len() as int;
        let l2 = json_stats(d.statistics).len() as int;
        let fc = d.frames@.len() as int;
        &&& bytes.len() == 17 + l1 + l2 + (BYTES_PER_FRAME as int) * fc
        &&& bytes.subrange(0, 4) == magic_seq()
        &&& bytes[4] == FORMAT_VERSION
        &&& le32_at(bytes, 5) == l1
        &&& tail_at(bytes, 9, json_file_info(d.file_info))
        &&& le32_at(bytes, 9 + l1) == l2
        &&& tail_at(bytes, 13 + l1, json_stats(d.statistics))
        &&& le32_at(bytes, 13 + l1 + l2) == fc
        &&& tail_at(bytes, 17 + l1 + l2, frames_bytes(d.frames@))
    }) by {
        lemma_encode_shape(d);
        lemma_frames_bytes_len(d.frames@);
        let fi = json_file_info(d.file_info);
        let st = json_stats(d.statistics);
        let fb = frames_bytes(d.frames@);
        let l1 = fi.len() as int;
        let l2 = st.len() as int;
        let fc = d.frames@.len() as int;
        assert(bytes.subrange(0, spec_encode(d).len() as int) =~= bytes);
        lemma_tail_split(
            bytes,
            0,
            magic_seq(),
            seq![FORMAT_VERSION] + (le32(l1) + (fi + (le32(l2) + (st + (le32(fc) + fb))))),
        );
        lemma_tail_split(
            bytes,
            4,
            seq![FORMAT_VERSION],
            le32(l1) + (fi + (le32(l2) + (st + (le32(fc) + fb)))),
        );
        assert(bytes.subrange(4, 5)[0] == FORMAT_VERSION);
        lemma_tail_split(bytes, 5, le32(l1), fi + (le32(l2) + (st + (le32(fc) + fb))));
        lemma_tail_split(bytes, 9, fi, le32(l2) + (st + (le32(fc) + fb)));
        lemma_tail_split(bytes, 9 + l1, le32(l2), st + (le32(fc) + fb));
        lemma_tail_split(bytes, 13 + l1, st, le32(fc) + fb);
        lemma_tail_split(bytes, 13 + l1 + l2, le32(fc), fb);
        lemma_le32_values(bytes, 5, l1);
        lemma_le32_values(bytes, 9 + l1, l2);
        lemma_le32_values(bytes, 13 + l1 + l2, fc);
    }
}

/// A 32-bit length carried little-endian at `pos` reads back as itself.
proof fn lemma_le32_values(bytes: Seq<u8>, pos: int, v: int)
    requires
        0 <= v <= u32::MAX,
        tail_at(bytes, pos, le32(v)),
    ensures
        le32_at(bytes, pos) == v,
{
    lemma_le32_round(v as u32);
    assert(bytes.subrange(pos, pos + 4)[0] == le32(v)[0]);
    assert(bytes.subrange(pos, pos + 4)[1] == le32(v)[1]);
    assert(bytes.subrange(pos, pos + 4)[2] == le32(v)[2]);
    assert(bytes.subrange(pos, pos + 4)[3] == le32(v)[3]);
}

/// The fraction of the textual size that the binary artifact saves, in
/// micro-units (zero when the textual size is zero or the artifact is no
/// smaller).
pub open spec fn spec_compression_ratio(arv_size: u64, json_size: u64) -> int {
    if json_size == 0 || arv_size >= json_size {
        0
    } else {
        (json_size - arv_size) * 1_000_000 / (json_size as int)
    }
}

/// Compact binary persistence of prescan data.
pub struct ArvFormat;

impl ArvFormat {
    /// Serialize prescan data into the compact binary artifact. The bytes
    /// are exactly the canonical encoding; nothing partial is ever handed
    /// back, and the only refusal is a section outgrowing its 32-bit length
    /// prefix.
    #[verifier::rlimit(100)]
    #[verifier::spinoff_prover]
    pub fn save_arv(prescan_data: &PrescanData) -> (r: Option<Vec<u8>>)
        requires
            prescan_data.frames@.len() <= u32::MAX,
        ensures
            r matches Some(out) ==> out@ == spec_encode(*prescan_data),
            r is None <==> json_file_info(prescan_data.file_info).len() > u32::MAX || json_stats(
                prescan_data.statistics,
            ).len() > u32::MAX,
    {
        let mut j1: Vec<u8> = Vec::new();
        write_file_info(&mut j1, &prescan_data.file_info);
        let mut j2: Vec<u8> = Vec::new();
        write_stats(&mut j2, &prescan_data.statistics);
        if j1.len() > u32::MAX as usize || j2.len() > u32::MAX as usize {
            return None;
        }

        let mut out: Vec<u8> = Vec::new();
        out.push(65);
        out.push(82);
        out.push(86);
        out.push(86);
        out.push(FORMAT_VERSION);
        write_le32(&mut out, j1.len() as u32);
        out.append(&mut j1);
        write_le32(&mut out, j2.len() as u32);
        out.append(&mut j2);
        write_le32(&mut out, prescan_data.frames.len() as u32);

        let ghost prefix = out@;
        let mut i: usize = 0;
        while i < prescan_data.frames.len()
            invariant
                i <= prescan_data.frames@.len(),
                out@ == prefix + frames_bytes(prescan_data.frames@.subrange(0, i as int)),
            decreases prescan_data.frames@.len() - i,
        {
            proof {
                lemma_frames_bytes_step(prescan_data.frames@, i as int);
            }
            let packed = PackedFrame::from_prescan_frame(&prescan_data.frames[i]);
            write_frame(&mut out, &packed);
            i = i + 1;
        }
        proof {
            reveal(spec_encode);
            assert(prescan_data.frames@.subrange(0, prescan_data.frames@.len() as int)
                =~= prescan_data.frames@);
            assert(out@ =~= spec_encode(*prescan_data));
        }
        Some(out)
    }

    /// How much smaller the artifact is than its textual equivalent: the
    /// saved fraction of the textual size, in micro-units (zero when the
    /// textual size is zero or the artifact is no smaller).
    pub fn compression_ratio(arv_size: u64, json_size: u64) -> (r: u64)
        ensures
            r == spec_compression_ratio(arv_size, json_size),
            r <= 1_000_000,
    {
        if json_size == 0 || arv_size >= json_size {
            return 0;
        }
        proof {
            lemma_multiply_divide_le(
                (json_size - arv_size) as int * 1_000_000,
                json_size as int,
                1_000_000,
            );
        }
        (((json_size - arv_size) as u128) * 1_000_000 / (json_size as u128)) as u64
    }

    /// Load prescan data from the compact binary artifact.
    ///
    /// The first four bytes decide `InvalidFormat` (exactly when they are
    /// not the magic), the version byte decides `UnsupportedVersion`
    /// (exactly when it is present but not this codec's version), a section
    /// ending early is `Truncated`, and content this codec would not write
    /// is `Malformed`. Success is only ever reported when the input reaches
    /// past every declared length-prefixed section and the whole declared
    /// frame area, and yields exactly the declared number of frames. On
    /// success the frames form a uniform-rate series under the loaded
    /// metadata, every per-frame tempo is set from the file-level average,
    /// and the fields the format does not persist are zero. On exactly the
    /// canonical encoding of an in-range prescan, loading succeeds and
    /// reproduces the metadata and statistics exactly and each frame up to
    /// its quantization.
    #[verifier::rlimit(100)]
    pub fn load_arv(bytes: &Vec<u8>) -> (r: Result<PrescanData, ArvError>)
        ensures
            (bytes@.len() < 4 || bytes@.subrange(0, 4) != magic_seq()) <==> r == Err::<
                PrescanData,
                ArvError,
            >(ArvError::InvalidFormat),
            (bytes@.len() >= 5 && bytes@.subrange(0, 4) == magic_seq() && bytes@[4]
                != FORMAT_VERSION) <==> r == Err::<PrescanData, ArvError>(
                ArvError::UnsupportedVersion,
            ),
            r matches Ok(d) ==> {
                &&& d.file_info.wf()
                &&& d.frames@.len() <= u32::MAX
                &&& d.statistics.average_bpm <= u32::MAX
                &&& forall|i: int|
                    0 <= i < d.frames@.len() ==> (#[trigger] d.frames@[i]).timestamp == i
                        * d.file_info.window_us()
                &&& forall|i: int|
                    0 <= i < d.frames@.len() ==> (#[trigger] d.frames@[i]).estimated_bpm
                        == d.statistics.average_bpm
                &&& forall|i: int|
                    0 <= i < d.frames@.len() ==> (#[trigger] d.frames@[i]).spectral_rolloff == 0
                        && d.frames@[i].zero_crossing_rate == 0 && d.frames@[i].spectral_flux
                        == 0 && d.frames@[i].volume == 0 && d.frames@[i].dynamic_range == 0
            },
            r matches Ok(d) ==> ({
                let l1 = le32_at(bytes@, 5);
                let l2 = le32_at(bytes@, 9 + l1);
                let fc = le32_at(bytes@, 13 + l1 + l2);
                &&& bytes@.len() >= 17 + l1 + l2 + fc * (BYTES_PER_FRAME as int)
                &&& d.frames@.len() == fc
            }),
            forall|d: PrescanData|
                #[trigger] canonical_arv(bytes@, d) ==> (r matches Ok(o) && {
                    &&& file_info_like(o.file_info, d.file_info)
                    &&& o.statistics == d.statistics
                    &&& o.frames@.len() == d.frames@.len()
                    &&& forall|i: int|
                        0 <= i < d.frames@.len() ==> #[trigger] o.frames@[i]
                            == PackedFrame::spec_to_frame(
                            PackedFrame::spec_from_frame(d.frames@[i]),
                            (i * d.file_info.window_us()) as u64,
                            d.statistics.average_bpm as u32,
                        )
                }),
    {
        proof {
            lemma_encode_parts(bytes@);
        }
        let n = bytes.len();
        if n < 4 || bytes[0] != 65 || bytes[1] != 82 || bytes[2] != 86 || bytes[3] != 86 {
            proof {
                if n >= 4 && bytes@.subrange(0, 4) == magic_seq() {
                    assert(bytes@.subrange(0, 4)[0] == 65 && bytes@.subrange(0, 4)[1] == 82
                        && bytes@.subrange(0, 4)[2] == 86 && bytes@.subrange(0, 4)[3] == 86);
                }
            }
            return Err(ArvError::InvalidFormat);
        }
        proof {
            assert(bytes@.subrange(0, 4) =~= magic_seq());
        }
        if n < 5 {
            return Err(ArvError::Truncated);
        }
        if bytes[4] != FORMAT_VERSION {
            return Err(ArvError::UnsupportedVersion);
        }

        if n - 5 < 4 {
            return Err(ArvError::Truncated);
        }
        let l1 = read_le32(bytes, 5) as usize;
        let mut pos: usize = 9;
        if n - pos < l1 {
            return Err(ArvError::Truncated);
        }
        let file_info = match parse_file_info(bytes, pos) {
            Some((fi, p)) => {
                if p != pos + l1 {
                    return Err(ArvError::Malformed);
                }
                pos = p;
                fi
            },
            None => {
                return Err(ArvError::Malformed);
            },
        };
        if !(file_info.sample_rate >= 1 && file_info.sample_rate <= crate::analyzer::MAX_SAMPLE_RATE
            && file_info.chunk_size >= crate::analyzer::MIN_CHUNK as u64 && file_info.chunk_size
            <= crate::analyzer::MAX_CHUNK as u64) {
            return Err(ArvError::Malformed);
        }

        if n - pos < 4 {
            return Err(ArvError::Truncated);
        }
        let l2 = read_le32(bytes, pos) as usize;
        pos = pos + 4;
        if n - pos < l2 {
            return Err(ArvError::Truncated);
        }
        let statistics = match parse_stats(bytes, pos) {
            Some((st, p)) => {
                if p != pos + l2 {
                    return Err(ArvError::Malformed);
                }
                pos = p;
                st
            },
            None => {
                return Err(ArvError::Malformed);
            },
        };
        if statistics.average_bpm > u32::MAX as u64 {
            return Err(ArvError::Malformed);
        }
        let bpm = statistics.average_bpm as u32;

        if n - pos < 4 {
            return Err(ArvError::Truncated);
        }
        let frame_count = read_le32(bytes, pos) as usize;
        pos = pos + 4;
        if ((n - pos) as u64) < (frame_count as u64) * (BYTES_PER_FRAME as u64) {
            return Err(ArvError::Truncated);
        }

        let window: u64 = (file_info.chunk_size as u64) * 1_000_000 / (file_info.sample_rate
            as u64);
        proof {
            assert forall|d: PrescanData| #[trigger] canonical_arv(bytes@, d) implies window
                == d.file_info.window_us() && frame_count == d.frames@.len() by {}
        }
        let mut frames: Vec<PrescanFrame> = Vec::new();
        let mut i: usize = 0;
        while i < frame_count
            invariant
                i <= frame_count,
                frame_count <= u32::MAX,
                frames@.len() == i,
                n == bytes@.len(),
                n >= 5,
                bytes@.subrange(0, 4) == magic_seq(),
                bytes@[4] == FORMAT_VERSION,
                pos + frame_count * BYTES_PER_FRAME <= n,
                window == file_info.window_us(),
                forall|k: int|
                    0 <= k < i ==> (#[trigger] frames@[k]).timestamp == k
                        * file_info.window_us(),
                forall|k: int| 0 <= k < i ==> (#[trigger] frames@[k]).estimated_bpm == bpm,
                forall|k: int|
                    0 <= k < i ==> (#[trigger] frames@[k]).spectral_rolloff == 0
                        && frames@[k].zero_crossing_rate == 0 && frames@[k].spectral_flux == 0
                        && frames@[k].volume == 0 && frames@[k].dynamic_range == 0,
                forall|k: int|
                    0 <= k < i ==> #[trigger] frames@[k] == PackedFrame::spec_to_frame(
                        parse_frame_spec(
                            bytes@.subrange(
                                pos + k * (BYTES_PER_FRAME as int),
                                pos + k * (BYTES_PER_FRAME as int) + (BYTES_PER_FRAME as int),
                            ),
                        ),
                        (k * window) as u64,
                        bpm,
                    ),
                forall|d: PrescanData|
                    #[trigger] canonical_arv(bytes@, d) ==> window == d.file_info.window_us()
                        && frame_count == d.frames@.len(),
            decreases frame_count - i,
        {
            let ts = match (i as u64).checked_mul(window) {
                Some(t) => t,
                None => {
                    proof {
                        assert forall|d: PrescanData| #[trigger] canonical_arv(bytes@, d)
                            implies false by {
                            assert((i as int) * (window as int) <= d.frames@.len()
                                * d.file_info.window_us()) by (nonlinear_arith)
                                requires
                                    0 <= i as int <= d.frames@.len(),
                                    window as int == d.file_info.window_us(),
                                    window >= 0,
                            ;
                        }
                    }
                    return Err(ArvError::Malformed);
                },
            };
            let packed = parse_frame(bytes, pos + i * BYTES_PER_FRAME);
            let frame = packed.to_prescan_frame(ts, bpm);
            frames.push(frame);
            i = i + 1;
        }

        proof {
            assert forall|d: PrescanData| #[trigger] canonical_arv(bytes@, d) implies
                file_info_like(file_info, d.file_info) && statistics == d.statistics
                && frames@.len() == d.frames@.len() && (forall|k: int|
                0 <= k < d.frames@.len() ==> #[trigger] frames@[k] == PackedFrame::spec_to_frame(
                    PackedFrame::spec_from_frame(d.frames@[k]),
                    (k * d.file_info.window_us()) as u64,
                    d.statistics.average_bpm as u32,
                )) by {
                let base: int = 17 + json_file_info(d.file_info).len() as int + json_stats(
                    d.statistics,
                ).len() as int;
                assert forall|k: int| 0 <= k < d.frames@.len() implies #[trigger] frames@[k]
                    == PackedFrame::spec_to_frame(
                    PackedFrame::spec_from_frame(d.frames@[k]),
                    (k * d.file_info.window_us()) as u64,
                    d.statistics.average_bpm as u32,
                ) by {
                    lemma_frame_bytes_at(bytes@, base, d.frames@, k);
                    lemma_frame_bytes_round_trip(PackedFrame::spec_from_frame(d.frames@[k]));
                }
            }
        }
        Ok(PrescanData { file_info, frames, statistics })
    }
}


/// The parameter file's field keys, in writing order.
pub open spec fn params_keys() -> Seq<Seq<u8>> {
    seq![
        ("\"sub_bass_max\":").spec_bytes(),
        ("\"bass_max\":").spec_bytes(),
        ("\"mid_max\":").spec_bytes(),
        ("\"treble_max\":").spec_bytes(),
        ("\"presence_max\":").spec_bytes(),
        ("\"spectral_centroid_max\":").spec_bytes(),
        ("\"spectral_rolloff_max\":").spec_bytes(),
        ("\"spectral_flux_max\":").spec_bytes(),
        ("\"zero_crossing_rate_max\":").spec_bytes(),
        ("\"onset_strength_max\":").spec_bytes(),
        ("\"beat_strength_max\":").spec_bytes(),
        ("\"bpm_min\":").spec_bytes(),
        ("\"bpm_max\":").spec_bytes(),
        ("\"volume_max\":").spec_bytes(),
        ("\"dynamic_range_max\":").spec_bytes(),
        ("\"pitch_confidence_max\":").spec_bytes(),
    ]
}

/// The parameter file's field values, in writing order.
pub open spec fn params_vals(pm: NormalizationParameters) -> Seq<u64> {
    seq![
        pm.sub_bass_max,
        pm.bass_max,
        pm.mid_max,
        pm.treble_max,
        pm.presence_max,
        pm.spectral_centroid_max,
        pm.spectral_rolloff_max,
        pm.spectral_flux_max,
        pm.zero_crossing_rate_max,
        pm.onset_strength_max,
        pm.beat_strength_max,
        pm.bpm_min,
        pm.bpm_max,
        pm.volume_max,
        pm.dynamic_range_max,
        pm.pitch_confidence_max,
    ]
}

/// The normalization-parameter file: a JSON object whose fields are exactly
/// the parameter fields, in this codec's canonical form.
pub open spec fn json_params(pm: NormalizationParameters) -> Seq<u8> {
    seq![123u8] + json_fields_from(params_keys(), params_vals(pm), 0, 125u8)
}

/// The parameter file's field keys, as the writer and the parser pass them.
fn params_key_table() -> (r: Vec<&'static str>)
    ensures
        keys_bytes(r@) == params_keys(),
        r@.len() == 16,
{
    let mut keys: Vec<&str> = Vec::new();
    keys.push("\"sub_bass_max\":");
    keys.push("\"bass_max\":");
    keys.push("\"mid_max\":");
    keys.push("\"treble_max\":");
    keys.push("\"presence_max\":");
    keys.push("\"spectral_centroid_max\":");
    keys.push("\"spectral_rolloff_max\":");
    keys.push("\"spectral_flux_max\":");
    keys.push("\"zero_crossing_rate_max\":");
    keys.push("\"onset_strength_max\":");
    keys.push("\"beat_strength_max\":");
    keys.push("\"bpm_min\":");
    keys.push("\"bpm_max\":");
    keys.push("\"volume_max\":");
    keys.push("\"dynamic_range_max\":");
    keys.push("\"pitch_confidence_max\":");
    proof {
        assert(keys_bytes(keys@) =~= params_keys());
    }
    keys
}

/// Under a canonical parameter file at `pos`, the opening brace and the
/// field run stand at their pinned positions.
proof fn lemma_params_parts(bytes: Seq<u8>, pos: int)
    ensures
        forall|pm: NormalizationParameters| #[trigger] tail_at(bytes, pos, json_params(pm)) ==> ({
            &&& pos < bytes.len()
            &&& bytes[pos] == 123
            &&& tail_at(bytes, pos + 1, json_fields_from(params_keys(), params_vals(pm), 0, 125u8))
            &&& json_params(pm).len() == 1 + json_fields_from(
                params_keys(),
                params_vals(pm),
                0,
                125u8,
            ).len()
        }),
{
    assert forall|pm: NormalizationParameters| #[trigger] tail_at(bytes, pos, json_params(pm))
        implies ({
        &&& pos < bytes.len()
        &&& bytes[pos] == 123
        &&& tail_at(bytes, pos + 1, json_fields_from(params_keys(), params_vals(pm), 0, 125u8))
        &&& json_params(pm).len() == 1 + json_fields_from(
            params_keys(),
            params_vals(pm),
            0,
            125u8,
        ).len()
    }) by {
        lemma_tail_split(
            bytes,
            pos,
            seq![123u8],
            json_fields_from(params_keys(), params_vals(pm), 0, 125u8),
        );
        assert(bytes.subrange(pos, pos + 1)[0] == 123);
    }
}

/// Parse a normalization-parameter file at `pos`, rejecting anything but
/// the canonical form or bounds that break the parameters' invariant. On an
/// input that carries exactly the file written for some well-formed
/// parameters, the result is those parameters and the position just past
/// the file.
#[verifier::rlimit(100)]
#[verifier::spinoff_prover]
fn parse_params(bytes: &Vec<u8>, pos: usize) -> (r: Option<(NormalizationParameters, usize)>)
    ensures
        r matches Some(t) ==> pos < t.1 <= bytes@.len() && t.0.wf(),
        forall|pm: NormalizationParameters|
            pm.wf() && #[trigger] tail_at(bytes@, pos as int, json_params(pm)) ==> (
            r matches Some(t) && t.0 == pm && t.1 == pos + json_params(pm).len()),
{
    let p0 = match expect_byte(bytes, pos, 123) {
        Some(p) => p,
        None => {
            proof {
                lemma_params_parts(bytes@, pos as int);
            }
            return None;
        },
    };
    let keys = params_key_table();
    let (vals, p1) = match parse_fields(bytes, p0, &keys, 125) {
        Some(t) => t,
        None => {
            proof {
                lemma_params_parts(bytes@, pos as int);
            }
            return None;
        },
    };
    let pm = NormalizationParameters {
        sub_bass_max: vals[0],
        bass_max: vals[1],
        mid_max: vals[2],
        treble_max: vals[3],
        presence_max: vals[4],
        spectral_centroid_max: vals[5],
        spectral_rolloff_max: vals[6],
        spectral_flux_max: vals[7],
        zero_crossing_rate_max: vals[8],
        onset_strength_max: vals[9],
        beat_strength_max: vals[10],
        bpm_min: vals[11],
        bpm_max: vals[12],
        volume_max: vals[13],
        dynamic_range_max: vals[14],
        pitch_confidence_max: vals[15],
    };
    if pm.sub_bass_max >= 1 && pm.bass_max >= 1 && pm.mid_max >= 1 && pm.treble_max >= 1
        && pm.presence_max >= 1 && pm.spectral_centroid_max >= 1 && pm.spectral_rolloff_max >= 1
        && pm.spectral_flux_max >= 1 && pm.zero_crossing_rate_max >= 1 && pm.onset_strength_max
        >= 1 && pm.beat_strength_max >= 1 && pm.bpm_min <= pm.bpm_max && pm.bpm_max <= u32::MAX
        as u64 && pm.volume_max >= 1 && pm.dynamic_range_max >= 1 && pm.pitch_confidence_max
        >= 1 {
        proof {
            lemma_params_parts(bytes@, pos as int);
            assert forall|q: NormalizationParameters|
                q.wf() && #[trigger] tail_at(bytes@, pos as int, json_params(q)) implies pm == q
                && p1 == pos + json_params(q).len() by {
                assert(params_vals(q).len() == keys@.len());
            }
        }
        Some((pm, p1))
    } else {
        proof {
            lemma_params_parts(bytes@, pos as int);
            assert forall|q: NormalizationParameters|
                !(q.wf() && #[trigger] tail_at(bytes@, pos as int, json_params(q))) by {
                if q.wf() && tail_at(bytes@, pos as int, json_params(q)) {
                    assert(params_vals(q).len() == keys@.len());
                }
            }
        }
        None
    }
}

/// Append a normalization-parameter file.
#[verifier::rlimit(100)]
fn write_params(out: &mut Vec<u8>, pm: &NormalizationParameters)
    ensures
        final(out)@ == old(out)@ + json_params(*pm),
{
    out.push(123);
    let keys = params_key_table();
    let mut vals: Vec<u64> = Vec::new();
    vals.push(pm.sub_bass_max);
    vals.push(pm.bass_max);
    vals.push(pm.mid_max);
    vals.push(pm.treble_max);
    vals.push(pm.presence_max);
    vals.push(pm.spectral_centroid_max);
    vals.push(pm.spectral_rolloff_max);
    vals.push(pm.spectral_flux_max);
    vals.push(pm.zero_crossing_rate_max);
    vals.push(pm.onset_strength_max);
    vals.push(pm.beat_strength_max);
    vals.push(pm.bpm_min);
    vals.push(pm.bpm_max);
    vals.push(pm.volume_max);
    vals.push(pm.dynamic_range_max);
    vals.push(pm.pitch_confidence_max);
    proof {
        assert(vals@ =~= params_vals(*pm));
    }
    write_fields(out, &keys, &vals, 125);
    proof {
        assert(final(out)@ =~= old(out)@ + json_params(*pm));
    }
}

impl FeatureNormalizer {
    /// The normalizer's current effective parameters as a parameter file
    /// (the learned bounds in adaptive mode past warm-up, else the fixed
    /// ones).
    #[verifier::rlimit(100)]
    pub fn save_parameters(&self) -> (r: Vec<u8>)
        requires
            self.wf(),
        ensures
            r@ == json_params(self.effective_spec()),
    {
        let pm = self.effective_parameters();
        let mut out: Vec<u8> = Vec::new();
        write_params(&mut out, &pm);
        out
    }

    /// Replace the fixed parameters with ones restored from a parameter
    /// file. A payload that is exactly a parameter file written for some
    /// well-formed parameters restores those parameters; anything else, or
    /// bounds that break the parameters' invariant, is refused and leaves
    /// the normalizer untouched.
    #[verifier::rlimit(100)]
    pub fn load_parameters(&mut self, bytes: &Vec<u8>) -> (r: Result<(), ArvError>)
        requires
            old(self).wf(),
        ensures
            final(self).wf(),
            r matches Ok(u) ==> {
                &&& final(self).adaptive == old(self).adaptive
                &&& final(self).observed_ranges == old(self).observed_ranges
                &&& final(self).parameters.wf()
            },
            r is Err ==> *final(self) == *old(self),
            forall|pm: NormalizationParameters|
                pm.wf() && bytes@ == json_params(pm) ==> (r is Ok && final(self).parameters == pm
                    && final(self).adaptive == old(self).adaptive && final(self).observed_ranges
                    == old(self).observed_ranges),
    {
        proof {
            assert(bytes@.subrange(0, bytes@.len() as int) =~= bytes@);
            assert forall|pm: NormalizationParameters| #![trigger json_params(pm)]
                pm.wf() && bytes@ == json_params(pm) implies tail_at(bytes@, 0, json_params(pm))
                by {
                assert(bytes@.subrange(0, json_params(pm).len() as int) == json_params(pm));
            }
        }
        match parse_params(bytes, 0) {
            Some((pm, p)) => {
                if p != bytes.len() {
                    return Err(ArvError::Malformed);
                }
                self.parameters = pm;
                Ok(())
            },
            None => Err(ArvError::Malformed),
        }
    }
}


/// The frame object's field keys before the beat flag, in writing order.
pub open spec fn fa_keys() -> Seq<Seq<u8>> {
    seq![
        ("\"timestamp\":").spec_bytes(),
        ("\"bass\":").spec_bytes(),
        ("\"mid\":").spec_bytes(),
        ("\"treble\":").spec_bytes(),
        ("\"sub_bass\":").spec_bytes(),
        ("\"presence\":").spec_bytes(),
    ]
}

/// The frame object's field values before the beat flag, in writing order.
pub open spec fn fa_vals(f: PrescanFrame) -> Seq<u64> {
    seq![
        f.timestamp,
        f.frequency_bands.bass as u64,
        f.frequency_bands.mid as u64,
        f.frequency_bands.treble as u64,
        f.frequency_bands.sub_bass as u64,
        f.frequency_bands.presence as u64,
    ]
}

/// The frame object's field keys after the beat flag, in writing order.
pub open spec fn fb_keys() -> Seq<Seq<u8>> {
    seq![
        ("\"beat_strength\":").spec_bytes(),
        ("\"estimated_bpm\":").spec_bytes(),
        ("\"spectral_centroid\":").spec_bytes(),
        ("\"spectral_rolloff\":").spec_bytes(),
        ("\"pitch_confidence\":").spec_bytes(),
        ("\"zero_crossing_rate\":").spec_bytes(),
        ("\"spectral_flux\":").spec_bytes(),
        ("\"onset_strength\":").spec_bytes(),
        ("\"dynamic_range\":").spec_bytes(),
        ("\"volume\":").spec_bytes(),
    ]
}

/// The frame object's field values after the beat flag, in writing order.
pub open spec fn fb_vals(f: PrescanFrame) -> Seq<u64> {
    seq![
        f.beat_strength as u64,
        f.estimated_bpm as u64,
        f.spectral_centroid as u64,
        f.spectral_rolloff as u64,
        f.pitch_confidence as u64,
        f.zero_crossing_rate as u64,
        f.spectral_flux as u64,
        f.onset_strength as u64,
        f.dynamic_range as u64,
        f.volume as u64,
    ]
}

/// The beat flag's textual form.
pub open spec fn bool_bytes(b: bool) -> Seq<u8> {
    if b {
        ("true").spec_bytes()
    } else {
        ("false").spec_bytes()
    }
}

/// The byte contents of the two beat-flag literals; in particular their
/// first bytes differ.
proof fn lemma_bool_bytes()
    ensures
        ("true").spec_bytes() =~= seq![116u8, 114u8, 117u8, 101u8],
        ("false").spec_bytes() =~= seq![102u8, 97u8, 108u8, 115u8, 101u8],
{
    reveal_strlit("true");
    reveal_strlit("false");
    vstd::string::is_ascii_spec_bytes("true");
    vstd::string::is_ascii_spec_bytes("false");
}

/// One frame's textual form: the leading fields, the beat flag, and the
/// remaining fields, in this codec's canonical order.
#[verifier::opaque]
pub open spec fn json_frame(f: PrescanFrame) -> Seq<u8> {
    seq![123u8] + json_fields_from(fa_keys(), fa_vals(f), 0, 44u8) + (
    "\"beat_detected\":").spec_bytes() + bool_bytes(f.beat_detected) + seq![44u8]
        + json_fields_from(fb_keys(), fb_vals(f), 0, 125u8)
}

/// The frame object's leading field keys, as the writer and the parser pass
/// them.
fn fa_key_table() -> (r: Vec<&'static str>)
    ensures
        keys_bytes(r@) == fa_keys(),
        r@.len() == 6,
{
    let mut keys: Vec<&str> = Vec::new();
    keys.push("\"timestamp\":");
    keys.push("\"bass\":");
    keys.push("\"mid\":");
    keys.push("\"treble\":");
    keys.push("\"sub_bass\":");
    keys.push("\"presence\":");
    proof {
        assert(keys_bytes(keys@) =~= fa_keys());
    }
    keys
}

/// The frame object's trailing field keys, as the writer and the parser
/// pass them.
fn fb_key_table() -> (r: Vec<&'static str>)
    ensures
        keys_bytes(r@) == fb_keys(),
        r@.len() == 10,
{
    let mut keys: Vec<&str> = Vec::new();
    keys.push("\"beat_strength\":");
    keys.push("\"estimated_bpm\":");
    keys.push("\"spectral_centroid\":");
    keys.push("\"spectral_rolloff\":");
    keys.push("\"pitch_confidence\":");
    keys.push("\"zero_crossing_rate\":");
    keys.push("\"spectral_flux\":");
    keys.push("\"onset_strength\":");
    keys.push("\"dynamic_range\":");
    keys.push("\"volume\":");
    proof {
        assert(keys_bytes(keys@) =~= fb_keys());
    }
    keys
}

/// Append one frame's textual form.
#[verifier::rlimit(100)]
fn write_frame_json(out: &mut Vec<u8>, f: &PrescanFrame)
    ensures
        final(out)@ == old(out)@ + json_frame(*f),
{
    out.push(123);
    let keys_a = fa_key_table();
    let mut vals_a: Vec<u64> = Vec::new();
    vals_a.push(f.timestamp);
    vals_a.push(f.frequency_bands.bass as u64);
    vals_a.push(f.frequency_bands.mid as u64);
    vals_a.push(f.frequency_bands.treble as u64);
    vals_a.push(f.frequency_bands.sub_bass as u64);
    vals_a.push(f.frequency_bands.presence as u64);
    proof {
        assert(vals_a@ =~= fa_vals(*f));
    }
    write_fields(out, &keys_a, &vals_a, 44);
    append_literal(out, "\"beat_detected\":");
    if f.beat_detected {
        append_literal(out, "true");
    } else {
        append_literal(out, "false");
    }
    out.push(44);
    let keys_b = fb_key_table();
    let mut vals_b: Vec<u64> = Vec::new();
    vals_b.push(f.beat_strength as u64);
    vals_b.push(f.estimated_bpm as u64);
    vals_b.push(f.spectral_centroid as u64);
    vals_b.push(f.spectral_rolloff as u64);
    vals_b.push(f.pitch_confidence as u64);
    vals_b.push(f.zero_crossing_rate as u64);
    vals_b.push(f.spectral_flux as u64);
    vals_b.push(f.onset_strength as u64);
    vals_b.push(f.dynamic_range as u64);
    vals_b.push(f.volume as u64);
    proof {
        assert(vals_b@ =~= fb_vals(*f));
    }
    write_fields(out, &keys_b, &vals_b, 125);
    proof {
        reveal(json_frame);
        assert(final(out)@ =~= old(out)@ + json_frame(*f));
    }
}

/// Under a canonical frame object at `pos`, the brace, the two field runs
/// and the beat flag stand at their pinned positions.
proof fn lemma_frame_parts(bytes: Seq<u8>, pos: int)
    ensures
        forall|f: PrescanFrame| #[trigger] tail_at(bytes, pos, json_frame(f)) ==> ({
            let ja = json_fields_from(fa_keys(), fa_vals(f), 0, 44u8);
            let lit = ("\"beat_detected\":").spec_bytes();
            let pb = pos + 1 + ja.len();
            let pt = pb + lit.len();
            &&& pos < bytes.len()
            &&& bytes[pos] == 123
            &&& tail_at(bytes, pos + 1, ja)
            &&& pt + bool_bytes(f.beat_detected).len() <= bytes.len()
            &&& bytes.subrange(pb, pt) == lit
            &&& bytes.subrange(pt, pt + bool_bytes(f.beat_detected).len()) == bool_bytes(
                f.beat_detected,
            )
            &&& bytes[pt + bool_bytes(f.beat_detected).len()] == 44
            &&& pt + bool_bytes(f.beat_detected).len() < bytes.len()
            &&& tail_at(
                bytes,
                pt + bool_bytes(f.beat_detected).len() + 1,
                json_fields_from(fb_keys(), fb_vals(f), 0, 125u8),
            )
            &&& json_frame(f).len() == 1 + ja.len() + lit.len() + bool_bytes(
                f.beat_detected,
            ).len() + 1 + json_fields_from(fb_keys(), fb_vals(f), 0, 125u8).len()
        }),
{
    assert forall|f: PrescanFrame| #[trigger] tail_at(bytes, pos, json_frame(f)) implies ({
        let ja = json_fields_from(fa_keys(), fa_vals(f), 0, 44u8);
        let lit = ("\"beat_detected\":").spec_bytes();
        let pb = pos + 1 + ja.len();
        let pt = pb + lit.len();
        &&& pos < bytes.len()
        &&& bytes[pos] == 123
        &&& tail_at(bytes, pos + 1, ja)
        &&& pt + bool_bytes(f.beat_detected).len() <= bytes.len()
        &&& bytes.subrange(pb, pt) == lit
        &&& bytes.subrange(pt, pt + bool_bytes(f.beat_detected).len()) == bool_bytes(
            f.beat_detected,
        )
        &&& bytes[pt + bool_bytes(f.beat_detected).len()] == 44
        &&& pt + bool_bytes(f.beat_detected).len() < bytes.len()
        &&& tail_at(
            bytes,
            pt + bool_bytes(f.beat_detected).len() + 1,
            json_fields_from(fb_keys(), fb_vals(f), 0, 125u8),
        )
        &&& json_frame(f).len() == 1 + ja.len() + lit.len() + bool_bytes(f.beat_detected).len()
            + 1 + json_fields_from(fb_keys(), fb_vals(f), 0, 125u8).len()
    }) by {
        reveal(json_frame);
        let ja = json_fields_from(fa_keys(), fa_vals(f), 0, 44u8);
        let lit = ("\"beat_detected\":").spec_bytes();
        let bb = bool_bytes(f.beat_detected);
        let jb = json_fields_from(fb_keys(), fb_vals(f), 0, 125u8);
        lemma_tail_split(bytes, pos, seq![123u8] + ja + lit + bb + seq![44u8], jb);
        let head = seq![123u8] + ja + lit + bb + seq![44u8];
        assert(head =~= seq![123u8] + (ja + (lit + (bb + seq![44u8]))));
        lemma_tail_split(bytes, pos, seq![123u8], ja + (lit + (bb + seq![44u8])));
        assert(bytes.subrange(pos, pos + 1)[0] == 123);
        lemma_tail_split(bytes, pos + 1, ja, lit + (bb + seq![44u8]));
        lemma_tail_split(bytes, pos + 1 + ja.len(), lit, bb + seq![44u8]);
        lemma_tail_split(bytes, pos + 1 + ja.len() + lit.len(), bb, seq![44u8]);
        assert(bytes.subrange(
            pos + 1 + ja.len() + lit.len() + bb.len(),
            pos + 1 + ja.len() + lit.len() + bb.len() + 1,
        )[0] == 44);
    }
}

/// Parse the opening of one frame's textual form: the brace, the leading
/// numeric fields and the beat flag, up to and including the comma that
/// follows the flag. On an input that carries exactly the object written
/// for some frame, the result is that frame's leading values and flag, at
/// the position where the trailing fields start.
#[verifier::rlimit(100)]
fn parse_frame_prefix(bytes: &Vec<u8>, pos: usize) -> (r: Option<(Vec<u64>, bool, usize)>)
    ensures
        r matches Some(t) ==> pos < t.2 <= bytes@.len() && t.0@.len() == 6,
        forall|f: PrescanFrame| #[trigger] tail_at(bytes@, pos as int, json_frame(f)) ==> (
        r matches Some(t) && t.0@ == fa_vals(f) && t.1 == f.beat_detected && tail_at(
            bytes@,
            t.2 as int,
            json_fields_from(fb_keys(), fb_vals(f), 0, 125u8),
        ) && t.2 + json_fields_from(fb_keys(), fb_vals(f), 0, 125u8).len() == pos + json_frame(
            f,
        ).len()),
{
    proof {
        lemma_frame_parts(bytes@, pos as int);
        lemma_bool_bytes();
    }
    let p0 = match expect_byte(bytes, pos, 123) {
        Some(p) => p,
        None => {
            return None;
        },
    };
    let keys_a = fa_key_table();
    let (vals_a, p1) = match parse_fields(bytes, p0, &keys_a, 44) {
        Some(t) => t,
        None => {
            return None;
        },
    };
    let p2 = match expect_literal(bytes, p1, "\"beat_detected\":") {
        Some(p) => p,
        None => {
            return None;
        },
    };
    let (beat_detected, p3) = match expect_literal(bytes, p2, "true") {
        Some(p) => (true, p),
        None => match expect_literal(bytes, p2, "false") {
            Some(p) => (false, p),
            None => {
                return None;
            },
        },
    };
    let p4 = match expect_byte(bytes, p3, 44) {
        Some(p) => p,
        None => {
            return None;
        },
    };
    proof {
        assert forall|f: PrescanFrame| #[trigger] tail_at(bytes@, pos as int, json_frame(f))
            implies vals_a@ == fa_vals(f) && beat_detected == f.beat_detected && tail_at(
            bytes@,
            p4 as int,
            json_fields_from(fb_keys(), fb_vals(f), 0, 125u8),
        ) && p4 + json_fields_from(fb_keys(), fb_vals(f), 0, 125u8).len() == pos + json_frame(
            f,
        ).len() by {
            assert(fa_vals(f).len() == keys_a@.len());
        }
    }
    Some((vals_a, beat_detected, p4))
}

/// Parse one frame's textual form, rejecting anything but the canonical
/// field order or fields out of range. On an input that carries exactly the
/// object written for some frame, the result is that frame and the position
/// just past the object.
#[verifier::rlimit(100)]
fn parse_frame_json(bytes: &Vec<u8>, pos: usize) -> (r: Option<(PrescanFrame, usize)>)
    ensures
        r matches Some(t) ==> pos < t.1 <= bytes@.len(),
        forall|f: PrescanFrame| #[trigger] tail_at(bytes@, pos as int, json_frame(f)) ==> (
        r matches Some(t) && t.0 == f && t.1 == pos + json_frame(f).len()),
{
    let (vals_a, beat_detected, p4) = match parse_frame_prefix(bytes, pos) {
        Some(t) => t,
        None => {
            return None;
        },
    };
    let keys_b = fb_key_table();
    let (vals_b, p5) = match parse_fields(bytes, p4, &keys_b, 125) {
        Some(t) => t,
        None => {
            return None;
        },
    };
    if vals_a[1] > u32::MAX as u64 || vals_a[2] > u32::MAX as u64 || vals_a[3] > u32::MAX as u64
        || vals_a[4] > u32::MAX as u64 || vals_a[5] > u32::MAX as u64 || vals_b[0] > u32::MAX
        as u64 || vals_b[1] > u32::MAX as u64 || vals_b[2] > u32::MAX as u64 || vals_b[3]
        > u32::MAX as u64 || vals_b[4] > u32::MAX as u64 || vals_b[5] > u32::MAX as u64
        || vals_b[6] > u32::MAX as u64 || vals_b[7] > u32::MAX as u64 || vals_b[8] > u32::MAX
        as u64 || vals_b[9] > u32::MAX as u64 {
        return None;
    }
    let out = PrescanFrame {
        timestamp: vals_a[0],
        frequency_bands: FrequencyBands {
            bass: vals_a[1] as u32,
            mid: vals_a[2] as u32,
            treble: vals_a[3] as u32,
            sub_bass: vals_a[4] as u32,
            presence: vals_a[5] as u32,
        },
        beat_detected,
        beat_strength: vals_b[0] as u32,
        estimated_bpm: vals_b[1] as u32,
        spectral_centroid: vals_b[2] as u32,
        spectral_rolloff: vals_b[3] as u32,
        pitch_confidence: vals_b[4] as u32,
        zero_crossing_rate: vals_b[5] as u32,
        spectral_flux: vals_b[6] as u32,
        onset_strength: vals_b[7] as u32,
        dynamic_range: vals_b[8] as u32,
        volume: vals_b[9] as u32,
    };
    proof {
        assert forall|f: PrescanFrame| #[trigger] tail_at(bytes@, pos as int, json_frame(f))
            implies out == f && p5 == pos + json_frame(f).len() by {
            assert(fb_vals(f).len() == keys_b@.len());
        }
    }
    Some((out, p5))
}

/// The textual form of a frame sequence: frame objects separated by commas.
pub open spec fn json_frames(frames: Seq<PrescanFrame>) -> Seq<u8>
    decreases frames.len(),
{
    if frames.len() == 0 {
        Seq::empty()
    } else if frames.len() == 1 {
        json_frame(frames[0])
    } else {
        json_frames(frames.drop_last()) + seq![44u8] + json_frame(frames.last())
    }
}

/// The textual form of a whole prescan: the same logical schema as the
/// binary artifact, size-optimized for nothing, meant for debugging and
/// interop.
#[verifier::opaque]
pub open spec fn json_prescan(d: PrescanData) -> Seq<u8> {
    seq![123u8] + ("\"file_info\":").spec_bytes() + json_file_info(d.file_info) + seq![44u8] + (
    "\"frames\":[").spec_bytes() + json_frames(d.frames@) + seq![93u8, 44u8] + (
    "\"statistics\":").spec_bytes() + json_stats(d.statistics) + seq![125u8]
}

/// The frame list's textual form from frame `i` on.
#[verifier::opaque]
pub open spec fn json_frames_from(frames: Seq<PrescanFrame>, i: int) -> Seq<u8>
    decreases frames.len() - i,
{
    if i < 0 || i >= frames.len() {
        Seq::empty()
    } else if i == frames.len() - 1 {
        json_frame(frames[i])
    } else {
        json_frame(frames[i]) + seq![44u8] + json_frames_from(frames, i + 1)
    }
}

/// Appending one frame extends the indexed form by a comma and the frame.
proof fn lemma_json_frames_from_snoc(frames: Seq<PrescanFrame>, i: int)
    requires
        frames.len() >= 2,
        0 <= i <= frames.len() - 2,
    ensures
        json_frames_from(frames, i) == json_frames_from(frames.drop_last(), i) + seq![44u8]
            + json_frame(frames.last()),
    decreases frames.len() - i,
{
    reveal(json_frames_from);
    let g = frames.drop_last();
    assert(g[i] == frames[i]);
    if i == frames.len() - 2 {
        assert(json_frames_from(frames, i + 1) == json_frame(frames[frames.len() - 1]));
        assert(json_frames_from(frames, i) =~= json_frames_from(g, i) + seq![44u8] + json_frame(
            frames.last(),
        ));
    } else {
        lemma_json_frames_from_snoc(frames, i + 1);
        assert(json_frames_from(frames, i) =~= json_frames_from(g, i) + seq![44u8] + json_frame(
            frames.last(),
        ));
    }
}

/// The two forms of the frame list's textual encoding agree.
proof fn lemma_json_frames_indexed(frames: Seq<PrescanFrame>)
    ensures
        json_frames(frames) == json_frames_from(frames, 0),
    decreases frames.len(),
{
    reveal(json_frames_from);
    if frames.len() >= 2 {
        lemma_json_frames_indexed(frames.drop_last());
        lemma_json_frames_from_snoc(frames, 0);
    }
}

/// The textual suffix after the frame list: the separator, the statistics
/// object and the closing brace.
#[verifier::opaque]
pub open spec fn after_frames(d: PrescanData) -> Seq<u8> {
    seq![44u8] + ("\"statistics\":").spec_bytes() + json_stats(d.statistics) + seq![125u8]
}

/// The input is exactly the canonical text of `d`, with frames in strict
/// time order.
pub open spec fn canonical_prescan(bytes: Seq<u8>, d: PrescanData) -> bool {
    &&& json_prescan(d) == bytes
    &&& crate::prescan::frames_sorted(d.frames@)
}

/// At `pos` the input still carries frames `i` onward of `d`'s canonical
/// text, the closing bracket and the trailing statistics, and nothing more.
pub open spec fn frames_pending(bytes: Seq<u8>, d: PrescanData, i: int, pos: int) -> bool {
    &&& tail_at(bytes, pos, json_frames_from(d.frames@, i) + seq![93u8] + after_frames(d))
    &&& pos == bytes.len() - (json_frames_from(d.frames@, i).len() + 1 + after_frames(d).len())
}

/// Under the canonical text that follows a prescan's frame list at `pos`,
/// the separator, the statistics object and the closing brace stand at
/// their pinned positions.
proof fn lemma_after_frames_parts(bytes: Seq<u8>, pos: int)
    ensures
        forall|d: PrescanData| #[trigger] tail_at(bytes, pos, after_frames(d)) ==> ({
            let lit = ("\"statistics\":").spec_bytes();
            &&& pos < bytes.len()
            &&& bytes[pos] == 44
            &&& tail_at(bytes, pos + 1, lit)
            &&& tail_at(bytes, pos + 1 + lit.len(), json_stats(d.statistics))
            &&& pos + 1 + lit.len() + json_stats(d.statistics).len() < bytes.len()
            &&& bytes[pos + 1 + lit.len() + json_stats(d.statistics).len()] == 125
            &&& after_frames(d).len() == 1 + lit.len() + json_stats(d.statistics).len() + 1
        }),
{
    assert forall|d: PrescanData| #[trigger] tail_at(bytes, pos, after_frames(d)) implies ({
        let lit = ("\"statistics\":").spec_bytes();
        &&& pos < bytes.len()
        &&& bytes[pos] == 44
        &&& tail_at(bytes, pos + 1, lit)
        &&& tail_at(bytes, pos + 1 + lit.len(), json_stats(d.statistics))
        &&& pos + 1 + lit.len() + json_stats(d.statistics).len() < bytes.len()
        &&& bytes[pos + 1 + lit.len() + json_stats(d.statistics).len()] == 125
        &&& after_frames(d).len() == 1 + lit.len() + json_stats(d.statistics).len() + 1
    }) by {
        reveal(after_frames);
        let lit = ("\"statistics\":").spec_bytes();
        let st = json_stats(d.statistics);
        assert(after_frames(d) =~= seq![44u8] + (lit + (st + seq![125u8])));
        lemma_tail_split(bytes, pos, seq![44u8], lit + (st + seq![125u8]));
        assert(bytes.subrange(pos, pos + 1)[0] == 44);
        lemma_tail_split(bytes, pos + 1, lit, st + seq![125u8]);
        lemma_tail_split(bytes, pos + 1 + lit.len(), st, seq![125u8]);
        assert(bytes.subrange(
            pos + 1 + lit.len() + st.len(),
            pos + 2 + lit.len() + st.len(),
        )[0] == 125);
    }
}

/// Under a canonical prescan text filling the whole input, the metadata,
/// the frame list and the trailing statistics stand at their pinned
/// positions.
#[verifier::rlimit(100)]
proof fn lemma_prescan_parts(bytes: Seq<u8>)
    ensures
        forall|d: PrescanData| #[trigger] tail_at(bytes, 0, json_prescan(d)) ==> ({
            let lit1 = ("\"file_info\":").spec_bytes();
            let p1: int = 1 + lit1.len() as int;
            let p2: int = p1 + json_file_info(d.file_info).len() as int;
            let lit2 = ("\"frames\":[").spec_bytes();
            let pf: int = p2 + 1 + lit2.len() as int;
            &&& 0 < bytes.len()
            &&& bytes[0] == 123
            &&& tail_at(bytes, 1, lit1)
            &&& tail_at(bytes, p1, json_file_info(d.file_info))
            &&& p2 < bytes.len()
            &&& bytes[p2] == 44
            &&& tail_at(bytes, p2 + 1, lit2)
            &&& tail_at(bytes, pf, json_frames_from(d.frames@, 0) + seq![93u8] + after_frames(d))
            &&& json_prescan(d).len() == pf + json_frames_from(d.frames@, 0).len() + 1
                + after_frames(d).len()
        }),
{
    assert forall|d: PrescanData| #[trigger] tail_at(bytes, 0, json_prescan(d)) implies ({
        let lit1 = ("\"file_info\":").spec_bytes();
        let p1: int = 1 + lit1.len() as int;
        let p2: int = p1 + json_file_info(d.file_info).len() as int;
        let lit2 = ("\"frames\":[").spec_bytes();
        let pf: int = p2 + 1 + lit2.len() as int;
        &&& 0 < bytes.len()
        &&& bytes[0] == 123
        &&& tail_at(bytes, 1, lit1)
        &&& tail_at(bytes, p1, json_file_info(d.file_info))
        &&& p2 < bytes.len()
        &&& bytes[p2] == 44
        &&& tail_at(bytes, p2 + 1, lit2)
        &&& tail_at(bytes, pf, json_frames_from(d.frames@, 0) + seq![93u8] + after_frames(d))
        &&& json_prescan(d).len() == pf + json_frames_from(d.frames@, 0).len() + 1
            + after_frames(d).len()
    }) by {
        lemma_prescan_shape(d);
        let lit1 = ("\"file_info\":").spec_bytes();
        let lit2 = ("\"frames\":[").spec_bytes();
        let fi = json_file_info(d.file_info);
        let fr = json_frames_from(d.frames@, 0);
        let af = after_frames(d);
        let p1: int = 1 + lit1.len() as int;
        let p2: int = p1 + fi.len() as int;
        let pre = seq![123u8] + lit1 + fi + seq![44u8] + lit2;
        lemma_tail_split(bytes, 0, pre, fr + seq![93u8] + af);
        assert(pre =~= seq![123u8] + (lit1 + (fi + (seq![44u8] + lit2))));
        lemma_tail_split(bytes, 0, seq![123u8], lit1 + (fi + (seq![44u8] + lit2)));
        assert(bytes.subrange(0, 1)[0] == 123);
        lemma_tail_split(bytes, 1, lit1, fi + (seq![44u8] + lit2));
        lemma_tail_split(bytes, p1, fi, seq![44u8] + lit2);
        lemma_tail_split(bytes, p2, seq![44u8], lit2);
        assert(bytes.subrange(p2, p2 + 1)[0] == 44);
    }
}

/// The prescan text decomposes at the frame-list boundary.
#[verifier::rlimit(100)]
proof fn lemma_prescan_shape(d: PrescanData)
    ensures
        json_prescan(d) == (seq![123u8] + ("\"file_info\":").spec_bytes() + json_file_info(
            d.file_info,
        ) + seq![44u8] + ("\"frames\":[").spec_bytes()) + (json_frames_from(d.frames@, 0)
            + seq![93u8] + after_frames(d)),
{
    reveal(json_prescan);
    reveal(after_frames);
    lemma_json_frames_indexed(d.frames@);
    assert(json_prescan(d) =~= (seq![123u8] + ("\"file_info\":").spec_bytes() + json_file_info(
        d.file_info,
    ) + seq![44u8] + ("\"frames\":[").spec_bytes()) + (json_frames_from(d.frames@, 0)
        + seq![93u8] + after_frames(d)));
}

/// What one frame of the textual list pins down: the frame's object at the
/// front, then either the closing bracket or a comma and the rest of the
/// list.
/// Appending a later frame keeps the sequence strictly time-ordered.
proof fn lemma_sorted_push(frames: Seq<PrescanFrame>, frame: PrescanFrame)
    requires
        crate::prescan::frames_sorted(frames),
        frames.len() > 0 ==> frames[frames.len() - 1].timestamp < frame.timestamp,
    ensures
        crate::prescan::frames_sorted(frames.push(frame)),
{
    assert forall|a: int, b: int|
        0 <= a < b < frames.len() + 1 implies (#[trigger] frames.push(frame)[a]).timestamp < (
    #[trigger] frames.push(frame)[b]).timestamp by {
        if b < frames.len() {
            assert(frames[a].timestamp < frames[b].timestamp);
        } else {
            assert(frames[frames.len() - 1].timestamp < frame.timestamp);
            if a < frames.len() - 1 {
                assert(frames[a].timestamp < frames[frames.len() - 1].timestamp);
            }
        }
    }
}

#[verifier::rlimit(100)]
proof fn lemma_frames_cons(
    bytes: Seq<u8>,
    pos0: int,
    frames: Seq<PrescanFrame>,
    i0: int,
    af: Seq<u8>,
)
    requires
        0 <= i0 < frames.len(),
        tail_at(bytes, pos0, json_frames_from(frames, i0) + seq![93u8] + af),
    ensures
        tail_at(bytes, pos0, json_frame(frames[i0])),
        pos0 + json_frame(frames[i0]).len() < bytes.len(),
        bytes[pos0 + json_frame(frames[i0]).len()] == (if i0 == frames.len() - 1 {
            93u8
        } else {
            44u8
        }),
        i0 == frames.len() - 1 ==> tail_at(bytes, pos0 + json_frame(frames[i0]).len() + 1, af)
            && json_frames_from(frames, i0).len() == json_frame(frames[i0]).len(),
        i0 < frames.len() - 1 ==> tail_at(
            bytes,
            pos0 + json_frame(frames[i0]).len() + 1,
            json_frames_from(frames, i0 + 1) + seq![93u8] + af,
        ) && json_frames_from(frames, i0).len() == json_frame(frames[i0]).len() + 1
            + json_frames_from(frames, i0 + 1).len(),
{
    reveal(json_frames_from);
    let ffi = json_frames_from(frames, i0);
    let jf = json_frame(frames[i0]);
    if i0 == frames.len() - 1 {
        assert(ffi + seq![93u8] + af =~= jf + (seq![93u8] + af));
        lemma_tail_split(bytes, pos0, jf, seq![93u8] + af);
        lemma_tail_split(bytes, pos0 + jf.len(), seq![93u8], af);
        assert(bytes.subrange(pos0 + jf.len(), pos0 + jf.len() + 1)[0] == 93);
    } else {
        let rest = json_frames_from(frames, i0 + 1) + seq![93u8] + af;
        assert(ffi + seq![93u8] + af =~= jf + (seq![44u8] + rest));
        lemma_tail_split(bytes, pos0, jf, seq![44u8] + rest);
        lemma_tail_split(bytes, pos0 + jf.len(), seq![44u8], rest);
        assert(bytes.subrange(pos0 + jf.len(), pos0 + jf.len() + 1)[0] == 44);
    }
}

/// Extending the textual frames by one.
proof fn lemma_json_frames_step(frames: Seq<PrescanFrame>, i: int)
    requires
        1 <= i < frames.len(),
    ensures
        json_frames(frames.subrange(0, i + 1)) == json_frames(frames.subrange(0, i)) + seq![44u8]
            + json_frame(frames[i]),
{
    assert(frames.subrange(0, i + 1).drop_last() =~= frames.subrange(0, i));
}

impl PrescanProcessor {
    /// Serialize a prescan as its equivalent textual JSON form; the bytes
    /// are exactly the canonical text.
    #[verifier::rlimit(100)]
    pub fn save_prescan_data(prescan_data: &PrescanData) -> (r: Vec<u8>)
        ensures
            r@ == json_prescan(*prescan_data),
    {
        let mut out: Vec<u8> = Vec::new();
        out.push(123);
        append_literal(&mut out, "\"file_info\":");
        write_file_info(&mut out, &prescan_data.file_info);
        out.push(44);
        append_literal(&mut out, "\"frames\":[");
        let ghost prefix = out@;
        let mut i: usize = 0;
        while i < prescan_data.frames.len()
            invariant
                i <= prescan_data.frames@.len(),
                out@ == prefix + json_frames(prescan_data.frames@.subrange(0, i as int)),
            decreases prescan_data.frames@.len() - i,
        {
            if i > 0 {
                out.push(44);
            }
            proof {
                if i == 0 {
                    assert(prescan_data.frames@.subrange(0, 1) =~= seq![prescan_data.frames@[0]]);
                } else {
                    lemma_json_frames_step(prescan_data.frames@, i as int);
                }
            }
            write_frame_json(&mut out, &prescan_data.frames[i]);
            proof {
                assert(out@ =~= prefix + json_frames(
                    prescan_data.frames@.subrange(0, i + 1),
                ));
            }
            i = i + 1;
        }
        proof {
            assert(prescan_data.frames@.subrange(0, prescan_data.frames@.len() as int)
                =~= prescan_data.frames@);
        }
        out.push(93);
        out.push(44);
        append_literal(&mut out, "\"statistics\":");
        write_stats(&mut out, &prescan_data.statistics);
        out.push(125);
        proof {
            reveal(json_prescan);
            assert(out@ =~= json_prescan(*prescan_data));
        }
        out
    }

    /// Load a prescan from its textual JSON form, rejecting anything but the
    /// canonical text, out-of-range fields, or frames out of time order. On
    /// success the frames are strictly ordered in time, and on exactly the
    /// text written for a prescan whose frames are strictly time-ordered,
    /// loading succeeds and reproduces the prescan.
    #[verifier::rlimit(100)]
    pub fn load_prescan_data(bytes: &Vec<u8>) -> (r: Result<PrescanData, ArvError>)
        ensures
            r matches Ok(d) ==> crate::prescan::frames_sorted(d.frames@),
            forall|d: PrescanData|
                #![trigger canonical_prescan(bytes@, d)]
                canonical_prescan(bytes@, d) ==> (r matches Ok(o) && file_info_like(
                    o.file_info,
                    d.file_info,
                ) && o.statistics == d.statistics && o.frames@ == d.frames@),
    {
        proof {
            assert forall|d: PrescanData| #![trigger canonical_prescan(bytes@, d)]
                canonical_prescan(bytes@, d) implies tail_at(bytes@, 0, json_prescan(d)) by {
                assert(bytes@.subrange(0, json_prescan(d).len() as int) =~= bytes@);
            }
            lemma_prescan_parts(bytes@);
        }
        let p0 = match expect_byte(bytes, 0, 123) {
            Some(p) => p,
            None => {
                return Err(ArvError::Malformed);
            },
        };
        let p1 = match expect_literal(bytes, p0, "\"file_info\":") {
            Some(p) => p,
            None => {
                return Err(ArvError::Malformed);
            },
        };
        let (file_info, p2) = match parse_file_info(bytes, p1) {
            Some(t) => t,
            None => {
                return Err(ArvError::Malformed);
            },
        };
        let p3 = match expect_byte(bytes, p2, 44) {
            Some(p) => p,
            None => {
                return Err(ArvError::Malformed);
            },
        };
        let mut pos = match expect_literal(bytes, p3, "\"frames\":[") {
            Some(p) => p,
            None => {
                return Err(ArvError::Malformed);
            },
        };

        let n = bytes.len();
        let mut frames: Vec<PrescanFrame> = Vec::new();
        if pos < n && bytes[pos] == 93 {
            proof {
                assert forall|d: PrescanData|
                    #![trigger canonical_prescan(bytes@, d)]
                    canonical_prescan(bytes@, d) implies {
                    &&& frames@ == d.frames@
                    &&& tail_at(bytes@, pos + 1, after_frames(d))
                    &&& pos + 1 == bytes@.len() - after_frames(d).len()
                } by {
                    reveal(json_frames_from);
                    let ff = json_frames_from(d.frames@, 0);
                    let af = after_frames(d);
                    if d.frames@.len() > 0 {
                        reveal(json_frame);
                        lemma_tail_split(bytes@, pos as int, ff + seq![93u8], af);
                        lemma_tail_split(bytes@, pos as int, ff, seq![93u8]);
                        assert(json_frame(d.frames@[0])[0] == 123);
                        assert(bytes@[pos as int] == ff[0]) by {
                            assert(bytes@.subrange(pos as int, pos + ff.len())[0] == ff[0]);
                        }
                    }
                    assert(frames@ =~= d.frames@);
                    lemma_tail_split(bytes@, pos as int, ff + seq![93u8], af);
                    lemma_tail_split(bytes@, pos as int, ff, seq![93u8]);
                }
            }
            pos = pos + 1;
        } else {
            proof {
                assert forall|d: PrescanData|
                    #![trigger canonical_prescan(bytes@, d)]
                    canonical_prescan(bytes@, d) implies {
                    &&& frames@.len() < d.frames@.len()
                    &&& frames@ == d.frames@.subrange(0, frames@.len() as int)
                    &&& frames_pending(bytes@, d, frames@.len() as int, pos as int)
                } by {
                    reveal(json_frames_from);
                    let ff = json_frames_from(d.frames@, 0);
                    let af = after_frames(d);
                    if d.frames@.len() == 0 {
                        lemma_tail_split(bytes@, pos as int, ff + seq![93u8], af);
                        lemma_tail_split(bytes@, pos as int, ff, seq![93u8]);
                        assert(bytes@.subrange(pos as int, pos + 1)[0] == 93);
                    }
                    assert(frames@ =~= d.frames@.subrange(0, 0));
                }
            }
            loop
                invariant_except_break
                    forall|d: PrescanData|
                        #![trigger canonical_prescan(bytes@, d)]
                        canonical_prescan(bytes@, d) ==> frames@.len() < d.frames@.len()
                            && frames@ == d.frames@.subrange(0, frames@.len() as int)
                            && frames_pending(bytes@, d, frames@.len() as int, pos as int),
                invariant
                    pos <= n,
                    n == bytes@.len(),
                    crate::prescan::frames_sorted(frames@),
                ensures
                    pos <= n,
                    crate::prescan::frames_sorted(frames@),
                    forall|d: PrescanData|
                        #![trigger canonical_prescan(bytes@, d)]
                        canonical_prescan(bytes@, d) ==> frames@ == d.frames@ && tail_at(
                            bytes@,
                            pos as int,
                            after_frames(d),
                        ) && pos == bytes@.len() - after_frames(d).len(),
                decreases n - pos,
            {
                let step = match parse_frame_step(bytes, pos, &mut frames) {
                    Ok(t) => t,
                    Err(e) => {
                        return Err(e);
                    },
                };
                pos = step.0;
                if step.1 {
                    proof {
                        assert forall|d: PrescanData|
                            #![trigger canonical_prescan(bytes@, d)]
                            canonical_prescan(bytes@, d) implies frames@ == d.frames@ && tail_at(
                            bytes@,
                            pos as int,
                            after_frames(d),
                        ) && pos == bytes@.len() - after_frames(d).len() by {
                            assert(d.frames@.subrange(0, d.frames@.len() as int) =~= d.frames@);
                        }
                    }
                    break ;
                }
                proof {
                    assert forall|d: PrescanData|
                        #![trigger canonical_prescan(bytes@, d)]
                        canonical_prescan(bytes@, d) implies frames@.len() < d.frames@.len()
                            && frames@ == d.frames@.subrange(0, frames@.len() as int)
                            && frames_pending(bytes@, d, frames@.len() as int, pos as int) by {}
                }
            }
        }

        proof {
            lemma_after_frames_parts(bytes@, pos as int);
        }
        let p4 = match expect_byte(bytes, pos, 44) {
            Some(p) => p,
            None => {
                return Err(ArvError::Malformed);
            },
        };
        let p5 = match expect_literal(bytes, p4, "\"statistics\":") {
            Some(p) => p,
            None => {
                return Err(ArvError::Malformed);
            },
        };
        let (statistics, p6) = match parse_stats(bytes, p5) {
            Some(t) => t,
            None => {
                return Err(ArvError::Malformed);
            },
        };
        let p7 = match expect_byte(bytes, p6, 125) {
            Some(p) => p,
            None => {
                return Err(ArvError::Malformed);
            },
        };
        if p7 != bytes.len() {
            return Err(ArvError::Malformed);
        }
        Ok(PrescanData { file_info, frames, statistics })
    }
}


/// One step of the textual frame-list parse: one frame object, the order
/// check against the frames read so far, and the separator that follows.
/// On success the step returns the position just past the separator and
/// whether the closing bracket ended the list; on the canonical text it
/// consumes exactly the next frame of the encoded list.
#[verifier::rlimit(100)]
fn parse_frame_step(bytes: &Vec<u8>, pos: usize, frames: &mut Vec<PrescanFrame>) -> (r: Result<
    (usize, bool),
    ArvError,
>)
    requires
        pos <= bytes@.len(),
        crate::prescan::frames_sorted(old(frames)@),
    ensures
        r matches Ok(t) ==> pos < t.0 <= bytes@.len() && final(frames)@.len() == old(
            frames,
        )@.len() + 1 && crate::prescan::frames_sorted(final(frames)@),
        forall|d: PrescanData|
            #![trigger canonical_prescan(bytes@, d)]
            canonical_prescan(bytes@, d) && old(frames)@.len() < d.frames@.len() && old(frames)@
                == d.frames@.subrange(0, old(frames)@.len() as int) && frames_pending(
                bytes@,
                d,
                old(frames)@.len() as int,
                pos as int,
            ) ==> (r matches Ok(t) && final(frames)@ == d.frames@.subrange(
                0,
                old(frames)@.len() as int + 1,
            ) && (t.1 <==> old(frames)@.len() + 1 == d.frames@.len()) && (!t.1
                ==> frames_pending(bytes@, d, old(frames)@.len() as int + 1, t.0 as int)) && (
            t.1 ==> tail_at(bytes@, t.0 as int, after_frames(d)) && t.0 == bytes@.len()
                - after_frames(d).len())),
{
    let n = bytes.len();
    let ghost i0 = frames@.len() as int;
    let ghost pos0 = pos as int;
    proof {
        assert forall|d: PrescanData|
            #![trigger canonical_prescan(bytes@, d)]
            canonical_prescan(bytes@, d) && i0 < d.frames@.len() && frames@
                == d.frames@.subrange(0, i0) && frames_pending(bytes@, d, i0, pos0) implies {
            &&& tail_at(bytes@, pos0, json_frame(d.frames@[i0]))
            &&& pos0 + json_frame(d.frames@[i0]).len() < bytes@.len()
            &&& bytes@[pos0 + json_frame(d.frames@[i0]).len()] == (
            if i0 == d.frames@.len() - 1 {
                93u8
            } else {
                44u8
            })
            &&& (i0 == d.frames@.len() - 1 ==> tail_at(
                bytes@,
                pos0 + json_frame(d.frames@[i0]).len() + 1,
                after_frames(d),
            ) && json_frames_from(d.frames@, i0).len() == json_frame(d.frames@[i0]).len())
            &&& (i0 < d.frames@.len() - 1 ==> tail_at(
                bytes@,
                pos0 + json_frame(d.frames@[i0]).len() + 1,
                json_frames_from(d.frames@, i0 + 1) + seq![93u8] + after_frames(d),
            ) && json_frames_from(d.frames@, i0).len() == json_frame(d.frames@[i0]).len() + 1
                + json_frames_from(d.frames@, i0 + 1).len())
        } by {
            lemma_frames_cons(bytes@, pos0, d.frames@, i0, after_frames(d));
        }
    }
    let (frame, p) = match parse_frame_json(bytes, pos) {
        Some(t) => t,
        None => {
            return Err(ArvError::Malformed);
        },
    };
    if frames.len() > 0 && frames[frames.len() - 1].timestamp >= frame.timestamp {
        return Err(ArvError::Malformed);
    }
    proof {
        lemma_sorted_push(frames@, frame);
    }
    let ghost f0 = frames@;
    frames.push(frame);
    if p < n && bytes[p] == 44 {
        proof {
            assert forall|d: PrescanData|
                #![trigger canonical_prescan(bytes@, d)]
                canonical_prescan(bytes@, d) && i0 < d.frames@.len() && f0
                    == d.frames@.subrange(0, i0) && frames_pending(bytes@, d, i0, pos0) implies
                frames@ == d.frames@.subrange(0, i0 + 1) && i0 + 1 < d.frames@.len() by {
                assert(frame == d.frames@[i0]);
                assert(frames@ =~= d.frames@.subrange(0, i0 + 1));
            }
        }
        Ok((p + 1, false))
    } else if p < n && bytes[p] == 93 {
        proof {
            assert forall|d: PrescanData|
                #![trigger canonical_prescan(bytes@, d)]
                canonical_prescan(bytes@, d) && i0 < d.frames@.len() && f0
                    == d.frames@.subrange(0, i0) && frames_pending(bytes@, d, i0, pos0) implies
                frames@ == d.frames@.subrange(0, i0 + 1) && i0 + 1 == d.frames@.len() by {
                assert(frame == d.frames@[i0]);
                assert(frames@ =~= d.frames@.subrange(0, i0 + 1));
            }
        }
        Ok((p + 1, true))
    } else {
        Err(ArvError::Malformed)
    }
}

/// Law (frame content round trip): packing a bounded frame and unpacking it
/// at a timestamp and file-level tempo reproduces the persisted fields
/// within their quantization steps (never above the original), carries the
/// beat flag exactly, and zeroes the fields the format does not store.
pub proof fn lemma_frame_content_round_trip(f: PrescanFrame, ts: u64, bpm: u32)
    requires
        f.bounded(),
    ensures
        ({
            let g = PackedFrame::spec_to_frame(PackedFrame::spec_from_frame(f), ts, bpm);
            &&& g.timestamp == ts
            &&& g.estimated_bpm == bpm
            &&& g.beat_detected == f.beat_detected
            &&& f.frequency_bands.bass - 16 <= g.frequency_bands.bass <= f.frequency_bands.bass
            &&& f.frequency_bands.mid - 16 <= g.frequency_bands.mid <= f.frequency_bands.mid
            &&& f.frequency_bands.treble - 16 <= g.frequency_bands.treble
                <= f.frequency_bands.treble
            &&& f.frequency_bands.sub_bass - 16 <= g.frequency_bands.sub_bass
                <= f.frequency_bands.sub_bass
            &&& f.frequency_bands.presence - 16 <= g.frequency_bands.presence
                <= f.frequency_bands.presence
            &&& f.spectral_centroid - 16 <= g.spectral_centroid <= f.spectral_centroid
            &&& f.pitch_confidence - 16 <= g.pitch_confidence <= f.pitch_confidence
            &&& f.onset_strength - 16 <= g.onset_strength <= f.onset_strength
            &&& f.beat_strength - 19609 <= g.beat_strength <= f.beat_strength
            &&& g.spectral_rolloff == 0
            &&& g.zero_crossing_rate == 0
            &&& g.spectral_flux == 0
            &&& g.volume == 0
            &&& g.dynamic_range == 0
        }),
{
    lemma_pack_unit_round_trip(f.frequency_bands.bass as int);
    lemma_pack_unit_round_trip(f.frequency_bands.mid as int);
    lemma_pack_unit_round_trip(f.frequency_bands.treble as int);
    lemma_pack_unit_round_trip(f.frequency_bands.sub_bass as int);
    lemma_pack_unit_round_trip(f.frequency_bands.presence as int);
    lemma_pack_unit_round_trip(f.spectral_centroid as int);
    lemma_pack_unit_round_trip(f.pitch_confidence as int);
    lemma_pack_unit_round_trip(f.onset_strength as int);
    lemma_pack_strength_round_trip(f.beat_strength as int);
    let p = PackedFrame::spec_from_frame(f);
    let bd = p.beat_data;
    assert(bd == 1 ==> bd & 1 == 1) by (bit_vector);
    assert(bd == 0 ==> bd & 1 == 0) by (bit_vector);
    lemma_pack_fits(f.frequency_bands.bass as int);
    lemma_pack_fits(f.frequency_bands.mid as int);
    lemma_pack_fits(f.frequency_bands.treble as int);
    lemma_pack_fits(f.frequency_bands.sub_bass as int);
    lemma_pack_fits(f.frequency_bands.presence as int);
    lemma_pack_fits(f.spectral_centroid as int);
    lemma_pack_fits(f.pitch_confidence as int);
    lemma_pack_fits(f.onset_strength as int);
}

/// A quantized value fits its 16 bits, and a quantized beat strength its 8.
proof fn lemma_pack_fits(x: int)
    ensures
        0 <= pack_unit(x) <= 65535,
        0 <= pack_strength(x) <= 255,
{
    lemma_multiply_divide_le(
        (if x < 0 {
            0int
        } else if x > 1_000_000 {
            1_000_000int
        } else {
            x
        }) * 65535,
        1_000_000,
        65535,
    );
    lemma_multiply_divide_le(
        (if x < 0 {
            0int
        } else if x > 5_000_000 {
            5_000_000int
        } else {
            x
        }) * 51,
        1_000_000,
        255,
    );
}

} // verus!
