//! Run-time options and the rules that read them from text.

use vstd::prelude::*;
use crate::text::str_eq;

verus! {

pub struct AppArgs {
    /// Verbose output mode.
    pub verbose: bool,
    /// Show the captured feed in a window on the host.
    pub debug_feed: bool,
    /// Show the time in the stream.
    pub debug_latency: bool,
    /// Virtual display resolution, width then height.
    pub resolution: (u32, u32),
    /// Virtual display framerate.
    pub framerate: u32,
    /// The relay's URL.
    pub relay_url: String,
    /// The room's name.
    pub room: String,
}

pub struct DeviceArgs {
    /// GPU vendor filter, such as `intel`; empty for none.
    pub gpu_vendor: String,
    /// GPU name filter, such as `a770`; empty for none.
    pub gpu_name: String,
    /// Index among the GPUs that pass the filters.
    pub gpu_index: u32,
    /// Card or render path that picks the GPU outright; empty for none.
    pub gpu_card_path: String,
}

#[derive(Debug, PartialEq, Eq, Structural, Clone, Copy)]
pub struct RateControlCQP {
    /// Constant quantization parameter.
    pub quality: u32,
}

#[derive(Debug, PartialEq, Eq, Structural, Clone, Copy)]
pub struct RateControlVBR {
    /// Target bitrate in kbps.
    pub target_bitrate: u32,
    /// Maximum bitrate in kbps.
    pub max_bitrate: u32,
}

#[derive(Debug, PartialEq, Eq, Structural, Clone, Copy)]
pub struct RateControlCBR {
    /// Target bitrate in kbps.
    pub target_bitrate: u32,
}

#[derive(Debug, PartialEq, Eq, Structural, Clone, Copy)]
pub enum RateControl {
    CQP(RateControlCQP),
    VBR(RateControlVBR),
    CBR(RateControlCBR),
}

pub struct EncodingOptionsBase {
    /// Codec name, such as `h264` or `opus`.
    pub codec: String,
    /// Encoder that overrides the automatic choice; empty for none.
    pub encoder: String,
    pub rate_control: RateControl,
}

pub struct VideoEncodingOptions {
    pub base: EncodingOptionsBase,
    /// Encoder type name, `hardware` or `software`.
    pub encoder_type: String,
}

#[derive(Debug, PartialEq, Eq, Structural, Clone, Copy)]
pub enum AudioCaptureMethod {
    PulseAudio,
    PipeWire,
    ALSA,
}

pub struct AudioEncodingOptions {
    pub base: EncodingOptionsBase,
    pub capture_method: AudioCaptureMethod,
}

pub struct EncodingArgs {
    pub video: VideoEncodingOptions,
    pub audio: AudioEncodingOptions,
}

pub struct MoQOutputArgs {
    /// Relay URL.
    pub relay_url: String,
}

pub struct WebRTCWHIPOutputArgs {
    /// WHIP endpoint.
    pub endpoint: String,
    /// WHIP auth token.
    pub auth_token: String,
}

pub enum OutputOption {
    MoQ(MoQOutputArgs),
    WHIP(WebRTCWHIPOutputArgs),
}

pub struct Args {
    pub app: AppArgs,
    pub output: OutputOption,
    pub device: DeviceArgs,
    pub encoding: EncodingArgs,
}

pub open spec fn capture_label(m: AudioCaptureMethod) -> Seq<char> {
    match m {
        AudioCaptureMethod::PulseAudio => "pulseaudio"@,
        AudioCaptureMethod::PipeWire => "pipewire"@,
        AudioCaptureMethod::ALSA => "alsa"@,
    }
}

/// The capture method a name denotes; PulseAudio for any unknown name.
pub open spec fn capture_of(s: Seq<char>) -> AudioCaptureMethod {
    if s == "pipewire"@ {
        AudioCaptureMethod::PipeWire
    } else if s == "alsa"@ {
        AudioCaptureMethod::ALSA
    } else {
        AudioCaptureMethod::PulseAudio
    }
}

impl AudioCaptureMethod {
    pub fn as_str(&self) -> (r: &'static str)
        ensures
            r@ == capture_label(*self),
    {
        match self {
            AudioCaptureMethod::PulseAudio => "pulseaudio",
            AudioCaptureMethod::PipeWire => "pipewire",
            AudioCaptureMethod::ALSA => "alsa",
        }
    }

    /// The capture method a name denotes; PulseAudio for any unknown name.
    pub fn from_name(s: &str) -> (r: AudioCaptureMethod)
        ensures
            r == capture_of(s@),
    {
        if str_eq(s, "pipewire") {
            AudioCaptureMethod::PipeWire
        } else if str_eq(s, "alsa") {
            AudioCaptureMethod::ALSA
        } else {
            AudioCaptureMethod::PulseAudio
        }
    }
}

/// A boolean option is on when written `true` or `1`.
pub fn parse_flag(s: &str) -> (r: bool)
    ensures
        r == (s@ == "true"@ || s@ == "1"@),
{
    str_eq(s, "true") || str_eq(s, "1")
}

pub open spec fn is_digit(c: char) -> bool {
    '0' <= c && c <= '9'
}

/// The value of a string of decimal digits.
pub open spec fn digits_value(d: Seq<char>) -> nat
    decreases d.len(),
{
    if d.len() == 0 {
        0
    } else {
        digits_value(d.drop_last()) * 10 + (d.last() as nat - '0' as nat) as nat
    }
}

/// The text after an optional leading `+`.
pub open spec fn unsigned_digits(s: Seq<char>) -> Seq<char> {
    if s.len() > 0 && s[0] == '+' {
        s.drop_first()
    } else {
        s
    }
}

/// How `u32`'s `FromStr` reads a string: an optional `+`, then one or more
/// decimal digits whose value fits.
pub open spec fn u32_of(s: Seq<char>) -> Option<u32> {
    let d = unsigned_digits(s);
    if d.len() > 0 && (forall|i: int| 0 <= i < d.len() ==> is_digit(#[trigger] d[i])) && digits_value(
        d,
    ) <= u32::MAX {
        Some(digits_value(d) as u32)
    } else {
        None
    }
}

proof fn lemma_digits_grow(d: Seq<char>, i: int)
    requires
        0 <= i <= d.len(),
        forall|j: int| 0 <= j < d.len() ==> is_digit(#[trigger] d[j]),
    ensures
        digits_value(d.take(i)) <= digits_value(d),
    decreases d.len() - i,
{
    if i < d.len() {
        let p = d.drop_last();
        assert(p.take(i) =~= d.take(i));
        assert forall|j: int| 0 <= j < p.len() implies is_digit(#[trigger] p[j]) by {
            assert(p[j] == d[j]);
        }
        lemma_digits_grow(p, i);
    } else {
        assert(d.take(i) =~= d);
    }
}

/// Reads a `u32` as `u32`'s `FromStr` does.
pub fn parse_u32(s: &str) -> (r: Option<u32>)
    ensures
        r == u32_of(s@),
{
    let n = s.unicode_len();
    let mut i: usize = 0;
    if n > 0 && s.get_char(0) == '+' {
        i = 1;
    }
    let start = i;
    let ghost d = s@.subrange(start as int, n as int);
    assert(d =~= unsigned_digits(s@));
    if start == n {
        return None;
    }
    let mut value: u64 = 0;
    while i < n
        invariant
            n == s@.len(),
            start <= i <= n,
            start < n,
            d == s@.subrange(start as int, n as int),
            d == unsigned_digits(s@),
            forall|j: int| 0 <= j < i - start ==> is_digit(#[trigger] d[j]),
            value == digits_value(d.take(i - start)),
            value <= u32::MAX,
        decreases n - i,
    {
        let c = s.get_char(i);
        assert(d[i - start] == c);
        if !('0' <= c && c <= '9') {
            assert(!is_digit(d[i - start]));
            return None;
        }
        let digit = (c as u32 - '0' as u32) as u64;
        let next = value * 10 + digit;
        proof {
            assert(d.take(i - start + 1).drop_last() =~= d.take(i - start));
            assert(d.take(i - start + 1).last() == c);
            assert(next == digits_value(d.take(i - start + 1)));
        }
        if next > u32::MAX as u64 {
            proof {
                let k = (i - start + 1) as int;
                let e = d.take(k);
                assert forall|j: int| 0 <= j < e.len() implies is_digit(#[trigger] e[j]) by {
                    assert(e[j] == d[j]);
                }
                if forall|j: int| 0 <= j < d.len() ==> is_digit(#[trigger] d[j]) {
                    lemma_digits_grow(d, k);
                }
            }
            return None;
        }
        value = next;
        i = i + 1;
    }
    assert(d.take(i - start) =~= d);
    Some(value as u32)
}

/// The position of the first `ch` in `s`, or -1.
pub open spec fn first_index_of(s: Seq<char>, ch: char) -> int
    decreases s.len(),
{
    if s.len() == 0 {
        -1
    } else if s[0] == ch {
        0
    } else if first_index_of(s.drop_first(), ch) < 0 {
        -1
    } else {
        first_index_of(s.drop_first(), ch) + 1
    }
}

/// The text before the first `ch`, or all of it where there is none.
pub open spec fn before_char(s: Seq<char>, ch: char) -> Seq<char> {
    if first_index_of(s, ch) < 0 {
        s
    } else {
        s.subrange(0, first_index_of(s, ch))
    }
}

/// A `WxH` resolution: the text before the first `x` and the text between
/// it and the next `x` (or the end), each read as a `u32`.
pub open spec fn resolution_of(s: Seq<char>) -> Option<(u32, u32)> {
    let a = first_index_of(s, 'x');
    if a < 0 {
        None
    } else {
        match (u32_of(s.subrange(0, a)), u32_of(before_char(s.subrange(a + 1, s.len() as int), 'x'))) {
            (Some(w), Some(h)) => Some((w, h)),
            _ => None,
        }
    }
}

fn find_char(s: &str, ch: char) -> (r: Option<usize>)
    ensures
        match r {
            Some(i) => first_index_of(s@, ch) == i && i < s@.len(),
            None => first_index_of(s@, ch) == -1,
        },
{
    let n = s.unicode_len();
    let mut i: usize = 0;
    while i < n
        invariant
            n == s@.len(),
            i <= n,
            forall|j: int| 0 <= j < i ==> s@[j] != ch,
        decreases n - i,
    {
        if s.get_char(i) == ch {
            proof {
                lemma_first_index(s@, ch, i as int);
            }
            return Some(i);
        }
        i = i + 1;
    }
    proof {
        lemma_first_index(s@, ch, n as int);
    }
    None
}

proof fn lemma_first_index(s: Seq<char>, ch: char, i: int)
    requires
        0 <= i <= s.len(),
        forall|j: int| 0 <= j < i ==> s[j] != ch,
        i == s.len() || s[i] == ch,
    ensures
        first_index_of(s, ch) == (if i == s.len() {
            -1
        } else {
            i
        }),
    decreases i,
{
    if i > 0 {
        let t = s.drop_first();
        assert forall|j: int| 0 <= j < i - 1 implies t[j] != ch by {
            assert(t[j] == s[j + 1]);
        }
        if i < s.len() {
            assert(t[i - 1] == s[i]);
        }
        lemma_first_index(t, ch, i - 1);
    }
}

/// Reads a `WxH` resolution.
pub fn parse_resolution(s: &str) -> (r: Option<(u32, u32)>)
    ensures
        r == resolution_of(s@),
{
    let n = s.unicode_len();
    match find_char(s, 'x') {
        None => None,
        Some(a) => {
            let width = parse_u32(s.substring_char(0, a));
            let rest = s.substring_char(a + 1, n);
            let height = match find_char(rest, 'x') {
                Some(b) => parse_u32(rest.substring_char(0, b)),
                None => parse_u32(rest),
            };
            match (width, height) {
                (Some(w), Some(h)) => Some((w, h)),
                _ => None,
            }
        },
    }
}

/// The rate control that a method name selects, with its values read from
/// text; `cqp` is accepted only where `allow_cqp` holds, and an unknown
/// method or an unreadable value selects none.
pub open spec fn rate_control_of(
    method: Seq<char>,
    quality: Seq<char>,
    bitrate: Seq<char>,
    max_bitrate: Seq<char>,
    allow_cqp: bool,
) -> Option<RateControl> {
    if allow_cqp && method == "cqp"@ {
        match u32_of(quality) {
            Some(q) => Some(RateControl::CQP(RateControlCQP { quality: q })),
            None => None,
        }
    } else if method == "cbr"@ {
        match u32_of(bitrate) {
            Some(b) => Some(RateControl::CBR(RateControlCBR { target_bitrate: b })),
            None => None,
        }
    } else if method == "vbr"@ {
        match (u32_of(bitrate), u32_of(max_bitrate)) {
            (Some(b), Some(m)) => Some(
                RateControl::VBR(RateControlVBR { target_bitrate: b, max_bitrate: m }),
            ),
            _ => None,
        }
    } else {
        None
    }
}

/// Reads a rate control choice; video allows `cqp`, audio does not.
pub fn parse_rate_control(
    method: &str,
    quality: &str,
    bitrate: &str,
    max_bitrate: &str,
    allow_cqp: bool,
) -> (r: Option<RateControl>)
    ensures
        r == rate_control_of(method@, quality@, bitrate@, max_bitrate@, allow_cqp),
{
    if allow_cqp && str_eq(method, "cqp") {
        match parse_u32(quality) {
            Some(q) => Some(RateControl::CQP(RateControlCQP { quality: q })),
            None => None,
        }
    } else if str_eq(method, "cbr") {
        match parse_u32(bitrate) {
            Some(b) => Some(RateControl::CBR(RateControlCBR { target_bitrate: b })),
            None => None,
        }
    } else if str_eq(method, "vbr") {
        match (parse_u32(bitrate), parse_u32(max_bitrate)) {
            (Some(b), Some(m)) => Some(
                RateControl::VBR(RateControlVBR { target_bitrate: b, max_bitrate: m }),
            ),
            _ => None,
        }
    } else {
        None
    }
}

/// Whether an output name selects the media-over-transport output; any
/// other name selects WHIP.
pub fn is_moq_output(name: &str) -> (r: bool)
    ensures
        r == (name@ == "moq"@),
{
    str_eq(name, "moq")
}

/// The audio encoder bitrate in bits per second: the target of a bitrate
/// mode, in kbps, times 1000; 128 otherwise.
pub fn audio_bitrate_bps(rate_control: &RateControl) -> (r: u64)
    ensures
        r == match *rate_control {
            RateControl::CBR(c) => c.target_bitrate as int * 1000,
            RateControl::VBR(v) => v.target_bitrate as int * 1000,
            RateControl::CQP(_) => 128,
        },
{
    match rate_control {
        RateControl::CBR(c) => c.target_bitrate as u64 * 1000,
        RateControl::VBR(v) => v.target_bitrate as u64 * 1000,
        RateControl::CQP(_) => 128,
    }
}

} // verus!
