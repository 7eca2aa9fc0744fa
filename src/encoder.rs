//! Video encoder capabilities, selection by score, and parameter tuning.

use vstd::prelude::*;
use crate::args::RateControl;
use crate::text::{
    contains, decimal_string, decimal_text, ends_with, lower_of, seq_contains, seq_ends_with,
    seq_starts_with, starts_with, str_eq, to_lower,
};

verus! {

#[derive(Debug, PartialEq, Eq, Structural, Clone, Copy)]
pub enum VideoCodec {
    H264,
    AV1,
    UNKNOWN,
}

#[derive(Debug, PartialEq, Eq, Structural, Clone, Copy)]
pub enum EncoderAPI {
    QSV,
    VAAPI,
    NVENC,
    AMF,
    SOFTWARE,
    UNKNOWN,
}

#[derive(Debug, PartialEq, Eq, Structural, Clone, Copy)]
pub enum EncoderType {
    SOFTWARE,
    HARDWARE,
    UNKNOWN,
}

pub open spec fn codec_label(c: VideoCodec) -> Seq<char> {
    match c {
        VideoCodec::H264 => "H.264"@,
        VideoCodec::AV1 => "AV1"@,
        VideoCodec::UNKNOWN => "Unknown"@,
    }
}

/// The codec that a lowercased codec name denotes.
pub open spec fn codec_from_lowercase(t: Seq<char>) -> VideoCodec {
    if t == "h264"@ || t == "h.264"@ || t == "avc"@ {
        VideoCodec::H264
    } else if t == "av1"@ {
        VideoCodec::AV1
    } else {
        VideoCodec::UNKNOWN
    }
}

pub open spec fn api_label(a: EncoderAPI) -> Seq<char> {
    match a {
        EncoderAPI::QSV => "Intel QuickSync Video"@,
        EncoderAPI::VAAPI => "Video Acceleration API"@,
        EncoderAPI::NVENC => "NVIDIA NVENC"@,
        EncoderAPI::AMF => "AMD Media Framework"@,
        EncoderAPI::SOFTWARE => "Software"@,
        EncoderAPI::UNKNOWN => "Unknown"@,
    }
}

pub open spec fn type_label(t: EncoderType) -> Seq<char> {
    match t {
        EncoderType::SOFTWARE => "Software"@,
        EncoderType::HARDWARE => "Hardware"@,
        EncoderType::UNKNOWN => "Unknown"@,
    }
}

/// The encoder type that a lowercased type name denotes.
pub open spec fn type_from_lowercase(t: Seq<char>) -> EncoderType {
    if t == "software"@ {
        EncoderType::SOFTWARE
    } else if t == "hardware"@ {
        EncoderType::HARDWARE
    } else {
        EncoderType::UNKNOWN
    }
}

impl VideoCodec {
    pub fn to_str(&self) -> (r: &'static str)
        ensures
            r@ == codec_label(*self),
    {
        match self {
            VideoCodec::H264 => "H.264",
            VideoCodec::AV1 => "AV1",
            VideoCodec::UNKNOWN => "Unknown",
        }
    }

    /// Reads a codec name, ignoring case.
    pub fn from_str(s: &str) -> (r: Self)
        ensures
            r == codec_from_lowercase(lower_of(s@)),
    {
        let lowered = to_lower(s);
        Self::from_lowercase(lowered.as_str())
    }

    /// Reads a codec name that is already in lower case.
    pub fn from_lowercase(t: &str) -> (r: Self)
        ensures
            r == codec_from_lowercase(t@),
    {
        if str_eq(t, "h264") || str_eq(t, "h.264") || str_eq(t, "avc") {
            VideoCodec::H264
        } else if str_eq(t, "av1") {
            VideoCodec::AV1
        } else {
            VideoCodec::UNKNOWN
        }
    }
}

impl EncoderAPI {
    pub fn to_str(&self) -> (r: &'static str)
        ensures
            r@ == api_label(*self),
    {
        match self {
            EncoderAPI::QSV => "Intel QuickSync Video",
            EncoderAPI::VAAPI => "Video Acceleration API",
            EncoderAPI::NVENC => "NVIDIA NVENC",
            EncoderAPI::AMF => "AMD Media Framework",
            EncoderAPI::SOFTWARE => "Software",
            EncoderAPI::UNKNOWN => "Unknown",
        }
    }
}

impl EncoderType {
    pub fn to_str(&self) -> (r: &'static str)
        ensures
            r@ == type_label(*self),
    {
        match self {
            EncoderType::SOFTWARE => "Software",
            EncoderType::HARDWARE => "Hardware",
            EncoderType::UNKNOWN => "Unknown",
        }
    }

    /// Reads an encoder type name, ignoring case.
    pub fn from_str(s: &str) -> (r: Self)
        ensures
            r == type_from_lowercase(lower_of(s@)),
    {
        let lowered = to_lower(s);
        Self::from_lowercase(lowered.as_str())
    }

    /// Reads an encoder type name that is already in lower case.
    pub fn from_lowercase(t: &str) -> (r: Self)
        ensures
            r == type_from_lowercase(t@),
    {
        if str_eq(t, "software") {
            EncoderType::SOFTWARE
        } else if str_eq(t, "hardware") {
            EncoderType::HARDWARE
        } else {
            EncoderType::UNKNOWN
        }
    }
}

/// A tuning parameter as characters: key, then value.
pub type Param = (Seq<char>, Seq<char>);

/// What an encoder description holds, as mathematical values.
pub struct EncoderView {
    pub name: Seq<char>,
    pub codec: VideoCodec,
    pub encoder_type: EncoderType,
    pub encoder_api: EncoderAPI,
    pub parameters: Seq<Param>,
}

#[derive(Debug)]
pub struct VideoEncoderInfo {
    pub name: String,
    pub codec: VideoCodec,
    pub encoder_type: EncoderType,
    pub encoder_api: EncoderAPI,
    pub parameters: Vec<(String, String)>,
}

pub open spec fn params_view(ps: Seq<(String, String)>) -> Seq<Param> {
    ps.map_values(|p: (String, String)| (p.0@, p.1@))
}

impl View for VideoEncoderInfo {
    type V = EncoderView;

    open spec fn view(&self) -> EncoderView {
        EncoderView {
            name: self.name@,
            codec: self.codec,
            encoder_type: self.encoder_type,
            encoder_api: self.encoder_api,
            parameters: params_view(self.parameters@),
        }
    }
}

/// The same encoder with another parameter list.
pub open spec fn with_parameters(e: EncoderView, ps: Seq<Param>) -> EncoderView {
    EncoderView { parameters: ps, ..e }
}

/// Some parameter of `ps` has key `k`.
pub open spec fn has_key(ps: Seq<Param>, k: Seq<char>) -> bool {
    exists|i: int| 0 <= i < ps.len() && #[trigger] ps[i].0 == k
}

/// A parameter after setting key `k` to `v`: one with that key takes the new
/// value, any other is kept.
pub open spec fn reset_entry(p: Param, k: Seq<char>, v: Seq<char>) -> Param {
    if p.0 == k {
        (k, v)
    } else {
        p
    }
}

/// Sets key `k` to `v`: every parameter with that key takes the new value in
/// place; where there is none, the pair is appended.
pub open spec fn set_param(ps: Seq<Param>, k: Seq<char>, v: Seq<char>) -> Seq<Param> {
    if has_key(ps, k) {
        ps.map_values(|p: Param| reset_entry(p, k, v))
    } else {
        ps.push((k, v))
    }
}

/// Setting a parameter twice to the same value is setting it once: the
/// tuning passes may be repeated without changing the parameter list.
pub proof fn lemma_set_param_idempotent(ps: Seq<Param>, k: Seq<char>, v: Seq<char>)
    ensures
        set_param(set_param(ps, k, v), k, v) == set_param(ps, k, v),
{
    let once = set_param(ps, k, v);
    if has_key(ps, k) {
        let j = choose|j: int| 0 <= j < ps.len() && #[trigger] ps[j].0 == k;
        assert(once[j].0 == k);
    } else {
        assert(once[ps.len() as int].0 == k);
    }
    assert(has_key(once, k));
    assert(once.map_values(|p: Param| reset_entry(p, k, v)) =~= once);
}

/// After key `k` is set to `v`, every parameter with key `k` holds `v`, and
/// the key is present.
pub proof fn lemma_set_param_holds(ps: Seq<Param>, k: Seq<char>, v: Seq<char>)
    ensures
        has_key(set_param(ps, k, v), k),
        forall|i: int|
            0 <= i < set_param(ps, k, v).len() && #[trigger] set_param(ps, k, v)[i].0 == k
                ==> set_param(ps, k, v)[i].1 == v,
{
    lemma_set_param_idempotent(ps, k, v);
    let once = set_param(ps, k, v);
    if has_key(ps, k) {
        let j = choose|j: int| 0 <= j < ps.len() && #[trigger] ps[j].0 == k;
        assert(once[j].0 == k);
    } else {
        assert(once[ps.len() as int].0 == k);
    }
}

/// Sets each pair of `t`, in order.
pub open spec fn set_all(ps: Seq<Param>, t: Seq<Param>) -> Seq<Param>
    decreases t.len(),
{
    if t.len() == 0 {
        ps
    } else {
        set_param(set_all(ps, t.drop_last()), t.last().0, t.last().1)
    }
}

/// Some pair of `t` has key `k`.
pub open spec fn key_in(t: Seq<Param>, k: Seq<char>) -> bool {
    exists|i: int| 0 <= i < t.len() && #[trigger] t[i].0 == k
}

proof fn lemma_set_param_frame(ps: Seq<Param>, k: Seq<char>, v: Seq<char>)
    ensures
        set_param(ps, k, v).len() >= ps.len(),
        forall|j: int| 0 <= j < ps.len() ==> #[trigger] set_param(ps, k, v)[j].0 == ps[j].0,
        forall|j: int| 0 <= j < ps.len() && ps[j].0 != k ==> #[trigger] set_param(ps, k, v)[j] == ps[j],
        forall|j: int|
            ps.len() <= j < set_param(ps, k, v).len() ==> #[trigger] set_param(ps, k, v)[j].0 == k,
{
}

proof fn lemma_set_all_shape(ps: Seq<Param>, t: Seq<Param>)
    ensures
        set_all(ps, t).len() >= ps.len(),
        forall|j: int| 0 <= j < ps.len() ==> #[trigger] set_all(ps, t)[j].0 == ps[j].0,
        forall|j: int|
            ps.len() <= j < set_all(ps, t).len() ==> key_in(t, #[trigger] set_all(ps, t)[j].0),
    decreases t.len(),
{
    if t.len() > 0 {
        let tp = t.drop_last();
        let k = t.last().0;
        lemma_set_all_shape(ps, tp);
        let prev = set_all(ps, tp);
        let r = set_all(ps, t);
        lemma_set_param_frame(prev, k, t.last().1);
        assert forall|j: int| ps.len() <= j < r.len() implies key_in(t, #[trigger] r[j].0) by {
            if j < prev.len() {
                assert(key_in(tp, prev[j].0));
                let m = choose|m: int| 0 <= m < tp.len() && #[trigger] tp[m].0 == prev[j].0;
                assert(t[m].0 == r[j].0);
            } else {
                assert(t[t.len() - 1].0 == r[j].0);
            }
        }
    }
}

proof fn lemma_set_all_keeps(ps: Seq<Param>, t: Seq<Param>, j: int)
    requires
        0 <= j < ps.len(),
        !key_in(t, ps[j].0),
    ensures
        j < set_all(ps, t).len(),
        set_all(ps, t)[j] == ps[j],
    decreases t.len(),
{
    if t.len() > 0 {
        let tp = t.drop_last();
        if key_in(tp, ps[j].0) {
            let m = choose|m: int| 0 <= m < tp.len() && #[trigger] tp[m].0 == ps[j].0;
            assert(t[m].0 == ps[j].0);
        }
        assert(t[t.len() - 1].0 != ps[j].0);
        lemma_set_all_keeps(ps, tp, j);
        lemma_set_param_frame(set_all(ps, tp), t.last().0, t.last().1);
    }
}

proof fn lemma_set_all_last_wins(ps: Seq<Param>, t: Seq<Param>, i: int)
    requires
        0 <= i < t.len(),
        forall|i2: int| i < i2 < t.len() ==> #[trigger] t[i2].0 != t[i].0,
    ensures
        has_key(set_all(ps, t), t[i].0),
        forall|j: int|
            0 <= j < set_all(ps, t).len() && #[trigger] set_all(ps, t)[j].0 == t[i].0 ==> set_all(
                ps,
                t,
            )[j].1 == t[i].1,
    decreases t.len(),
{
    let tp = t.drop_last();
    let k = t.last().0;
    let v = t.last().1;
    let prev = set_all(ps, tp);
    let r = set_all(ps, t);
    lemma_set_param_frame(prev, k, v);
    lemma_set_param_holds(prev, k, v);
    if i < t.len() - 1 {
        assert(tp[i] == t[i]);
        assert(t[t.len() - 1].0 != t[i].0);
        assert forall|i2: int| i < i2 < tp.len() implies #[trigger] tp[i2].0 != tp[i].0 by {
            assert(tp[i2] == t[i2]);
        }
        lemma_set_all_last_wins(ps, tp, i);
        let w = choose|w: int| 0 <= w < prev.len() && #[trigger] prev[w].0 == tp[i].0;
        assert(r[w] == prev[w]);
        assert forall|j: int| 0 <= j < r.len() && #[trigger] r[j].0 == t[i].0 implies r[j].1
            == t[i].1 by {
            if j < prev.len() {
                assert(r[j] == prev[j]);
            }
        }
    }
}

/// After the pairs of `t` are set, in order: a parameter whose key no pair
/// names is kept where it was; each key of `t` is present, and every
/// parameter with that key holds the value of the last pair naming it; any
/// parameter added has a key of `t`. Read key by key, the result is the
/// earlier parameters overridden by `t`.
pub proof fn lemma_set_all_overrides(ps: Seq<Param>, t: Seq<Param>)
    ensures
        set_all(ps, t).len() >= ps.len(),
        forall|j: int| 0 <= j < ps.len() ==> #[trigger] set_all(ps, t)[j].0 == ps[j].0,
        forall|j: int|
            0 <= j < ps.len() && !key_in(t, ps[j].0) ==> #[trigger] set_all(ps, t)[j] == ps[j],
        forall|j: int|
            ps.len() <= j < set_all(ps, t).len() ==> key_in(t, #[trigger] set_all(ps, t)[j].0),
        forall|i: int|
            0 <= i < t.len() && (forall|i2: int| i < i2 < t.len() ==> t[i2].0 != t[i].0) ==> {
                &&& has_key(set_all(ps, t), #[trigger] t[i].0)
                &&& forall|j: int|
                    0 <= j < set_all(ps, t).len() && set_all(ps, t)[j].0 == t[i].0 ==> set_all(
                        ps,
                        t,
                    )[j].1 == t[i].1
            },
{
    lemma_set_all_shape(ps, t);
    assert forall|j: int| 0 <= j < ps.len() && !key_in(t, ps[j].0) implies #[trigger] set_all(
        ps,
        t,
    )[j] == ps[j] by {
        lemma_set_all_keeps(ps, t, j);
    }
    assert forall|i: int|
        0 <= i < t.len() && (forall|i2: int| i < i2 < t.len() ==> t[i2].0 != t[i].0) implies {
        &&& has_key(set_all(ps, t), #[trigger] t[i].0)
        &&& forall|j: int|
            0 <= j < set_all(ps, t).len() && set_all(ps, t)[j].0 == t[i].0 ==> set_all(ps, t)[j].1
                == t[i].1
    } by {
        lemma_set_all_last_wins(ps, t, i);
    }
}

pub open spec fn param_text(p: Param) -> Seq<char> {
    p.0 + seq!['='] + p.1
}

/// The parameters as `key=value` items separated by single spaces.
pub open spec fn params_text(ps: Seq<Param>) -> Seq<char>
    decreases ps.len(),
{
    if ps.len() == 0 {
        Seq::empty()
    } else if ps.len() == 1 {
        param_text(ps[0])
    } else {
        params_text(ps.drop_last()) + seq![' '] + param_text(ps.last())
    }
}

impl VideoEncoderInfo {
    pub fn new(
        name: String,
        codec: VideoCodec,
        encoder_type: EncoderType,
        encoder_api: EncoderAPI,
    ) -> (r: Self)
        ensures
            r@ == (EncoderView {
                name: name@,
                codec,
                encoder_type,
                encoder_api,
                parameters: Seq::empty(),
            }),
    {
        let r = VideoEncoderInfo { name, codec, encoder_type, encoder_api, parameters: Vec::new() };
        assert(r@.parameters =~= Seq::empty());
        r
    }

    /// A copy with the same view.
    pub fn duplicate(&self) -> (r: Self)
        ensures
            r@ == self@,
    {
        let mut parameters: Vec<(String, String)> = Vec::new();
        let mut i: usize = 0;
        while i < self.parameters.len()
            invariant
                i <= self.parameters.len(),
                parameters@.len() == i,
                params_view(parameters@) =~= params_view(self.parameters@).take(i as int),
            decreases self.parameters.len() - i,
        {
            let key = self.parameters[i].0.clone();
            let value = self.parameters[i].1.clone();
            parameters.push((key, value));
            assert(params_view(parameters@)[i as int] == params_view(self.parameters@)[i as int]);
            i = i + 1;
        }
        assert(params_view(self.parameters@).take(i as int) =~= params_view(self.parameters@));
        VideoEncoderInfo {
            name: self.name.clone(),
            codec: self.codec,
            encoder_type: self.encoder_type,
            encoder_api: self.encoder_api,
            parameters,
        }
    }

    /// The parameters as `key=value` items separated by spaces.
    pub fn get_parameters_string(&self) -> (r: String)
        ensures
            r@ == params_text(self@.parameters),
    {
        proof {
            reveal_strlit("=");
            reveal_strlit(" ");
            assert("="@ =~= seq!['=']);
            assert(" "@ =~= seq![' ']);
        }
        let ghost ps = self@.parameters;
        let mut out = String::new();
        let mut i: usize = 0;
        while i < self.parameters.len()
            invariant
                i <= self.parameters.len(),
                ps == self@.parameters,
                "="@ == seq!['='],
                " "@ == seq![' '],
                out@ == params_text(ps.take(i as int)),
            decreases self.parameters.len() - i,
        {
            let ghost before = out@;
            if i > 0 {
                out.append(" ");
            }
            let ghost sep = out@;
            out.append(self.parameters[i].0.as_str());
            out.append("=");
            out.append(self.parameters[i].1.as_str());
            proof {
                let next = ps.take(i + 1);
                assert(ps[i as int] == (self.parameters@[i as int].0@, self.parameters@[i as int].1@));
                assert(next.drop_last() =~= ps.take(i as int));
                assert(next.last() == ps[i as int]);
                assert(out@ =~= sep + param_text(ps[i as int]));
                if i == 0 {
                    assert(next.len() == 1);
                    assert(sep =~= Seq::<char>::empty());
                    assert(out@ =~= param_text(next[0]));
                } else {
                    assert(sep =~= before + seq![' ']);
                    assert(out@ =~= params_text(next.drop_last()) + seq![' '] + param_text(next.last()));
                }
            }
            i = i + 1;
        }
        assert(ps.take(i as int) =~= ps);
        out
    }

    /// Sets a parameter: an existing key takes the new value in place,
    /// a new key is appended.
    pub fn set_parameter(&mut self, key: &str, value: &str)
        ensures
            final(self)@ == with_parameters(old(self)@, set_param(old(self)@.parameters, key@, value@)),
    {
        let ghost ps = self@.parameters;
        let mut found = false;
        let mut i: usize = 0;
        while i < self.parameters.len()
            invariant
                i <= self.parameters.len(),
                self.name == old(self).name,
                self.codec == old(self).codec,
                self.encoder_type == old(self).encoder_type,
                self.encoder_api == old(self).encoder_api,
                ps == old(self)@.parameters,
                self.parameters@.len() == ps.len(),
                forall|j: int|
                    0 <= j < i ==> #[trigger] params_view(self.parameters@)[j] == reset_entry(
                        ps[j],
                        key@,
                        value@,
                    ),
                forall|j: int| i <= j < ps.len() ==> #[trigger] params_view(self.parameters@)[j] == ps[j],
                found == exists|j: int| 0 <= j < i && #[trigger] ps[j].0 == key@,
            decreases self.parameters.len() - i,
        {
            assert(params_view(self.parameters@)[i as int] == ps[i as int]);
            let ghost prev = self.parameters@;
            if str_eq(self.parameters[i].0.as_str(), key) {
                self.parameters.set(i, (String::from_str(key), String::from_str(value)));
                found = true;
            }
            proof {
                assert forall|j: int| 0 <= j < ps.len() && j != i implies #[trigger] params_view(
                    self.parameters@,
                )[j] == params_view(prev)[j] by {
                    assert(self.parameters@[j] == prev[j]);
                }
                assert(params_view(self.parameters@)[i as int] == reset_entry(ps[i as int], key@, value@));
                assert forall|j: int| 0 <= j < i + 1 implies #[trigger] params_view(self.parameters@)[j]
                    == reset_entry(ps[j], key@, value@) by {
                    if j < i {
                        assert(params_view(self.parameters@)[j] == params_view(prev)[j]);
                    }
                }
                assert forall|j: int| i + 1 <= j < ps.len() implies #[trigger] params_view(
                    self.parameters@,
                )[j] == ps[j] by {
                    assert(params_view(self.parameters@)[j] == params_view(prev)[j]);
                }
                if !found {
                    assert forall|j: int| 0 <= j < i + 1 implies #[trigger] ps[j].0 != key@ by {}
                }
            }
            i = i + 1;
        }
        if found {
            assert(has_key(ps, key@));
            assert(params_view(self.parameters@) =~= ps.map_values(
                |p: Param| reset_entry(p, key@, value@),
            ));
        } else {
            assert(!has_key(ps, key@));
            let ghost before = self.parameters@;
            assert(params_view(before) =~= ps);
            self.parameters.push((String::from_str(key), String::from_str(value)));
            assert(params_view(self.parameters@) =~= ps.push((key@, value@)));
        }
    }
}

/// The low-power variant of a VA-API encoder name: a name that starts with
/// `va` and ends with `enc` (but not `lpenc`) gets `lpenc` in place of that
/// `enc`; any other name is kept.
pub open spec fn low_power_name(n: Seq<char>) -> Seq<char> {
    if seq_starts_with(n, "va"@) && seq_ends_with(n, "enc"@) && !seq_ends_with(n, "lpenc"@) {
        n.subrange(0, n.len() - 3) + "lpenc"@
    } else {
        n
    }
}

/// The API guessed from an encoder's name and type.
pub open spec fn api_for(n: Seq<char>, t: EncoderType) -> EncoderAPI {
    if t == EncoderType::HARDWARE {
        if seq_starts_with(n, "qsv"@) {
            EncoderAPI::QSV
        } else if seq_starts_with(n, "va"@) {
            EncoderAPI::VAAPI
        } else if seq_starts_with(n, "nv"@) {
            EncoderAPI::NVENC
        } else if seq_starts_with(n, "amf"@) {
            EncoderAPI::AMF
        } else {
            EncoderAPI::UNKNOWN
        }
    } else if t == EncoderType::SOFTWARE {
        EncoderAPI::SOFTWARE
    } else {
        EncoderAPI::UNKNOWN
    }
}

/// Converts a VA-API encoder name to its low-power variant.
pub fn get_low_power_encoder(encoder: &String) -> (r: String)
    ensures
        r@ == low_power_name(encoder@),
{
    let name = encoder.as_str();
    if starts_with(name, "va") && ends_with(name, "enc") && !ends_with(name, "lpenc") {
        proof {
            reveal_strlit("enc");
        }
        let n = name.unicode_len();
        let stem = name.substring_char(0, n - 3);
        let mut out = String::from_str(stem);
        out.append("lpenc");
        out
    } else {
        encoder.clone()
    }
}

/// Best guess of the encoder API from the encoder's name.
pub fn get_encoder_api(encoder: &String, encoder_type: &EncoderType) -> (r: EncoderAPI)
    ensures
        r == api_for(encoder@, *encoder_type),
{
    let name = encoder.as_str();
    if *encoder_type == EncoderType::HARDWARE {
        if starts_with(name, "qsv") {
            EncoderAPI::QSV
        } else if starts_with(name, "va") {
            EncoderAPI::VAAPI
        } else if starts_with(name, "nv") {
            EncoderAPI::NVENC
        } else if starts_with(name, "amf") {
            EncoderAPI::AMF
        } else {
            EncoderAPI::UNKNOWN
        }
    } else if *encoder_type == EncoderType::SOFTWARE {
        EncoderAPI::SOFTWARE
    } else {
        EncoderAPI::UNKNOWN
    }
}

/// A tuning pass, keyed off the names of an encoder element's properties.
#[derive(Debug, PartialEq, Eq, Structural, Clone, Copy)]
pub enum Tuning {
    /// Constant quantizer: intra and predicted frame quantizers.
    Quantizer,
    /// Variable bitrate: target and maximum bitrate.
    VariableBitrate,
    /// Constant bitrate: target bitrate only.
    ConstantBitrate,
    /// Keyframe interval.
    GroupOfPictures,
}

/// Which value of a tuning pass a property receives.
#[derive(Debug, PartialEq, Eq, Structural, Clone, Copy)]
pub enum PropertyRole {
    /// The pass's main value (quality, target bitrate, GOP size).
    Primary,
    /// The pass's second value (predicted-frame quality, maximum bitrate).
    Secondary,
    /// The pass leaves the property alone.
    Unrelated,
}

/// The role of a property, given its lowercased name, in a tuning pass.
pub open spec fn role_of(t: Tuning, l: Seq<char>) -> PropertyRole {
    match t {
        Tuning::Quantizer => {
            if seq_contains(l, "qp"@) && (seq_contains(l, "i"@) || seq_contains(l, "min"@)) {
                PropertyRole::Primary
            } else if seq_contains(l, "qp"@) && (seq_contains(l, "p"@) || seq_contains(l, "max"@)) {
                PropertyRole::Secondary
            } else {
                PropertyRole::Unrelated
            }
        },
        Tuning::VariableBitrate => {
            if seq_contains(l, "bitrate"@) && !seq_contains(l, "max"@) {
                PropertyRole::Primary
            } else if seq_contains(l, "bitrate"@) && seq_contains(l, "max"@) {
                PropertyRole::Secondary
            } else {
                PropertyRole::Unrelated
            }
        },
        Tuning::ConstantBitrate => {
            if seq_contains(l, "bitrate"@) && !seq_contains(l, "max"@) {
                PropertyRole::Primary
            } else {
                PropertyRole::Unrelated
            }
        },
        Tuning::GroupOfPictures => {
            if seq_contains(l, "gop"@) || seq_contains(l, "int-max"@) || seq_contains(l, "max-dist"@)
                || seq_contains(l, "intra-period-length"@) {
                PropertyRole::Primary
            } else {
                PropertyRole::Unrelated
            }
        },
    }
}

/// Runs a tuning pass over the properties, in order: each property takes the
/// value of its role, under its own (not lowercased) name.
pub open spec fn apply_tuning(
    ps: Seq<Param>,
    props: Seq<Seq<char>>,
    t: Tuning,
    primary: Seq<char>,
    secondary: Seq<char>,
) -> Seq<Param>
    decreases props.len(),
{
    if props.len() == 0 {
        ps
    } else {
        let prev = apply_tuning(ps, props.drop_last(), t, primary, secondary);
        let p = props.last();
        match role_of(t, lower_of(p)) {
            PropertyRole::Primary => set_param(prev, p, primary),
            PropertyRole::Secondary => set_param(prev, p, secondary),
            PropertyRole::Unrelated => prev,
        }
    }
}

pub open spec fn names_view(v: Seq<String>) -> Seq<Seq<char>> {
    v.map_values(|s: String| s@)
}

/// The value that a tuning pass gives property `p`, if any.
pub open spec fn tuning_value(
    t: Tuning,
    p: Seq<char>,
    primary: Seq<char>,
    secondary: Seq<char>,
) -> Option<Seq<char>> {
    match role_of(t, lower_of(p)) {
        PropertyRole::Primary => Some(primary),
        PropertyRole::Secondary => Some(secondary),
        PropertyRole::Unrelated => None,
    }
}

proof fn lemma_tuning_keeps(
    ps: Seq<Param>,
    props: Seq<Seq<char>>,
    t: Tuning,
    primary: Seq<char>,
    secondary: Seq<char>,
    j: int,
)
    requires
        0 <= j < ps.len(),
        !props.contains(ps[j].0),
    ensures
        j < apply_tuning(ps, props, t, primary, secondary).len(),
        apply_tuning(ps, props, t, primary, secondary)[j] == ps[j],
    decreases props.len(),
{
    if props.len() > 0 {
        let pp = props.drop_last();
        if pp.contains(ps[j].0) {
            let m = choose|m: int| 0 <= m < pp.len() && pp[m] == ps[j].0;
            assert(props[m] == ps[j].0);
        }
        assert(props[props.len() - 1] != ps[j].0);
        lemma_tuning_keeps(ps, pp, t, primary, secondary, j);
        let prev = apply_tuning(ps, pp, t, primary, secondary);
        lemma_set_param_frame(prev, props.last(), primary);
        lemma_set_param_frame(prev, props.last(), secondary);
    }
}

proof fn lemma_tuning_sets(
    ps: Seq<Param>,
    props: Seq<Seq<char>>,
    t: Tuning,
    primary: Seq<char>,
    secondary: Seq<char>,
    p: Seq<char>,
)
    requires
        props.contains(p),
        tuning_value(t, p, primary, secondary) is Some,
    ensures
        has_key(apply_tuning(ps, props, t, primary, secondary), p),
        forall|j: int|
            0 <= j < apply_tuning(ps, props, t, primary, secondary).len()
                && #[trigger] apply_tuning(ps, props, t, primary, secondary)[j].0 == p
                ==> Some(apply_tuning(ps, props, t, primary, secondary)[j].1) == tuning_value(
                t,
                p,
                primary,
                secondary,
            ),
    decreases props.len(),
{
    let pp = props.drop_last();
    let last = props.last();
    let prev = apply_tuning(ps, pp, t, primary, secondary);
    let r = apply_tuning(ps, props, t, primary, secondary);
    lemma_set_param_frame(prev, last, primary);
    lemma_set_param_frame(prev, last, secondary);
    lemma_set_param_holds(prev, last, primary);
    lemma_set_param_holds(prev, last, secondary);
    if last != p {
        let m = choose|m: int| 0 <= m < props.len() && props[m] == p;
        assert(m < props.len() - 1);
        assert(pp[m] == p);
        lemma_tuning_sets(ps, pp, t, primary, secondary, p);
        let w = choose|w: int| 0 <= w < prev.len() && #[trigger] prev[w].0 == p;
        assert(r[w] == prev[w]);
        assert forall|j: int| 0 <= j < r.len() && #[trigger] r[j].0 == p implies Some(r[j].1)
            == tuning_value(t, p, primary, secondary) by {
            if j < prev.len() {
                assert(r[j] == prev[j]);
            }
        }
    }
}

/// A tuning pass sets every property of `props` that it concerns: the key
/// is present and every parameter with it holds the pass's value for it; a
/// parameter whose key is not among `props` is kept where it was.
pub proof fn lemma_tuning_pass_effect(
    ps: Seq<Param>,
    props: Seq<Seq<char>>,
    t: Tuning,
    primary: Seq<char>,
    secondary: Seq<char>,
)
    ensures
        forall|p: Seq<char>|
            props.contains(p) && tuning_value(t, p, primary, secondary) is Some ==> {
                &&& has_key(#[trigger] apply_tuning(ps, props, t, primary, secondary), p)
                &&& forall|j: int|
                    0 <= j < apply_tuning(ps, props, t, primary, secondary).len()
                        && apply_tuning(ps, props, t, primary, secondary)[j].0 == p
                        ==> Some(apply_tuning(ps, props, t, primary, secondary)[j].1)
                        == tuning_value(t, p, primary, secondary)
            },
        apply_tuning(ps, props, t, primary, secondary).len() >= ps.len(),
        forall|j: int|
            0 <= j < ps.len() && !props.contains(ps[j].0) ==> #[trigger] apply_tuning(
                ps,
                props,
                t,
                primary,
                secondary,
            )[j] == ps[j],
{
    assert forall|p: Seq<char>|
        props.contains(p) && tuning_value(t, p, primary, secondary) is Some implies {
        &&& has_key(#[trigger] apply_tuning(ps, props, t, primary, secondary), p)
        &&& forall|j: int|
            0 <= j < apply_tuning(ps, props, t, primary, secondary).len() && apply_tuning(
                ps,
                props,
                t,
                primary,
                secondary,
            )[j].0 == p ==> Some(apply_tuning(ps, props, t, primary, secondary)[j].1)
                == tuning_value(t, p, primary, secondary)
    } by {
        lemma_tuning_sets(ps, props, t, primary, secondary, p);
    }
    lemma_tuning_len(ps, props, t, primary, secondary);
    assert forall|j: int| 0 <= j < ps.len() && !props.contains(ps[j].0) implies #[trigger] apply_tuning(
        ps,
        props,
        t,
        primary,
        secondary,
    )[j] == ps[j] by {
        lemma_tuning_keeps(ps, props, t, primary, secondary, j);
    }
}

proof fn lemma_tuning_len(
    ps: Seq<Param>,
    props: Seq<Seq<char>>,
    t: Tuning,
    primary: Seq<char>,
    secondary: Seq<char>,
)
    ensures
        apply_tuning(ps, props, t, primary, secondary).len() >= ps.len(),
    decreases props.len(),
{
    if props.len() > 0 {
        let pp = props.drop_last();
        lemma_tuning_len(ps, pp, t, primary, secondary);
        let prev = apply_tuning(ps, pp, t, primary, secondary);
        lemma_set_param_frame(prev, props.last(), primary);
        lemma_set_param_frame(prev, props.last(), secondary);
    }
}

/// The role of a property in a tuning pass, given its lowercased name.
pub fn property_role(t: Tuning, lowered: &str) -> (r: PropertyRole)
    ensures
        r == role_of(t, lowered@),
{
    match t {
        Tuning::Quantizer => {
            let qp = contains(lowered, "qp");
            if qp && (contains(lowered, "i") || contains(lowered, "min")) {
                PropertyRole::Primary
            } else if qp && (contains(lowered, "p") || contains(lowered, "max")) {
                PropertyRole::Secondary
            } else {
                PropertyRole::Unrelated
            }
        },
        Tuning::VariableBitrate => {
            let bitrate = contains(lowered, "bitrate");
            let max = contains(lowered, "max");
            if bitrate && !max {
                PropertyRole::Primary
            } else if bitrate && max {
                PropertyRole::Secondary
            } else {
                PropertyRole::Unrelated
            }
        },
        Tuning::ConstantBitrate => {
            if contains(lowered, "bitrate") && !contains(lowered, "max") {
                PropertyRole::Primary
            } else {
                PropertyRole::Unrelated
            }
        },
        Tuning::GroupOfPictures => {
            if contains(lowered, "gop") || contains(lowered, "int-max") || contains(
                lowered,
                "max-dist",
            ) || contains(lowered, "intra-period-length") {
                PropertyRole::Primary
            } else {
                PropertyRole::Unrelated
            }
        },
    }
}

/// Runs one tuning pass over `properties` on `info`.
fn apply_tuning_pass(
    info: &mut VideoEncoderInfo,
    properties: &Vec<String>,
    t: Tuning,
    primary: &str,
    secondary: &str,
)
    ensures
        final(info)@ == with_parameters(
            old(info)@,
            apply_tuning(old(info)@.parameters, names_view(properties@), t, primary@, secondary@),
        ),
{
    let ghost props = names_view(properties@);
    let ghost start = info@;
    let mut i: usize = 0;
    while i < properties.len()
        invariant
            i <= properties.len(),
            props == names_view(properties@),
            info@ == with_parameters(
                start,
                apply_tuning(start.parameters, props.take(i as int), t, primary@, secondary@),
            ),
        decreases properties.len() - i,
    {
        let name = properties[i].as_str();
        let lowered = to_lower(name);
        let role = property_role(t, lowered.as_str());
        proof {
            assert(props.take(i + 1).drop_last() =~= props.take(i as int));
            assert(props.take(i + 1).last() == properties@[i as int]@);
        }
        match role {
            PropertyRole::Primary => info.set_parameter(name, primary),
            PropertyRole::Secondary => info.set_parameter(name, secondary),
            PropertyRole::Unrelated => {},
        }
        i = i + 1;
    }
    assert(props.take(i as int) =~= props);
}

/// Sets the constant-quantizer properties among `properties`: intra-frame
/// ones to `quality`, predicted-frame ones to `quality + 2`.
pub fn encoder_cqp_params(
    encoder: &VideoEncoderInfo,
    properties: &Vec<String>,
    quality: u32,
) -> (r: VideoEncoderInfo)
    ensures
        r@ == with_parameters(
            encoder@,
            apply_tuning(
                encoder@.parameters,
                names_view(properties@),
                Tuning::Quantizer,
                decimal_text(quality as nat),
                decimal_text(quality as nat + 2),
            ),
        ),
{
    let mut out = encoder.duplicate();
    let primary = decimal_string(quality as u64);
    let secondary = decimal_string(quality as u64 + 2);
    apply_tuning_pass(&mut out, properties, Tuning::Quantizer, primary.as_str(), secondary.as_str());
    out
}

/// Sets the bitrate properties among `properties`: target ones to `bitrate`,
/// maximum ones to `max_bitrate`.
pub fn encoder_vbr_params(
    encoder: &VideoEncoderInfo,
    properties: &Vec<String>,
    bitrate: u32,
    max_bitrate: u32,
) -> (r: VideoEncoderInfo)
    ensures
        r@ == with_parameters(
            encoder@,
            apply_tuning(
                encoder@.parameters,
                names_view(properties@),
                Tuning::VariableBitrate,
                decimal_text(bitrate as nat),
                decimal_text(max_bitrate as nat),
            ),
        ),
{
    let mut out = encoder.duplicate();
    let primary = decimal_string(bitrate as u64);
    let secondary = decimal_string(max_bitrate as u64);
    apply_tuning_pass(
        &mut out,
        properties,
        Tuning::VariableBitrate,
        primary.as_str(),
        secondary.as_str(),
    );
    out
}

/// Sets the target-bitrate properties among `properties` to `bitrate`.
pub fn encoder_cbr_params(
    encoder: &VideoEncoderInfo,
    properties: &Vec<String>,
    bitrate: u32,
) -> (r: VideoEncoderInfo)
    ensures
        r@ == with_parameters(
            encoder@,
            apply_tuning(
                encoder@.parameters,
                names_view(properties@),
                Tuning::ConstantBitrate,
                decimal_text(bitrate as nat),
                decimal_text(bitrate as nat),
            ),
        ),
{
    let mut out = encoder.duplicate();
    let primary = decimal_string(bitrate as u64);
    apply_tuning_pass(
        &mut out,
        properties,
        Tuning::ConstantBitrate,
        primary.as_str(),
        primary.as_str(),
    );
    out
}

/// Sets the keyframe-interval properties among `properties` to `gop_size`.
pub fn encoder_gop_params(
    encoder: &VideoEncoderInfo,
    properties: &Vec<String>,
    gop_size: u32,
) -> (r: VideoEncoderInfo)
    ensures
        r@ == with_parameters(
            encoder@,
            apply_tuning(
                encoder@.parameters,
                names_view(properties@),
                Tuning::GroupOfPictures,
                decimal_text(gop_size as nat),
                decimal_text(gop_size as nat),
            ),
        ),
{
    let mut out = encoder.duplicate();
    let primary = decimal_string(gop_size as u64);
    apply_tuning_pass(
        &mut out,
        properties,
        Tuning::GroupOfPictures,
        primary.as_str(),
        primary.as_str(),
    );
    out
}

/// The fixed keyframe interval of the low-latency profile.
pub const LOW_LATENCY_GOP: u32 = 30;

/// The low-latency settings for an encoder, by API, codec and name.
pub open spec fn low_latency_settings(api: EncoderAPI, codec: VideoCodec, name: Seq<char>) -> Seq<
    Param,
> {
    match api {
        EncoderAPI::QSV => seq![("low-latency"@, "true"@), ("target-usage"@, "7"@)],
        EncoderAPI::VAAPI => seq![("target-usage"@, "7"@)],
        EncoderAPI::NVENC => match codec {
            VideoCodec::H264 => seq![
                ("multi-pass"@, "disabled"@),
                ("preset"@, "p1"@),
                ("tune"@, "ultra-low-latency"@),
            ],
            VideoCodec::AV1 => seq![("preset"@, "low-latency-hp"@)],
            VideoCodec::UNKNOWN => seq![],
        },
        EncoderAPI::AMF => match codec {
            VideoCodec::H264 => seq![("preset"@, "speed"@), ("usage"@, "ultra-low-latency"@)],
            VideoCodec::AV1 => seq![("preset"@, "speed"@), ("usage"@, "low-latency"@)],
            VideoCodec::UNKNOWN => seq![("preset"@, "speed"@)],
        },
        EncoderAPI::SOFTWARE => {
            if name == "openh264enc"@ {
                seq![("complexity"@, "low"@), ("usage-type"@, "screen"@)]
            } else if name == "x264enc"@ {
                seq![
                    ("rc-lookahead"@, "0"@),
                    ("speed-preset"@, "ultrafast"@),
                    ("tune"@, "zerolatency"@),
                ]
            } else if name == "svtav1enc"@ {
                seq![("preset"@, "12"@), ("parameters-string"@, "pred-struct=1:lookahead=0"@)]
            } else if name == "av1enc"@ {
                seq![
                    ("usage-profile"@, "realtime"@),
                    ("cpu-used"@, "10"@),
                    ("lag-in-frames"@, "0"@),
                ]
            } else {
                seq![]
            }
        },
        EncoderAPI::UNKNOWN => seq![],
    }
}

pub open spec fn pairs_view(v: Seq<(&'static str, &'static str)>) -> Seq<Param> {
    v.map_values(|p: (&'static str, &'static str)| (p.0@, p.1@))
}

fn low_latency_table(api: EncoderAPI, codec: VideoCodec, name: &str) -> (r: Vec<
    (&'static str, &'static str),
>)
    ensures
        pairs_view(r@) == low_latency_settings(api, codec, name@),
{
    let mut t: Vec<(&'static str, &'static str)> = Vec::new();
    match api {
        EncoderAPI::QSV => {
            t.push(("low-latency", "true"));
            t.push(("target-usage", "7"));
        },
        EncoderAPI::VAAPI => {
            t.push(("target-usage", "7"));
        },
        EncoderAPI::NVENC => match codec {
            VideoCodec::H264 => {
                t.push(("multi-pass", "disabled"));
                t.push(("preset", "p1"));
                t.push(("tune", "ultra-low-latency"));
            },
            VideoCodec::AV1 => {
                t.push(("preset", "low-latency-hp"));
            },
            VideoCodec::UNKNOWN => {},
        },
        EncoderAPI::AMF => {
            t.push(("preset", "speed"));
            match codec {
                VideoCodec::H264 => {
                    t.push(("usage", "ultra-low-latency"));
                },
                VideoCodec::AV1 => {
                    t.push(("usage", "low-latency"));
                },
                VideoCodec::UNKNOWN => {},
            }
        },
        EncoderAPI::SOFTWARE => {
            if str_eq(name, "openh264enc") {
                t.push(("complexity", "low"));
                t.push(("usage-type", "screen"));
            } else if str_eq(name, "x264enc") {
                t.push(("rc-lookahead", "0"));
                t.push(("speed-preset", "ultrafast"));
                t.push(("tune", "zerolatency"));
            } else if str_eq(name, "svtav1enc") {
                t.push(("preset", "12"));
                t.push(("parameters-string", "pred-struct=1:lookahead=0"));
            } else if str_eq(name, "av1enc") {
                t.push(("usage-profile", "realtime"));
                t.push(("cpu-used", "10"));
                t.push(("lag-in-frames", "0"));
            }
        },
        EncoderAPI::UNKNOWN => {},
    }
    assert(pairs_view(t@) =~= low_latency_settings(api, codec, name@));
    t
}

/// Sets each pair of `pairs`, in order.
fn set_parameters(info: &mut VideoEncoderInfo, pairs: &Vec<(&'static str, &'static str)>)
    ensures
        final(info)@ == with_parameters(old(info)@, set_all(old(info)@.parameters, pairs_view(pairs@))),
{
    let ghost t = pairs_view(pairs@);
    let ghost start = info@;
    let mut i: usize = 0;
    while i < pairs.len()
        invariant
            i <= pairs.len(),
            t == pairs_view(pairs@),
            info@ == with_parameters(start, set_all(start.parameters, t.take(i as int))),
        decreases pairs.len() - i,
    {
        let (key, value) = pairs[i];
        proof {
            assert(t.take(i + 1).drop_last() =~= t.take(i as int));
            assert(t.take(i + 1).last() == t[i as int]);
        }
        info.set_parameter(key, value);
        i = i + 1;
    }
    assert(t.take(i as int) =~= t);
}

/// Tunes an encoder for low latency: the keyframe interval is set to
/// `LOW_LATENCY_GOP` through `properties`, then the settings of
/// `low_latency_settings` are applied in order.
pub fn encoder_low_latency_params(encoder: &VideoEncoderInfo, properties: &Vec<String>) -> (r:
    VideoEncoderInfo)
    ensures
        r@ == with_parameters(
            encoder@,
            set_all(
                apply_tuning(
                    encoder@.parameters,
                    names_view(properties@),
                    Tuning::GroupOfPictures,
                    decimal_text(LOW_LATENCY_GOP as nat),
                    decimal_text(LOW_LATENCY_GOP as nat),
                ),
                low_latency_settings(encoder@.encoder_api, encoder@.codec, encoder@.name),
            ),
        ),
{
    let mut out = encoder_gop_params(encoder, properties, LOW_LATENCY_GOP);
    let table = low_latency_table(out.encoder_api, out.codec, out.name.as_str());
    set_parameters(&mut out, &table);
    out
}

/// An encoder element as the media framework's registry describes it.
pub struct EncoderFeature {
    /// The element's name.
    pub name: String,
    /// The element's classification metadata, such as `Codec/Encoder/Video/Hardware`.
    pub klass: String,
    /// Whether the element can be instantiated on this system.
    pub supported: bool,
    /// Whether the low-power variant of the name can be instantiated.
    pub low_power_supported: bool,
}

/// The codec that an encoder name implies: one naming `264` is H.264, else one
/// naming `av1` is AV1; any other name implies none.
pub open spec fn codec_of_name(n: Seq<char>) -> Option<VideoCodec> {
    if seq_contains(n, "264"@) {
        Some(VideoCodec::H264)
    } else if seq_contains(n, "av1"@) {
        Some(VideoCodec::AV1)
    } else {
        None
    }
}

/// The encoder that a registry entry yields, given its lowercased class.
pub open spec fn classify(
    name: Seq<char>,
    lowered_klass: Seq<char>,
    supported: bool,
    low_power_supported: bool,
) -> Option<EncoderView> {
    if !seq_contains(lowered_klass, "encoder/video"@) {
        None
    } else {
        let t = if seq_contains(lowered_klass, "/hardware"@) {
            EncoderType::HARDWARE
        } else {
            EncoderType::SOFTWARE
        };
        let api = api_for(name, t);
        let chosen = if supported {
            Some(name)
        } else if api == EncoderAPI::VAAPI && low_power_supported {
            Some(low_power_name(name))
        } else {
            None
        };
        match chosen {
            Some(n) => match codec_of_name(n) {
                Some(c) => Some(
                    EncoderView {
                        name: n,
                        codec: c,
                        encoder_type: t,
                        encoder_api: api,
                        parameters: Seq::empty(),
                    },
                ),
                None => None,
            },
            None => None,
        }
    }
}

pub open spec fn opt_view(o: Option<VideoEncoderInfo>) -> Option<EncoderView> {
    match o {
        Some(e) => Some(e@),
        None => None,
    }
}

pub open spec fn infos_view(v: Seq<VideoEncoderInfo>) -> Seq<EncoderView> {
    v.map_values(|e: VideoEncoderInfo| e@)
}

fn codec_of_encoder_name(name: &str) -> (r: Option<VideoCodec>)
    ensures
        r == codec_of_name(name@),
{
    if contains(name, "264") {
        Some(VideoCodec::H264)
    } else if contains(name, "av1") {
        Some(VideoCodec::AV1)
    } else {
        None
    }
}

/// The encoder that a registry entry yields, given its lowercased class.
pub fn classify_encoder(
    name: &String,
    lowered_klass: &str,
    supported: bool,
    low_power_supported: bool,
) -> (r: Option<VideoEncoderInfo>)
    ensures
        opt_view(r) == classify(name@, lowered_klass@, supported, low_power_supported),
{
    if !contains(lowered_klass, "encoder/video") {
        return None;
    }
    let encoder_type = if contains(lowered_klass, "/hardware") {
        EncoderType::HARDWARE
    } else {
        EncoderType::SOFTWARE
    };
    let api = get_encoder_api(name, &encoder_type);
    let chosen = if supported {
        name.clone()
    } else if api == EncoderAPI::VAAPI && low_power_supported {
        get_low_power_encoder(name)
    } else {
        return None;
    };
    match codec_of_encoder_name(chosen.as_str()) {
        Some(codec) => Some(VideoEncoderInfo::new(chosen, codec, encoder_type, api)),
        None => None,
    }
}

/// The encoder that a registry entry yields.
pub fn encoder_from_feature(feature: &EncoderFeature) -> (r: Option<VideoEncoderInfo>)
    ensures
        opt_view(r) == classify(
            feature.name@,
            lower_of(feature.klass@),
            feature.supported,
            feature.low_power_supported,
        ),
{
    let lowered = to_lower(feature.klass.as_str());
    classify_encoder(&feature.name, lowered.as_str(), feature.supported, feature.low_power_supported)
}

/// The encoders that the registry entries yield, in order.
pub open spec fn compatible(fs: Seq<EncoderFeature>) -> Seq<EncoderView>
    decreases fs.len(),
{
    if fs.len() == 0 {
        Seq::empty()
    } else {
        let f = fs.last();
        let prev = compatible(fs.drop_last());
        match classify(f.name@, lower_of(f.klass@), f.supported, f.low_power_supported) {
            Some(e) => prev.push(e),
            None => prev,
        }
    }
}

/// All encoders that the registry entries yield, in registry order.
pub fn get_compatible_encoders(features: &Vec<EncoderFeature>) -> (r: Vec<VideoEncoderInfo>)
    ensures
        infos_view(r@) == compatible(features@),
{
    let mut out: Vec<VideoEncoderInfo> = Vec::new();
    let mut i: usize = 0;
    while i < features.len()
        invariant
            i <= features.len(),
            infos_view(out@) == compatible(features@.take(i as int)),
        decreases features.len() - i,
    {
        let found = encoder_from_feature(&features[i]);
        proof {
            assert(features@.take(i + 1).drop_last() =~= features@.take(i as int));
        }
        match found {
            Some(e) => {
                let ghost before = out@;
                out.push(e);
                assert(infos_view(out@) =~= infos_view(before).push(e@));
            },
            None => {},
        }
        i = i + 1;
    }
    assert(features@.take(i as int) =~= features@);
    out
}

/// The encoders of `s` with codec `c`, in order.
pub open spec fn keep_codec(s: Seq<EncoderView>, c: VideoCodec) -> Seq<EncoderView>
    decreases s.len(),
{
    if s.len() == 0 {
        s
    } else if s.last().codec == c {
        keep_codec(s.drop_last(), c).push(s.last())
    } else {
        keep_codec(s.drop_last(), c)
    }
}

/// The encoders of `s` of type `t`, in order.
pub open spec fn keep_type(s: Seq<EncoderView>, t: EncoderType) -> Seq<EncoderView>
    decreases s.len(),
{
    if s.len() == 0 {
        s
    } else if s.last().encoder_type == t {
        keep_type(s.drop_last(), t).push(s.last())
    } else {
        keep_type(s.drop_last(), t)
    }
}

/// The encoders with the given codec, in order.
pub fn get_encoders_by_videocodec(encoders: &Vec<VideoEncoderInfo>, codec: &VideoCodec) -> (r: Vec<
    VideoEncoderInfo,
>)
    ensures
        infos_view(r@) == keep_codec(infos_view(encoders@), *codec),
{
    let ghost s = infos_view(encoders@);
    let mut out: Vec<VideoEncoderInfo> = Vec::new();
    let mut i: usize = 0;
    while i < encoders.len()
        invariant
            i <= encoders.len(),
            s == infos_view(encoders@),
            infos_view(out@) == keep_codec(s.take(i as int), *codec),
        decreases encoders.len() - i,
    {
        proof {
            assert(s.take(i + 1).drop_last() =~= s.take(i as int));
        }
        if encoders[i].codec == *codec {
            let e = encoders[i].duplicate();
            let ghost before = out@;
            out.push(e);
            assert(infos_view(out@) =~= infos_view(before).push(e@));
        }
        i = i + 1;
    }
    assert(s.take(i as int) =~= s);
    out
}

/// The encoders of the given type, in order.
pub fn get_encoders_by_type(encoders: &Vec<VideoEncoderInfo>, encoder_type: &EncoderType) -> (r:
    Vec<VideoEncoderInfo>)
    ensures
        infos_view(r@) == keep_type(infos_view(encoders@), *encoder_type),
{
    let ghost s = infos_view(encoders@);
    let mut out: Vec<VideoEncoderInfo> = Vec::new();
    let mut i: usize = 0;
    while i < encoders.len()
        invariant
            i <= encoders.len(),
            s == infos_view(encoders@),
            infos_view(out@) == keep_type(s.take(i as int), *encoder_type),
        decreases encoders.len() - i,
    {
        proof {
            assert(s.take(i + 1).drop_last() =~= s.take(i as int));
        }
        if encoders[i].encoder_type == *encoder_type {
            let e = encoders[i].duplicate();
            let ghost before = out@;
            out.push(e);
            assert(infos_view(out@) =~= infos_view(before).push(e@));
        }
        i = i + 1;
    }
    assert(s.take(i as int) =~= s);
    out
}

/// The first encoder of `s` whose lowercased name is `l`.
pub open spec fn find_named(s: Seq<EncoderView>, l: Seq<char>) -> Option<EncoderView>
    decreases s.len(),
{
    if s.len() == 0 {
        None
    } else if lower_of(s[0].name) == l {
        Some(s[0])
    } else {
        find_named(s.drop_first(), l)
    }
}

/// The first encoder whose name equals `name`, ignoring case.
pub fn get_encoder_by_name(encoders: &Vec<VideoEncoderInfo>, name: &str) -> (r: Option<
    VideoEncoderInfo,
>)
    ensures
        opt_view(r) == find_named(infos_view(encoders@), lower_of(name@)),
{
    let ghost s = infos_view(encoders@);
    let wanted = to_lower(name);
    assert(s.subrange(0, s.len() as int) =~= s);
    let mut i: usize = 0;
    while i < encoders.len()
        invariant
            i <= encoders.len(),
            s == infos_view(encoders@),
            wanted@ == lower_of(name@),
            find_named(s, wanted@) == find_named(s.subrange(i as int, s.len() as int), wanted@),
        decreases encoders.len() - i,
    {
        let ghost rest = s.subrange(i as int, s.len() as int);
        assert(rest.drop_first() =~= s.subrange(i + 1, s.len() as int));
        assert(rest[0] == encoders@[i as int]@);
        let lowered = to_lower(encoders[i].name.as_str());
        if str_eq(lowered.as_str(), wanted.as_str()) {
            return Some(encoders[i].duplicate());
        }
        i = i + 1;
    }
    None
}

pub open spec fn api_score(a: EncoderAPI) -> int {
    match a {
        EncoderAPI::NVENC => 3,
        EncoderAPI::QSV => 3,
        EncoderAPI::AMF => 3,
        EncoderAPI::VAAPI => 2,
        EncoderAPI::SOFTWARE => 1,
        EncoderAPI::UNKNOWN => 0,
    }
}

/// The bonus of a software encoder known to suit low latency.
pub open spec fn name_bonus(n: Seq<char>) -> int {
    if n == "openh264enc"@ {
        2
    } else if n == "x264enc"@ {
        1
    } else if n == "svtav1enc"@ {
        2
    } else if n == "av1enc"@ {
        1
    } else {
        0
    }
}

/// How well an encoder suits low-latency streaming.
pub open spec fn score(e: EncoderView) -> int {
    api_score(e.encoder_api) + if e.encoder_type == EncoderType::SOFTWARE {
        name_bonus(e.name)
    } else {
        0
    }
}

/// The pick over `s` in order and its score: a candidate replaces the current
/// pick only with a strictly higher score; the first candidate is always taken.
pub open spec fn best_pick(s: Seq<EncoderView>) -> (Option<EncoderView>, int)
    decreases s.len(),
{
    if s.len() == 0 {
        (None, 0)
    } else {
        let prev = best_pick(s.drop_last());
        if prev.0 is None || score(s.last()) > prev.1 {
            (Some(s.last()), score(s.last()))
        } else {
            prev
        }
    }
}

/// The candidates of `s` for a codec and type.
pub open spec fn candidates(s: Seq<EncoderView>, c: VideoCodec, t: EncoderType) -> Seq<
    EncoderView,
> {
    keep_type(keep_codec(s, c), t)
}

/// The score of an encoder.
pub fn encoder_score(e: &VideoEncoderInfo) -> (r: i32)
    ensures
        r == score(e@),
{
    let base: i32 = match e.encoder_api {
        EncoderAPI::NVENC => 3,
        EncoderAPI::QSV => 3,
        EncoderAPI::AMF => 3,
        EncoderAPI::VAAPI => 2,
        EncoderAPI::SOFTWARE => 1,
        EncoderAPI::UNKNOWN => 0,
    };
    let bonus: i32 = if e.encoder_type == EncoderType::SOFTWARE {
        let n = e.name.as_str();
        if str_eq(n, "openh264enc") {
            2
        } else if str_eq(n, "x264enc") {
            1
        } else if str_eq(n, "svtav1enc") {
            2
        } else if str_eq(n, "av1enc") {
            1
        } else {
            0
        }
    } else {
        0
    };
    base + bonus
}

/// The best-scoring encoder of the given codec and type; ties keep the
/// earlier one, and none is picked only where no encoder has that codec and type.
pub fn get_best_compatible_encoder(
    encoders: &Vec<VideoEncoderInfo>,
    codec: VideoCodec,
    encoder_type: EncoderType,
) -> (r: Option<VideoEncoderInfo>)
    ensures
        opt_view(r) == best_pick(candidates(infos_view(encoders@), codec, encoder_type)).0,
{
    let by_codec = get_encoders_by_videocodec(encoders, &codec);
    let matching = get_encoders_by_type(&by_codec, &encoder_type);
    let ghost s = infos_view(matching@);
    let mut best: Option<VideoEncoderInfo> = None;
    let mut best_score: i32 = 0;
    let mut i: usize = 0;
    while i < matching.len()
        invariant
            i <= matching.len(),
            s == infos_view(matching@),
            opt_view(best) == best_pick(s.take(i as int)).0,
            best_score == best_pick(s.take(i as int)).1,
        decreases matching.len() - i,
    {
        proof {
            assert(s.take(i + 1).drop_last() =~= s.take(i as int));
        }
        let sc = encoder_score(&matching[i]);
        if best.is_none() || sc > best_score {
            best = Some(matching[i].duplicate());
            best_score = sc;
        }
        i = i + 1;
    }
    assert(s.take(i as int) =~= s);
    best
}

proof fn lemma_push_contains(q: Seq<EncoderView>, a: EncoderView, x: EncoderView)
    ensures
        q.push(a).contains(x) <==> (q.contains(x) || x == a),
{
    if q.push(a).contains(x) {
        let k = choose|k: int| 0 <= k < q.len() + 1 && q.push(a)[k] == x;
        if k < q.len() {
            assert(q[k] == x);
        }
    }
    if q.contains(x) {
        let k = choose|k: int| 0 <= k < q.len() && q[k] == x;
        assert(q.push(a)[k] == x);
    }
    if x == a {
        assert(q.push(a)[q.len() as int] == x);
    }
}

proof fn lemma_keep_codec_member(s: Seq<EncoderView>, c: VideoCodec, x: EncoderView)
    ensures
        keep_codec(s, c).contains(x) <==> (s.contains(x) && x.codec == c),
    decreases s.len(),
{
    if s.len() > 0 {
        let p = s.drop_last();
        lemma_keep_codec_member(p, c, x);
        assert(s =~= p.push(s.last()));
        lemma_push_contains(p, s.last(), x);
        lemma_push_contains(keep_codec(p, c), s.last(), x);
    }
}

proof fn lemma_keep_type_member(s: Seq<EncoderView>, t: EncoderType, x: EncoderView)
    ensures
        keep_type(s, t).contains(x) <==> (s.contains(x) && x.encoder_type == t),
    decreases s.len(),
{
    if s.len() > 0 {
        let p = s.drop_last();
        lemma_keep_type_member(p, t, x);
        assert(s =~= p.push(s.last()));
        lemma_push_contains(p, s.last(), x);
        lemma_push_contains(keep_type(p, t), s.last(), x);
    }
}

proof fn lemma_best_pick_bounds(s: Seq<EncoderView>)
    ensures
        best_pick(s).0 is None <==> s.len() == 0,
        forall|x: EncoderView| s.contains(x) ==> score(x) <= best_pick(s).1,
        best_pick(s).0 matches Some(e) ==> {
            &&& score(e) == best_pick(s).1
            &&& exists|i: int|
                0 <= i < s.len() && s[i] == e && forall|j: int|
                    0 <= j < i ==> score(#[trigger] s[j]) < score(e)
        },
    decreases s.len(),
{
    if s.len() > 0 {
        let p = s.drop_last();
        lemma_best_pick_bounds(p);
        assert forall|x: EncoderView| s.contains(x) implies score(x) <= best_pick(s).1 by {
            let k = choose|k: int| 0 <= k < s.len() && s[k] == x;
            if k < s.len() - 1 {
                assert(p[k] == x);
                assert(p.contains(x));
            }
        }
        let e = best_pick(s).0->Some_0;
        if best_pick(p).0 is None || score(s.last()) > best_pick(p).1 {
            let i = s.len() - 1;
            assert forall|j: int| 0 <= j < i implies score(#[trigger] s[j]) < score(e) by {
                assert(p[j] == s[j]);
                assert(p.contains(s[j]));
            }
            assert(s[i] == e);
        } else {
            let i = choose|i: int|
                0 <= i < p.len() && p[i] == e && forall|j: int|
                    0 <= j < i ==> score(#[trigger] p[j]) < score(e);
            assert forall|j: int| 0 <= j < i implies score(#[trigger] s[j]) < score(e) by {
                assert(p[j] == s[j]);
            }
            assert(s[i] == e);
        }
    }
}

/// The encoder picked for a codec and type is the first candidate of that
/// codec and type whose score is maximal among them: no candidate scores
/// strictly higher, and every earlier candidate scores strictly lower. None
/// is picked only where there is no candidate at all.
pub proof fn lemma_best_encoder_is_maximal(s: Seq<EncoderView>, c: VideoCodec, t: EncoderType)
    ensures
        best_pick(candidates(s, c, t)).0 matches Some(e) ==> {
            &&& e.codec == c
            &&& e.encoder_type == t
            &&& s.contains(e)
            &&& forall|x: EncoderView|
                s.contains(x) && x.codec == c && x.encoder_type == t ==> score(x) <= score(e)
            &&& exists|i: int|
                0 <= i < candidates(s, c, t).len() && candidates(s, c, t)[i] == e && forall|j: int|
                    0 <= j < i ==> score(#[trigger] candidates(s, c, t)[j]) < score(e)
        },
        best_pick(candidates(s, c, t)).0 is None <==> !exists|x: EncoderView|
            s.contains(x) && x.codec == c && x.encoder_type == t,
{
    let m = candidates(s, c, t);
    lemma_best_pick_bounds(m);
    assert forall|x: EncoderView| #[trigger] m.contains(x) <==> (s.contains(x) && x.codec == c
        && x.encoder_type == t) by {
        lemma_keep_codec_member(s, c, x);
        lemma_keep_type_member(keep_codec(s, c), t, x);
    }
    assert forall|x: EncoderView|
        s.contains(x) && x.codec == c && x.encoder_type == t implies score(x) <= best_pick(m).1 by {
        assert(m.contains(x));
    }
    if let Some(e) = best_pick(m).0 {
        let i = choose|i: int|
            0 <= i < m.len() && m[i] == e && forall|j: int|
                0 <= j < i ==> score(#[trigger] m[j]) < score(e);
        assert(m.contains(e));
    }
    if m.len() > 0 {
        let x = m[0];
        assert(m.contains(x));
        assert(s.contains(x) && x.codec == c && x.encoder_type == t);
    } else {
        assert forall|x: EncoderView| !(s.contains(x) && x.codec == c && x.encoder_type == t) by {
            if s.contains(x) && x.codec == c && x.encoder_type == t {
                assert(m.contains(x));
            }
        }
    }
}

/// Picks the video encoder: the one named `name_override` (ignoring case)
/// where that is not empty, else the best-scoring one for the codec and type
/// that `codec_name` and `kind_name` denote.
pub fn select_video_encoder(
    encoders: &Vec<VideoEncoderInfo>,
    name_override: &str,
    codec_name: &str,
    kind_name: &str,
) -> (r: Option<VideoEncoderInfo>)
    ensures
        name_override@.len() > 0 ==> opt_view(r) == find_named(
            infos_view(encoders@),
            lower_of(name_override@),
        ),
        name_override@.len() == 0 ==> opt_view(r) == best_pick(
            candidates(
                infos_view(encoders@),
                codec_from_lowercase(lower_of(codec_name@)),
                type_from_lowercase(lower_of(kind_name@)),
            ),
        ).0,
{
    if name_override.unicode_len() > 0 {
        get_encoder_by_name(encoders, name_override)
    } else {
        get_best_compatible_encoder(
            encoders,
            VideoCodec::from_str(codec_name),
            EncoderType::from_str(kind_name),
        )
    }
}

/// The parameters of the tuned encoder: the low-latency profile, then the
/// pass of the chosen rate control.
pub open spec fn tuned_parameters(e: EncoderView, props: Seq<Seq<char>>, rc: RateControl) -> Seq<
    Param,
> {
    let low = set_all(
        apply_tuning(
            e.parameters,
            props,
            Tuning::GroupOfPictures,
            decimal_text(LOW_LATENCY_GOP as nat),
            decimal_text(LOW_LATENCY_GOP as nat),
        ),
        low_latency_settings(e.encoder_api, e.codec, e.name),
    );
    match rc {
        RateControl::CQP(c) => apply_tuning(
            low,
            props,
            Tuning::Quantizer,
            decimal_text(c.quality as nat),
            decimal_text(c.quality as nat + 2),
        ),
        RateControl::VBR(v) => apply_tuning(
            low,
            props,
            Tuning::VariableBitrate,
            decimal_text(v.target_bitrate as nat),
            decimal_text(v.max_bitrate as nat),
        ),
        RateControl::CBR(c) => apply_tuning(
            low,
            props,
            Tuning::ConstantBitrate,
            decimal_text(c.target_bitrate as nat),
            decimal_text(c.target_bitrate as nat),
        ),
    }
}

/// Tunes the chosen video encoder for low latency and the rate control.
pub fn tune_video_encoder(
    encoder: &VideoEncoderInfo,
    properties: &Vec<String>,
    rate_control: &RateControl,
) -> (r: VideoEncoderInfo)
    ensures
        r@ == with_parameters(encoder@, tuned_parameters(encoder@, names_view(properties@), *rate_control)),
{
    let low = encoder_low_latency_params(encoder, properties);
    match rate_control {
        RateControl::CQP(c) => encoder_cqp_params(&low, properties, c.quality),
        RateControl::VBR(v) => encoder_vbr_params(&low, properties, v.target_bitrate, v.max_bitrate),
        RateControl::CBR(c) => encoder_cbr_params(&low, properties, c.target_bitrate),
    }
}

/// The audio encoder: the override where one is given, else `opusenc`.
pub fn audio_encoder_name(override_name: &str) -> (r: String)
    ensures
        r@ == (if override_name@.len() == 0 {
            "opusenc"@
        } else {
            override_name@
        }),
{
    if override_name.unicode_len() == 0 {
        String::from_str("opusenc")
    } else {
        String::from_str(override_name)
    }
}

} // verus!
