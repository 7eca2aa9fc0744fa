//! Graphics devices: what one enumeration pass reports, how a line of the
//! PCI listing is read, and which device is picked.

use vstd::prelude::*;
use crate::text::{contains, lower_of, seq_contains, seq_starts_with, starts_with, str_eq, to_lower};

verus! {

#[derive(Debug, PartialEq, Eq, Structural, Clone, Copy)]
pub enum GPUVendor {
    UNKNOWN,
    INTEL,
    NVIDIA,
    AMD,
}

pub struct GPUInfo {
    vendor: GPUVendor,
    card_path: String,
    render_path: String,
    device_name: String,
}

pub open spec fn vendor_label(v: GPUVendor) -> Seq<char> {
    match v {
        GPUVendor::INTEL => "Intel"@,
        GPUVendor::NVIDIA => "NVIDIA"@,
        GPUVendor::AMD => "AMD"@,
        GPUVendor::UNKNOWN => "Unknown"@,
    }
}

/// The vendor that a PCI vendor id denotes.
pub open spec fn vendor_of_id(id: Seq<char>) -> GPUVendor {
    if id == "8086"@ {
        GPUVendor::INTEL
    } else if id == "10de"@ {
        GPUVendor::NVIDIA
    } else if id == "1002"@ {
        GPUVendor::AMD
    } else {
        GPUVendor::UNKNOWN
    }
}

impl GPUInfo {
    pub fn new(vendor: GPUVendor, card_path: String, render_path: String, device_name: String) -> (r:
        Self)
        ensures
            r.spec_vendor() == vendor,
            r.spec_card_path() == card_path@,
            r.spec_render_path() == render_path@,
            r.spec_device_name() == device_name@,
    {
        GPUInfo { vendor, card_path, render_path, device_name }
    }

    pub closed spec fn spec_vendor(&self) -> GPUVendor {
        self.vendor
    }

    pub closed spec fn spec_card_path(&self) -> Seq<char> {
        self.card_path@
    }

    pub closed spec fn spec_render_path(&self) -> Seq<char> {
        self.render_path@
    }

    pub closed spec fn spec_device_name(&self) -> Seq<char> {
        self.device_name@
    }

    pub fn vendor(&self) -> (r: &GPUVendor)
        ensures
            *r == self.spec_vendor(),
    {
        &self.vendor
    }

    pub fn vendor_string(&self) -> (r: &'static str)
        ensures
            r@ == vendor_label(self.spec_vendor()),
    {
        match self.vendor {
            GPUVendor::INTEL => "Intel",
            GPUVendor::NVIDIA => "NVIDIA",
            GPUVendor::AMD => "AMD",
            GPUVendor::UNKNOWN => "Unknown",
        }
    }

    pub fn card_path(&self) -> (r: &str)
        ensures
            r@ == self.spec_card_path(),
    {
        self.card_path.as_str()
    }

    pub fn render_path(&self) -> (r: &str)
        ensures
            r@ == self.spec_render_path(),
    {
        self.render_path.as_str()
    }

    pub fn device_name(&self) -> (r: &str)
        ensures
            r@ == self.spec_device_name(),
    {
        self.device_name.as_str()
    }

    /// A copy of this description.
    pub fn duplicate(&self) -> (r: Self)
        ensures
            r.spec_vendor() == self.spec_vendor(),
            r.spec_card_path() == self.spec_card_path(),
            r.spec_render_path() == self.spec_render_path(),
            r.spec_device_name() == self.spec_device_name(),
            r@ == self@,
    {
        GPUInfo {
            vendor: self.vendor,
            card_path: self.card_path.clone(),
            render_path: self.render_path.clone(),
            device_name: self.device_name.clone(),
        }
    }
}

/// The vendor that a PCI vendor id denotes.
pub fn get_gpu_vendor(vendor_id: &str) -> (r: GPUVendor)
    ensures
        r == vendor_of_id(vendor_id@),
{
    if str_eq(vendor_id, "8086") {
        GPUVendor::INTEL
    } else if str_eq(vendor_id, "10de") {
        GPUVendor::NVIDIA
    } else if str_eq(vendor_id, "1002") {
        GPUVendor::AMD
    } else {
        GPUVendor::UNKNOWN
    }
}

/// Whether a lowercased line of the PCI listing describes a display device.
pub open spec fn is_display_line(lowered: Seq<char>) -> bool {
    seq_contains(lowered, "vga compatible controller"@) || seq_contains(
        lowered,
        "3d controller"@,
    ) || seq_contains(lowered, "display controller"@)
}

/// Whether a lowercased line of the PCI listing describes a display device.
pub fn is_gpu_line(lowered: &str) -> (r: bool)
    ensures
        r == is_display_line(lowered@),
{
    contains(lowered, "vga compatible controller") || contains(lowered, "3d controller") || contains(
        lowered,
        "display controller",
    )
}

/// `char::is_whitespace`: the Unicode `White_Space` property.
pub open spec fn is_space(c: char) -> bool {
    let v = c as u32;
    (9 <= v <= 13) || v == 32 || v == 0x85 || v == 0xa0 || v == 0x1680 || (0x2000 <= v <= 0x200a)
        || v == 0x2028 || v == 0x2029 || v == 0x202f || v == 0x205f || v == 0x3000
}

/// `char::is_ascii_hexdigit`.
pub open spec fn is_hex(c: char) -> bool {
    ('0' <= c && c <= '9') || ('a' <= c && c <= 'f') || ('A' <= c && c <= 'F')
}

/// The characters that a trim removes.
#[derive(Debug, PartialEq, Eq, Structural, Clone, Copy)]
pub enum Strip {
    Space,
    NonHex,
}

pub open spec fn stripped(k: Strip, c: char) -> bool {
    match k {
        Strip::Space => is_space(c),
        Strip::NonHex => !is_hex(c),
    }
}

fn is_stripped(k: Strip, c: char) -> (r: bool)
    ensures
        r == stripped(k, c),
{
    match k {
        Strip::Space => {
            let v = c as u32;
            (9 <= v && v <= 13) || v == 32 || v == 0x85 || v == 0xa0 || v == 0x1680 || (0x2000 <= v
                && v <= 0x200a) || v == 0x2028 || v == 0x2029 || v == 0x202f || v == 0x205f || v
                == 0x3000
        },
        Strip::NonHex => !(('0' <= c && c <= '9') || ('a' <= c && c <= 'f') || ('A' <= c && c
            <= 'F')),
    }
}

pub open spec fn strip_start(s: Seq<char>, k: Strip) -> Seq<char>
    decreases s.len(),
{
    if s.len() > 0 && stripped(k, s[0]) {
        strip_start(s.drop_first(), k)
    } else {
        s
    }
}

pub open spec fn strip_end(s: Seq<char>, k: Strip) -> Seq<char>
    decreases s.len(),
{
    if s.len() > 0 && stripped(k, s.last()) {
        strip_end(s.drop_last(), k)
    } else {
        s
    }
}

/// `s` without the characters of kind `k` at either end.
pub open spec fn strip_both(s: Seq<char>, k: Strip) -> Seq<char> {
    strip_end(strip_start(s, k), k)
}

proof fn lemma_strip_start(s: Seq<char>, k: Strip, a: int)
    requires
        0 <= a <= s.len(),
        forall|j: int| 0 <= j < a ==> stripped(k, #[trigger] s[j]),
        a == s.len() || !stripped(k, s[a]),
    ensures
        strip_start(s, k) == s.subrange(a, s.len() as int),
    decreases a,
{
    if a == 0 {
        assert(s.subrange(0, s.len() as int) =~= s);
    } else {
        assert(stripped(k, s[0]));
        let t = s.drop_first();
        assert forall|j: int| 0 <= j < a - 1 implies stripped(k, #[trigger] t[j]) by {
            assert(t[j] == s[j + 1]);
        }
        if a < s.len() {
            assert(t[a - 1] == s[a]);
        }
        lemma_strip_start(t, k, a - 1);
        assert(t.subrange(a - 1, t.len() as int) =~= s.subrange(a, s.len() as int));
    }
}

proof fn lemma_strip_end(s: Seq<char>, k: Strip, b: int)
    requires
        0 <= b <= s.len(),
        forall|j: int| b <= j < s.len() ==> stripped(k, #[trigger] s[j]),
        b == 0 || !stripped(k, s[b - 1]),
    ensures
        strip_end(s, k) == s.subrange(0, b),
    decreases s.len() - b,
{
    if b == s.len() {
        assert(s.subrange(0, b) =~= s);
    } else {
        assert(stripped(k, s.last()));
        let t = s.drop_last();
        assert forall|j: int| b <= j < t.len() implies stripped(k, #[trigger] t[j]) by {
            assert(t[j] == s[j]);
        }
        lemma_strip_end(t, k, b);
        assert(t.subrange(0, b) =~= s.subrange(0, b));
    }
}

/// `s` without the characters of kind `k` at either end.
pub fn strip(s: &str, k: Strip) -> (r: String)
    ensures
        r@ == strip_both(s@, k),
{
    let n = s.unicode_len();
    let mut a: usize = 0;
    while a < n && is_stripped(k, s.get_char(a))
        invariant
            n == s@.len(),
            a <= n,
            forall|j: int| 0 <= j < a ==> stripped(k, #[trigger] s@[j]),
        decreases n - a,
    {
        a = a + 1;
    }
    proof {
        lemma_strip_start(s@, k, a as int);
    }
    let ghost t = s@.subrange(a as int, n as int);
    let mut b: usize = n;
    while b > a && is_stripped(k, s.get_char(b - 1))
        invariant
            n == s@.len(),
            a <= b <= n,
            t == s@.subrange(a as int, n as int),
            forall|j: int| b <= j < n ==> stripped(k, #[trigger] s@[j]),
        decreases b,
    {
        b = b - 1;
    }
    proof {
        assert forall|j: int| b - a <= j < t.len() implies stripped(k, #[trigger] t[j]) by {
            assert(t[j] == s@[j + a]);
        }
        if b > a {
            assert(t[b - a - 1] == s@[b - 1]);
        }
        lemma_strip_end(t, k, b - a);
        assert(t.subrange(0, b - a) =~= s@.subrange(a as int, b as int));
    }
    String::from_str(s.substring_char(a, b))
}

/// The trailing run of non-space characters of `t`.
pub open spec fn trailing_word(t: Seq<char>) -> Seq<char>
    decreases t.len(),
{
    if t.len() == 0 || is_space(t.last()) {
        Seq::empty()
    } else {
        trailing_word(t.drop_last()).push(t.last())
    }
}

/// The last whitespace-separated word of `s`, or nothing where it has none.
pub open spec fn last_word(s: Seq<char>) -> Seq<char> {
    trailing_word(strip_end(s, Strip::Space))
}

proof fn lemma_trailing_word(s: Seq<char>, c: int, b: int)
    requires
        0 <= c <= b <= s.len(),
        forall|j: int| c <= j < b ==> !is_space(#[trigger] s[j]),
        c == 0 || is_space(s[c - 1]),
    ensures
        trailing_word(s.subrange(0, b)) == s.subrange(c, b),
    decreases b - c,
{
    let t = s.subrange(0, b);
    if b == c {
        if c > 0 {
            assert(t.last() == s[c - 1]);
        }
        assert(s.subrange(c, b) =~= Seq::<char>::empty());
    } else {
        assert(t.last() == s[b - 1]);
        assert(t.drop_last() =~= s.subrange(0, b - 1));
        lemma_trailing_word(s, c, b - 1);
        assert(s.subrange(c, b - 1).push(s[b - 1]) =~= s.subrange(c, b));
    }
}

/// The last whitespace-separated word of `s`, or an empty string.
pub fn last_whitespace_word(s: &str) -> (r: String)
    ensures
        r@ == last_word(s@),
{
    let n = s.unicode_len();
    let mut b: usize = n;
    while b > 0 && is_stripped(Strip::Space, s.get_char(b - 1))
        invariant
            n == s@.len(),
            b <= n,
            forall|j: int| b <= j < n ==> stripped(Strip::Space, #[trigger] s@[j]),
        decreases b,
    {
        b = b - 1;
    }
    proof {
        lemma_strip_end(s@, Strip::Space, b as int);
    }
    let mut c: usize = b;
    while c > 0 && !is_stripped(Strip::Space, s.get_char(c - 1))
        invariant
            n == s@.len(),
            c <= b <= n,
            forall|j: int| c <= j < b ==> !is_space(#[trigger] s@[j]),
        decreases c,
    {
        c = c - 1;
    }
    proof {
        lemma_trailing_word(s@, c as int, b as int);
    }
    String::from_str(s.substring_char(c, b))
}

/// The last position of `ch` in `s`, or -1.
pub open spec fn last_index_of(s: Seq<char>, ch: char) -> int
    decreases s.len(),
{
    if s.len() == 0 {
        -1
    } else if s.last() == ch {
        s.len() - 1
    } else {
        last_index_of(s.drop_last(), ch)
    }
}

fn rfind_char(s: &str, ch: char) -> (r: Option<usize>)
    ensures
        match r {
            Some(i) => last_index_of(s@, ch) == i && i < s@.len(),
            None => last_index_of(s@, ch) == -1,
        },
{
    let n = s.unicode_len();
    let mut i: usize = n;
    assert(s@.subrange(0, n as int) =~= s@);
    while i > 0
        invariant
            n == s@.len(),
            i <= n,
            last_index_of(s@, ch) == last_index_of(s@.subrange(0, i as int), ch),
        decreases i,
    {
        let ghost p = s@.subrange(0, i as int);
        assert(p.drop_last() =~= s@.subrange(0, i - 1));
        if s.get_char(i - 1) == ch {
            return Some(i - 1);
        }
        i = i - 1;
    }
    None
}

/// A device name without its trailing bracketed item: where the name holds
/// both a `[` and a `]`, what precedes the last `[`, trimmed.
pub open spec fn clean_device_name(d: Seq<char>) -> Seq<char> {
    if last_index_of(d, '[') >= 0 && last_index_of(d, ']') >= 0 {
        strip_both(d.subrange(0, last_index_of(d, '[')), Strip::Space)
    } else {
        d
    }
}

/// The vendor id in a vendor field such as `Intel Corporation [8086]`: its
/// last word without the non-hexadecimal characters at its ends.
pub open spec fn vendor_id_of(vendor_name: Seq<char>) -> Seq<char> {
    strip_both(last_word(vendor_name), Strip::NonHex)
}

/// A PCI listing line's fields as the capture groups give them: address,
/// vendor id and cleaned device name.
pub open spec fn pci_fields(caps: Seq<Seq<char>>) -> Option<(Seq<char>, Seq<char>, Seq<char>)> {
    if caps.len() >= 3 {
        Some((caps[0], vendor_id_of(caps[1]), clean_device_name(caps[2])))
    } else {
        None
    }
}

pub open spec fn strings_view(v: Seq<String>) -> Seq<Seq<char>> {
    v.map_values(|s: String| s@)
}

pub open spec fn triple_view(t: (String, String, String)) -> (Seq<char>, Seq<char>, Seq<char>) {
    (t.0@, t.1@, t.2@)
}

/// The fields of a PCI listing line from its capture groups: address,
/// vendor name and device name, in that order.
pub fn pci_device_from_captures(caps: &Vec<String>) -> (r: Option<(String, String, String)>)
    ensures
        match r {
            Some(t) => pci_fields(strings_view(caps@)) == Some(triple_view(t)),
            None => pci_fields(strings_view(caps@)) is None,
        },
{
    if caps.len() < 3 {
        return None;
    }
    let ghost c = strings_view(caps@);
    assert(c[0] == caps@[0]@ && c[1] == caps@[1]@ && c[2] == caps@[2]@);
    let device = caps[2].as_str();
    let mut device_name = caps[2].clone();
    let start = rfind_char(device, '[');
    let close = rfind_char(device, ']');
    if let Some(st) = start {
        if close.is_some() {
            device_name = strip(device.substring_char(0, st), Strip::Space);
        }
    }
    let word = last_whitespace_word(caps[1].as_str());
    let vendor_id = strip(word.as_str(), Strip::NonHex);
    Some((caps[0].clone(), vendor_id, device_name))
}

/// The listing pattern: address, class, vendor and device fields.
pub const PCI_LINE_PATTERN: &'static str = "(?P<pci_addr>[0-9a-fA-F]{1,2}:[0-9a-fA-F]{2}\\.[0-9]) \"[^\"]+\" \"(?P<vendor_name>[^\"]+)\" \"(?P<device_name>[^\"]+)";

/// The capture groups of the leftmost-first match of a pattern in a text,
/// group 1 onward, a group that took part in no match as an empty string;
/// nothing where the pattern does not compile or does not match.
pub uninterp spec fn first_captures_of(pattern: Seq<char>, text: Seq<char>) -> Option<
    Seq<Seq<char>>,
>;

/// Relies on `regex::Regex::new` and `Regex::captures`: the leftmost-first
/// match and its groups, which depend on the pattern and the text alone.
#[verifier::external_body]
fn first_captures(pattern: &str, text: &str) -> (r: Option<Vec<String>>)
    ensures
        match r {
            Some(v) => first_captures_of(pattern@, text@) == Some(strings_view(v@)),
            None => first_captures_of(pattern@, text@) is None,
        },
{
    let re = regex::Regex::new(pattern).ok()?;
    let caps = re.captures(text)?;
    Some(caps.iter().skip(1).map(|m| m.map_or(String::new(), |m| m.as_str().to_string())).collect())
}

/// Reads a line of the machine-readable PCI listing: address, vendor id and
/// device name.
pub fn parse_pci_device(line: &str) -> (r: Option<(String, String, String)>)
    ensures
        match first_captures_of(PCI_LINE_PATTERN@, line@) {
            Some(caps) => match r {
                Some(t) => pci_fields(caps) == Some(triple_view(t)),
                None => pci_fields(caps) is None,
            },
            None => r is None,
        },
{
    match first_captures(PCI_LINE_PATTERN, line) {
        Some(caps) => pci_device_from_captures(&caps),
        None => None,
    }
}

/// The device paths among the names of a device's DRM directory: the last
/// `card*` and `renderD*` names before both are known, under `/dev/dri/`.
pub open spec fn dri_paths(names: Seq<Seq<char>>) -> (Seq<char>, Seq<char>)
    decreases names.len(),
{
    if names.len() == 0 {
        (Seq::empty(), Seq::empty())
    } else {
        let prev = dri_paths(names.drop_last());
        if prev.0.len() > 0 && prev.1.len() > 0 {
            prev
        } else {
            let n = names.last();
            let card = if seq_starts_with(n, "card"@) {
                "/dev/dri/"@ + n
            } else {
                prev.0
            };
            let render = if seq_starts_with(n, "renderD"@) {
                "/dev/dri/"@ + n
            } else {
                prev.1
            };
            (card, render)
        }
    }
}

proof fn lemma_dri_paths_settled(names: Seq<Seq<char>>, i: int)
    requires
        0 <= i <= names.len(),
        dri_paths(names.take(i)).0.len() > 0,
        dri_paths(names.take(i)).1.len() > 0,
    ensures
        dri_paths(names) == dri_paths(names.take(i)),
    decreases names.len() - i,
{
    if i == names.len() {
        assert(names.take(i) =~= names);
    } else {
        let p = names.drop_last();
        assert(p.take(i) =~= names.take(i));
        lemma_dri_paths_settled(p, i);
    }
}

/// The card and render device paths from the names in a device's DRM directory.
pub fn dri_paths_from_names(names: &Vec<String>) -> (r: (String, String))
    ensures
        (r.0@, r.1@) == dri_paths(strings_view(names@)),
{
    proof {
        reveal_strlit("/dev/dri/");
    }
    let ghost all = strings_view(names@);
    let mut card = String::new();
    let mut render = String::new();
    let mut i: usize = 0;
    while i < names.len()
        invariant
            i <= names.len(),
            all == strings_view(names@),
            "/dev/dri/"@.len() == 9,
            (card@, render@) == dri_paths(all.take(i as int)),
        decreases names.len() - i,
    {
        let ghost prefix = all.take(i + 1);
        assert(prefix.drop_last() =~= all.take(i as int));
        assert(prefix.last() == names@[i as int]@);
        if card.unicode_len() > 0 && render.unicode_len() > 0 {
            proof {
                lemma_dri_paths_settled(all, i as int);
            }
            return (card, render);
        }
        let name = names[i].as_str();
        if starts_with(name, "card") {
            let mut p = String::from_str("/dev/dri/");
            p.append(name);
            card = p;
        }
        if starts_with(name, "renderD") {
            let mut p = String::from_str("/dev/dri/");
            p.append(name);
            render = p;
        }
        i = i + 1;
    }
    assert(all.take(i as int) =~= all);
    (card, render)
}

/// What a device description holds, as mathematical values.
pub struct GpuView {
    pub vendor: GPUVendor,
    pub card_path: Seq<char>,
    pub render_path: Seq<char>,
    pub device_name: Seq<char>,
}

impl View for GPUInfo {
    type V = GpuView;

    closed spec fn view(&self) -> GpuView {
        GpuView {
            vendor: self.vendor,
            card_path: self.card_path@,
            render_path: self.render_path@,
            device_name: self.device_name@,
        }
    }
}

pub open spec fn gpus_view(v: Seq<GPUInfo>) -> Seq<GpuView> {
    v.map_values(|g: GPUInfo| g@)
}

/// Whether a device passes the vendor and name filters; an empty filter
/// passes every device, and a filter matches by lowercased substring.
pub open spec fn passes_filters(g: GpuView, vendor: Seq<char>, name: Seq<char>) -> bool {
    (vendor.len() == 0 || seq_contains(lower_of(vendor_label(g.vendor)), lower_of(vendor))) && (
    name.len() == 0 || seq_contains(lower_of(g.device_name), lower_of(name)))
}

pub open spec fn filter_gpus(s: Seq<GpuView>, vendor: Seq<char>, name: Seq<char>) -> Seq<GpuView>
    decreases s.len(),
{
    if s.len() == 0 {
        s
    } else if passes_filters(s.last(), vendor, name) {
        filter_gpus(s.drop_last(), vendor, name).push(s.last())
    } else {
        filter_gpus(s.drop_last(), vendor, name)
    }
}

/// The first device whose card or render path is `path`.
pub open spec fn find_by_path(s: Seq<GpuView>, path: Seq<char>) -> Option<GpuView>
    decreases s.len(),
{
    if s.len() == 0 {
        None
    } else if s[0].card_path == path || s[0].render_path == path {
        Some(s[0])
    } else {
        find_by_path(s.drop_first(), path)
    }
}

/// The device that the selection arguments pick: by path where one is
/// given, else the `index`-th of those passing the vendor and name filters.
pub open spec fn selected_gpu(
    s: Seq<GpuView>,
    vendor: Seq<char>,
    name: Seq<char>,
    index: nat,
    card_path: Seq<char>,
) -> Option<GpuView> {
    if card_path.len() > 0 {
        find_by_path(s, card_path)
    } else {
        let f = filter_gpus(s, vendor, name);
        if index < f.len() {
            Some(f[index as int])
        } else {
            None
        }
    }
}

fn gpu_passes(g: &GPUInfo, vendor: &str, name: &str) -> (r: bool)
    ensures
        r == passes_filters(g@, vendor@, name@),
{
    let vendor_ok = if vendor.unicode_len() == 0 {
        true
    } else {
        let have = to_lower(g.vendor_string());
        let want = to_lower(vendor);
        contains(have.as_str(), want.as_str())
    };
    let name_ok = if name.unicode_len() == 0 {
        true
    } else {
        let have = to_lower(g.device_name.as_str());
        let want = to_lower(name);
        contains(have.as_str(), want.as_str())
    };
    vendor_ok && name_ok
}

/// Picks the device to stream from: the one with the given card or render
/// path where `card_path` is not empty, else the `index`-th device (from 0)
/// among those whose vendor and name contain the given filters, ignoring case.
pub fn select_gpu(
    gpus: &Vec<GPUInfo>,
    vendor: &str,
    name: &str,
    index: u32,
    card_path: &str,
) -> (r: Option<GPUInfo>)
    ensures
        match r {
            Some(g) => selected_gpu(gpus_view(gpus@), vendor@, name@, index as nat, card_path@)
                == Some(g@),
            None => selected_gpu(gpus_view(gpus@), vendor@, name@, index as nat, card_path@) is None,
        },
{
    let ghost s = gpus_view(gpus@);
    if card_path.unicode_len() > 0 {
        let mut i: usize = 0;
        assert(s.subrange(0, s.len() as int) =~= s);
        while i < gpus.len()
            invariant
                i <= gpus.len(),
                s == gpus_view(gpus@),
                card_path@.len() > 0,
                find_by_path(s, card_path@) == find_by_path(s.subrange(i as int, s.len() as int), card_path@),
            decreases gpus.len() - i,
        {
            let ghost rest = s.subrange(i as int, s.len() as int);
            assert(rest.drop_first() =~= s.subrange(i + 1, s.len() as int));
            assert(rest[0] == gpus@[i as int]@);
            if str_eq(gpus[i].card_path.as_str(), card_path) || str_eq(
                gpus[i].render_path.as_str(),
                card_path,
            ) {
                return Some(gpus[i].duplicate());
            }
            i = i + 1;
        }
        return None;
    }
    let mut seen: u64 = 0;
    let mut i: usize = 0;
    while i < gpus.len()
        invariant
            i <= gpus.len(),
            s == gpus_view(gpus@),
            card_path@.len() == 0,
            seen == filter_gpus(s.take(i as int), vendor@, name@).len(),
            seen <= i,
            seen <= index,
            forall|k: int| 0 <= k < seen ==> #[trigger] filter_gpus(s.take(i as int), vendor@, name@)[k]
                == filter_gpus(s, vendor@, name@)[k],
            filter_gpus(s.take(i as int), vendor@, name@).len() <= filter_gpus(s, vendor@, name@).len(),
        decreases gpus.len() - i,
    {
        let ghost prefix = s.take(i + 1);
        assert(prefix.drop_last() =~= s.take(i as int));
        assert(prefix.last() == gpus@[i as int]@);
        proof {
            lemma_filter_prefix(s, i + 1, vendor@, name@);
        }
        if gpu_passes(&gpus[i], vendor, name) {
            if seen == index as u64 {
                let g = gpus[i].duplicate();
                assert(filter_gpus(prefix, vendor@, name@)[seen as int] == g@);
                return Some(g);
            }
            seen = seen + 1;
        }
        i = i + 1;
    }
    assert(s.take(i as int) =~= s);
    None
}

/// Filtering a prefix gives a prefix of the filtered whole.
proof fn lemma_filter_prefix(s: Seq<GpuView>, i: int, vendor: Seq<char>, name: Seq<char>)
    requires
        0 <= i <= s.len(),
    ensures
        filter_gpus(s.take(i), vendor, name).len() <= filter_gpus(s, vendor, name).len(),
        forall|k: int| 0 <= k < filter_gpus(s.take(i), vendor, name).len() ==> #[trigger] filter_gpus(
            s.take(i),
            vendor,
            name,
        )[k] == filter_gpus(s, vendor, name)[k],
    decreases s.len() - i,
{
    if i == s.len() {
        assert(s.take(i) =~= s);
    } else {
        let p = s.drop_last();
        assert(p.take(i) =~= s.take(i));
        lemma_filter_prefix(p, i, vendor, name);
    }
}

} // verus!
