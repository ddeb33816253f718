//! Codec implementation names, their normal form and hardware hints; codec
//! descriptors and the residencies a codec takes and produces; the parsing
//! of codec kinds; implementation preferences and the registry's
//! configuration.
use vstd::prelude::*;

use crate::format::{is_compressed_code, FourCc};
use crate::meta::FrameResidency;
use crate::raw::CodecKind;
use vstd::string::StringExecFns;

verus! {

/// Unicode `White_Space` characters.
pub open spec fn is_white_space(c: char) -> bool {
    let v = c as u32;
    ||| 0x09 <= v <= 0x0D
    ||| v == 0x20
    ||| v == 0x85
    ||| v == 0xA0
    ||| v == 0x1680
    ||| 0x2000 <= v <= 0x200A
    ||| v == 0x2028
    ||| v == 0x2029
    ||| v == 0x202F
    ||| v == 0x205F
    ||| v == 0x3000
}

/// `s` without its leading white space.
pub open spec fn trim_start_spec(s: Seq<char>) -> Seq<char>
    decreases s.len(),
{
    if s.len() > 0 && is_white_space(s[0]) {
        trim_start_spec(s.drop_first())
    } else {
        s
    }
}

/// `s` without its trailing white space.
pub open spec fn trim_end_spec(s: Seq<char>) -> Seq<char>
    decreases s.len(),
{
    if s.len() > 0 && is_white_space(s.last()) {
        trim_end_spec(s.drop_last())
    } else {
        s
    }
}

/// `s` without leading and trailing white space.
pub open spec fn trimmed(s: Seq<char>) -> Seq<char> {
    trim_end_spec(trim_start_spec(s))
}

/// `c` with ASCII upper case letters made lower case.
pub open spec fn ascii_lower(c: char) -> char {
    if 'A' <= c <= 'Z' {
        ((c as u32) + 32) as char
    } else {
        c
    }
}

/// `s` with ASCII upper case letters made lower case.
pub open spec fn lower_chars(s: Seq<char>) -> Seq<char> {
    s.map_values(|c: char| ascii_lower(c))
}

/// The normal form of an implementation name: trimmed, ASCII lower case.
pub open spec fn normalized(s: Seq<char>) -> Seq<char> {
    lower_chars(trimmed(s))
}

/// Calls `str::trim`, which the standard library documents as returning
/// the string without leading and trailing white space, white space being
/// the characters of the Unicode `White_Space` property.
#[verifier::external_body]
fn trim_str(s: &str) -> (r: &str)
    ensures
        r@ == trimmed(s@),
{
    s.trim()
}

/// Calls `str::to_ascii_lowercase`, which the standard library documents
/// as mapping `A` to `Z` to `a` to `z` and leaving every other character
/// unchanged.
#[verifier::external_body]
pub(crate) fn ascii_lowercase(s: &str) -> (r: String)
    ensures
        r@ == lower_chars(s@),
{
    s.to_ascii_lowercase()
}

/// The characters of `s`.
pub fn chars_of(s: &str) -> (r: Vec<char>)
    ensures
        r@ == s@,
{
    let mut out: Vec<char> = Vec::new();
    for c in it: s.chars()
        invariant
            it.seq() == s@,
            out@ == it.seq().take(it.index() as int),
    {
        out.push(c);
    }
    out
}

/// Whether two strings hold the same characters.
pub fn str_eq(a: &str, b: &str) -> (r: bool)
    ensures
        r == (a@ == b@),
{
    let x = chars_of(a);
    let y = chars_of(b);
    if x.len() != y.len() {
        return false;
    }
    let mut i: usize = 0;
    while i < x.len()
        invariant
            x@ == a@,
            y@ == b@,
            x@.len() == y@.len(),
            i <= x@.len(),
            forall|k: int| 0 <= k < i ==> x@[k] == y@[k],
        decreases x@.len() - i,
    {
        if x[i] != y[i] {
            return false;
        }
        i = i + 1;
    }
    assert(x@ =~= y@);
    true
}

/// `needle` occurs in `hay` at `at`.
pub open spec fn occurs_at(hay: Seq<char>, needle: Seq<char>, at: int) -> bool {
    0 <= at && at + needle.len() <= hay.len() && hay.subrange(at, at + needle.len()) == needle
}

/// `needle` occurs somewhere in `hay`.
pub open spec fn occurs_in(hay: Seq<char>, needle: Seq<char>) -> bool {
    exists|at: int| occurs_at(hay, needle, at)
}

fn occurs_at_exec(hay: &Vec<char>, needle: &Vec<char>, at: usize) -> (r: bool)
    requires
        at + needle@.len() <= hay@.len(),
    ensures
        r == occurs_at(hay@, needle@, at as int),
{
    let hl = hay.len();
    let mut i: usize = 0;
    while i < needle.len()
        invariant
            hl == hay@.len(),
            i <= needle@.len(),
            at + needle@.len() <= hay@.len(),
            forall|k: int| 0 <= k < i ==> hay@[at + k] == needle@[k],
        decreases needle@.len() - i,
    {
        if hay[at + i] != needle[i] {
            assert(hay@.subrange(at as int, at + needle@.len())[i as int] != needle@[i as int]);
            return false;
        }
        i = i + 1;
    }
    assert(hay@.subrange(at as int, at + needle@.len()) =~= needle@);
    true
}

/// Whether `needle` occurs in `hay`.
pub fn contains_chars(hay: &Vec<char>, needle: &Vec<char>) -> (r: bool)
    ensures
        r == occurs_in(hay@, needle@),
{
    if needle.len() > hay.len() {
        return false;
    }
    if needle.len() == 0 {
        assert(hay@.subrange(0, 0) =~= needle@);
        assert(occurs_at(hay@, needle@, 0));
        return true;
    }
    let hl = hay.len();
    let last = hl - needle.len();
    let mut at: usize = 0;
    while at <= last
        invariant
            hl == hay@.len(),
            needle@.len() > 0,
            last == hay@.len() - needle@.len(),
            at <= last + 1,
            forall|k: int| 0 <= k < at ==> !occurs_at(hay@, needle@, k),
        decreases last + 1 - at,
    {
        if occurs_at_exec(hay, needle, at) {
            return true;
        }
        at = at + 1;
    }
    false
}

/// Name fragments that mark a hardware codec.
pub open spec fn hardware_tokens() -> Seq<Seq<char>> {
    seq!["vaapi"@, "nvenc"@, "nvdec"@, "cuvid"@, "qsv"@, "v4l2"@, "videotoolbox"@, "v4l2m2m"@]
}

/// A name marks a hardware codec: one of the hardware fragments occurs in
/// its ASCII lower case form.
pub open spec fn is_hardware_name(s: Seq<char>) -> bool {
    exists|i: int| 0 <= i < hardware_tokens().len() && occurs_in(lower_chars(s), #[trigger] hardware_tokens()[i])
}

/// A name is a hardware name exactly when its ASCII lower case form
/// contains `vaapi`, `nvenc`, `nvdec`, `cuvid`, `qsv`, `v4l2`,
/// `videotoolbox` or `v4l2m2m`.
pub proof fn lemma_hardware_name_fragments(s: Seq<char>)
    ensures
        is_hardware_name(s) <==> ({
            let l = lower_chars(s);
            ||| occurs_in(l, "vaapi"@)
            ||| occurs_in(l, "nvenc"@)
            ||| occurs_in(l, "nvdec"@)
            ||| occurs_in(l, "cuvid"@)
            ||| occurs_in(l, "qsv"@)
            ||| occurs_in(l, "v4l2"@)
            ||| occurs_in(l, "videotoolbox"@)
            ||| occurs_in(l, "v4l2m2m"@)
        }),
{
    let t = hardware_tokens();
    let l = lower_chars(s);
    assert(t.len() == 8);
    assert(t[0] == "vaapi"@ && t[1] == "nvenc"@ && t[2] == "nvdec"@ && t[3] == "cuvid"@);
    assert(t[4] == "qsv"@ && t[5] == "v4l2"@ && t[6] == "videotoolbox"@ && t[7] == "v4l2m2m"@);
    if occurs_in(l, "vaapi"@) {
        assert(occurs_in(l, t[0]));
    }
    if occurs_in(l, "nvenc"@) {
        assert(occurs_in(l, t[1]));
    }
    if occurs_in(l, "nvdec"@) {
        assert(occurs_in(l, t[2]));
    }
    if occurs_in(l, "cuvid"@) {
        assert(occurs_in(l, t[3]));
    }
    if occurs_in(l, "qsv"@) {
        assert(occurs_in(l, t[4]));
    }
    if occurs_in(l, "v4l2"@) {
        assert(occurs_in(l, t[5]));
    }
    if occurs_in(l, "videotoolbox"@) {
        assert(occurs_in(l, t[6]));
    }
    if occurs_in(l, "v4l2m2m"@) {
        assert(occurs_in(l, t[7]));
    }
}

/// Whether a codec or implementation name marks hardware acceleration
/// (VA-API, NVENC/NVDEC, CUVID, Quick Sync, V4L2, VideoToolbox).
pub fn is_hardware_implementation_name(value: &str) -> (r: bool)
    ensures
        r == is_hardware_name(value@),
{
    let lower = ascii_lowercase(value);
    let hay = chars_of(lower.as_str());
    let tokens: Vec<&str> = vec!["vaapi", "nvenc", "nvdec", "cuvid", "qsv", "v4l2", "videotoolbox", "v4l2m2m"];
    let ghost spec_tokens = hardware_tokens();
    assert(tokens@.len() == spec_tokens.len());
    assert(forall|k: int| 0 <= k < tokens@.len() ==> #[trigger] tokens@[k]@ == spec_tokens[k]);
    let mut i: usize = 0;
    while i < tokens.len()
        invariant
            i <= tokens@.len(),
            tokens@.len() == spec_tokens.len(),
            spec_tokens == hardware_tokens(),
            forall|k: int| 0 <= k < tokens@.len() ==> #[trigger] tokens@[k]@ == spec_tokens[k],
            hay@ == lower_chars(value@),
            forall|k: int| 0 <= k < i ==> !occurs_in(hay@, #[trigger] spec_tokens[k]),
        decreases tokens@.len() - i,
    {
        let token = chars_of(tokens[i]);
        if contains_chars(&hay, &token) {
            return true;
        }
        i = i + 1;
    }
    false
}

/// A codec implementation name in normal form: trimmed, ASCII lower case.
#[derive(Debug, Clone, PartialEq, Eq, PartialOrd, Ord, Hash)]
pub struct CodecImplementationId {
    value: String,
}

impl View for CodecImplementationId {
    type V = Seq<char>;

    closed spec fn view(&self) -> Seq<char> {
        self.value@
    }
}

impl CodecImplementationId {
    /// The normal form of `value`.
    pub fn new(value: &str) -> (r: Self)
        ensures
            r@ == normalized(value@),
    {
        CodecImplementationId { value: ascii_lowercase(trim_str(value)) }
    }

    fn named(value: &str) -> (r: Self)
        ensures
            r@ == value@,
    {
        CodecImplementationId { value: String::from_str(value) }
    }

    /// The FFmpeg implementation.
    pub fn ffmpeg() -> (r: Self)
        ensures
            r@ == "ffmpeg"@,
    {
        Self::named("ffmpeg")
    }

    /// The `jpeg-decoder` implementation.
    pub fn jpeg_decoder() -> (r: Self)
        ensures
            r@ == "jpeg-decoder"@,
    {
        Self::named("jpeg-decoder")
    }

    /// The mozjpeg implementation.
    pub fn mozjpeg() -> (r: Self)
        ensures
            r@ == "mozjpeg"@,
    {
        Self::named("mozjpeg")
    }

    /// The pass-through implementation.
    pub fn passthrough() -> (r: Self)
        ensures
            r@ == "passthrough"@,
    {
        Self::named("passthrough")
    }

    /// The libjpeg-turbo implementation.
    pub fn turbojpeg() -> (r: Self)
        ensures
            r@ == "turbojpeg"@,
    {
        Self::named("turbojpeg")
    }

    /// The zune-jpeg implementation.
    pub fn zune_jpeg() -> (r: Self)
        ensures
            r@ == "zune-jpeg"@,
    {
        Self::named("zune-jpeg")
    }

    /// The name.
    pub fn as_str(&self) -> (r: &str)
        ensures
            r@ == self@,
    {
        self.value.as_str()
    }

    /// Whether the name marks hardware acceleration.
    pub fn is_hardware_accelerated(&self) -> (r: bool)
        ensures
            r == is_hardware_name(self@),
    {
        is_hardware_implementation_name(self.value.as_str())
    }

    /// The same name.
    pub fn duplicate(&self) -> (r: Self)
        ensures
            r@ == self@,
    {
        CodecImplementationId { value: self.value.clone() }
    }

    /// Whether both are the same name.
    pub fn same_as(&self, other: &Self) -> (r: bool)
        ensures
            r == (self@ == other@),
    {
        str_eq(self.value.as_str(), other.value.as_str())
    }
}

/// What a codec converts from and to, and under which names.
#[derive(Debug, Clone, Copy)]
pub struct CodecDescriptor {
    pub kind: CodecKind,
    pub input: FourCc,
    pub output: FourCc,
    pub name: &'static str,
    pub impl_name: &'static str,
}

impl CodecDescriptor {
    /// The normal form of the implementation name.
    pub fn implementation_id(&self) -> (r: CodecImplementationId)
        ensures
            r@ == normalized(self.impl_name@),
    {
        CodecImplementationId::new(self.impl_name)
    }

    /// Whether the implementation or codec name marks hardware
    /// acceleration.
    pub fn is_hardware_accelerated(&self) -> (r: bool)
        ensures
            r == (is_hardware_name(normalized(self.impl_name@)) || is_hardware_name(self.name@)),
    {
        self.implementation_id().is_hardware_accelerated() || is_hardware_implementation_name(self.name)
    }
}

/// Where a codec takes its input frames and where its output frames may live.
#[derive(Debug, Clone)]
pub struct CodecResidencyCapabilities {
    pub accepted_inputs: Vec<FrameResidency>,
    pub possible_outputs: Vec<FrameResidency>,
    pub preserves_input_residency: bool,
}

/// Host memory, owned or borrowed, or a DMA buffer.
pub open spec fn host_or_dma() -> Seq<FrameResidency> {
    seq![FrameResidency::HostOwned, FrameResidency::HostExternal, FrameResidency::Dmabuf]
}

/// The input residencies of a codec of this descriptor: a decoder of
/// compressed packets also takes packets, ahead of the host and DMA
/// residencies that every codec takes.
pub open spec fn accepted_inputs_of(d: CodecDescriptor) -> Seq<FrameResidency> {
    if d.kind == CodecKind::Decoder && is_compressed_code(d.input) {
        seq![FrameResidency::CompressedPacket] + host_or_dma()
    } else {
        host_or_dma()
    }
}

/// The output residencies of a codec of this descriptor: a decoder's may
/// be host or DMA memory; an encoder's are packets where it compresses,
/// else owned host memory.
pub open spec fn possible_outputs_of(d: CodecDescriptor) -> Seq<FrameResidency> {
    if d.kind == CodecKind::Decoder {
        host_or_dma()
    } else if is_compressed_code(d.output) {
        seq![FrameResidency::CompressedPacket]
    } else {
        seq![FrameResidency::HostOwned]
    }
}

fn host_or_dma_list() -> (r: Vec<FrameResidency>)
    ensures
        r@ == host_or_dma(),
{
    let mut v: Vec<FrameResidency> = Vec::new();
    v.push(FrameResidency::HostOwned);
    v.push(FrameResidency::HostExternal);
    v.push(FrameResidency::Dmabuf);
    assert(v@ =~= host_or_dma());
    v
}

impl CodecDescriptor {
    /// The residencies a codec of this descriptor takes and produces; no
    /// codec keeps its input's residency.
    pub fn residency_capabilities(&self) -> (r: CodecResidencyCapabilities)
        ensures
            r.accepted_inputs@ == accepted_inputs_of(*self),
            r.possible_outputs@ == possible_outputs_of(*self),
            !r.preserves_input_residency,
    {
        match self.kind {
            CodecKind::Decoder => {
                let mut inputs: Vec<FrameResidency> = Vec::new();
                if self.input.is_compressed() {
                    inputs.push(FrameResidency::CompressedPacket);
                }
                let mut rest = host_or_dma_list();
                inputs.append(&mut rest);
                proof {
                    if is_compressed_code(self.input) {
                        assert(inputs@ =~= seq![FrameResidency::CompressedPacket] + host_or_dma());
                    } else {
                        assert(inputs@ =~= host_or_dma());
                    }
                }
                CodecResidencyCapabilities {
                    accepted_inputs: inputs,
                    possible_outputs: host_or_dma_list(),
                    preserves_input_residency: false,
                }
            },
            CodecKind::Encoder => {
                let mut outputs: Vec<FrameResidency> = Vec::new();
                if self.output.is_compressed() {
                    outputs.push(FrameResidency::CompressedPacket);
                } else {
                    outputs.push(FrameResidency::HostOwned);
                }
                proof {
                    if is_compressed_code(self.output) {
                        assert(outputs@ =~= seq![FrameResidency::CompressedPacket]);
                    } else {
                        assert(outputs@ =~= seq![FrameResidency::HostOwned]);
                    }
                }
                CodecResidencyCapabilities {
                    accepted_inputs: host_or_dma_list(),
                    possible_outputs: outputs,
                    preserves_input_residency: false,
                }
            },
        }
    }
}

/// A string that names no codec kind.
#[derive(Debug, Clone, PartialEq, Eq)]
pub struct CodecKindParseError {
    pub value: String,
}

impl CodecKindParseError {
    /// The error's message.
    pub fn message(&self) -> (r: String)
        ensures
            r@ == "unknown codec kind '"@ + self.value@ + "'"@,
    {
        String::from_str("unknown codec kind '").concat(self.value.as_str()).concat("'")
    }
}

/// The codec kind a string names: `encoder` or `encode`, `decoder` or
/// `decode`, in any ASCII case and with surrounding white space.
pub open spec fn kind_named(s: Seq<char>) -> Option<CodecKind> {
    let n = normalized(s);
    if n == "encoder"@ || n == "encode"@ {
        Some(CodecKind::Encoder)
    } else if n == "decoder"@ || n == "decode"@ {
        Some(CodecKind::Decoder)
    } else {
        None
    }
}

/// Parse a codec kind from its stable API string.
pub fn parse_codec_kind(value: &str) -> (r: Result<CodecKind, CodecKindParseError>)
    ensures
        match kind_named(value@) {
            Some(k) => r == Ok::<CodecKind, CodecKindParseError>(k),
            None => r matches Err(e) && e.value@ == value@,
        },
{
    let lowered = ascii_lowercase(trim_str(value));
    let n = lowered.as_str();
    if str_eq(n, "encoder") || str_eq(n, "encode") {
        Ok(CodecKind::Encoder)
    } else if str_eq(n, "decoder") || str_eq(n, "decode") {
        Ok(CodecKind::Decoder)
    } else {
        Err(CodecKindParseError { value: String::from_str(value) })
    }
}

impl std::str::FromStr for CodecKind {
    type Err = CodecKindParseError;

    fn from_str(value: &str) -> (r: Result<Self, Self::Err>)
        ensures
            match kind_named(value@) {
                Some(k) => r == Ok::<CodecKind, CodecKindParseError>(k),
                None => r matches Err(e) && e.value@ == value@,
            },
    {
        parse_codec_kind(value)
    }
}

/// The normal forms of `names`, in order.
pub fn normalize_all(names: &[&str]) -> (r: Vec<CodecImplementationId>)
    ensures
        r@.len() == names@.len(),
        forall|i: int| 0 <= i < names@.len() ==> #[trigger] r@[i]@ == normalized(names@[i]@),
{
    let mut out: Vec<CodecImplementationId> = Vec::new();
    let mut i: usize = 0;
    while i < names.len()
        invariant
            i <= names@.len(),
            out@.len() == i,
            forall|k: int| 0 <= k < i ==> #[trigger] out@[k]@ == normalized(names@[k]@),
        decreases names@.len() - i,
    {
        out.push(CodecImplementationId::new(names[i]));
        i = i + 1;
    }
    out
}

/// Which implementations to try first for a code, and whether to prefer
/// hardware ones after them.
#[derive(Debug, Clone)]
pub struct Preference {
    pub impls: Vec<CodecImplementationId>,
    pub prefer_hardware: bool,
}

impl Preference {
    /// A hardware-biased preference for `impls`, in order, by normal form.
    pub fn hardware_biased(impls: &[&str]) -> (r: Preference)
        ensures
            r.prefer_hardware,
            r.impls@.len() == impls@.len(),
            forall|i: int| 0 <= i < impls@.len() ==> #[trigger] r.impls@[i]@ == normalized(impls@[i]@),
    {
        Preference { impls: normalize_all(impls), prefer_hardware: true }
    }
}

/// Limits on the frames the built-in codecs are sized for.
#[derive(Debug, Clone, Copy, PartialEq, Eq, Structural)]
pub struct CodecRegistryConfig {
    pub max_width: u32,
    pub max_height: u32,
}

/// Default largest frame width the built-in codecs are sized for.
pub const DEFAULT_CODEC_MAX_WIDTH: u32 = 1920;
/// Default largest frame height the built-in codecs are sized for.
pub const DEFAULT_CODEC_MAX_HEIGHT: u32 = 1080;

impl CodecRegistryConfig {
    /// Limits with each dimension at least one.
    pub fn new(max_width: u32, max_height: u32) -> (r: Self)
        ensures
            r.max_width == if max_width >= 1 { max_width } else { 1 },
            r.max_height == if max_height >= 1 { max_height } else { 1 },
    {
        CodecRegistryConfig {
            max_width: if max_width >= 1 { max_width } else { 1 },
            max_height: if max_height >= 1 { max_height } else { 1 },
        }
    }
}

impl Default for CodecRegistryConfig {
    fn default() -> (r: Self)
        ensures
            r.max_width == DEFAULT_CODEC_MAX_WIDTH,
            r.max_height == DEFAULT_CODEC_MAX_HEIGHT,
    {
        CodecRegistryConfig { max_width: DEFAULT_CODEC_MAX_WIDTH, max_height: DEFAULT_CODEC_MAX_HEIGHT }
    }
}

} // verus!
