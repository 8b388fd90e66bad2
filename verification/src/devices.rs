//! Render endpoints and the apps that play on them: what is listed, and what is accepted.

use crate::packet::SAMPLE_RATE;
use crate::route::{eq_ignore_ascii_case, same_ignoring_case};
use crate::text::{decimal, hexadecimal, push_decimal, push_hexadecimal};
use vstd::prelude::*;
use vstd::string::*;

verus! {

/// An app that plays audio.
#[derive(Clone, Debug, PartialEq, Eq)]
pub struct AudioAppInfo {
    pub process_id: u32,
    /// The name of its audio session, else the name of its executable.
    pub display_name: String,
    /// The name of its executable.
    pub binary: String,
}

/// An [`AudioAppInfo`] with its texts as characters.
#[verifier::ext_equal]
pub struct AppView {
    pub process_id: u32,
    pub display_name: Seq<char>,
    pub binary: Seq<char>,
}

impl View for AudioAppInfo {
    type V = AppView;

    open spec fn view(&self) -> AppView {
        AppView {
            process_id: self.process_id,
            display_name: self.display_name@,
            binary: self.binary@,
        }
    }
}

/// An active render endpoint.
#[derive(Clone, Debug, PartialEq, Eq)]
pub struct RenderEndpointInfo {
    pub id: String,
    /// Its friendly name, else its id.
    pub name: String,
    /// It is the default of the console role.
    pub is_default: bool,
}

/// The characters with the White_Space property.
pub open spec fn white(c: char) -> bool {
    ||| '\u{9}' <= c <= '\u{d}'
    ||| c == ' '
    ||| c == '\u{85}'
    ||| c == '\u{a0}'
    ||| c == '\u{1680}'
    ||| '\u{2000}' <= c <= '\u{200a}'
    ||| c == '\u{2028}'
    ||| c == '\u{2029}'
    ||| c == '\u{202f}'
    ||| c == '\u{205f}'
    ||| c == '\u{3000}'
}

fn is_white(c: char) -> (r: bool)
    ensures
        r == white(c),
{
    ('\u{9}' <= c && c <= '\u{d}') || c == ' ' || c == '\u{85}' || c == '\u{a0}' || c == '\u{1680}'
        || ('\u{2000}' <= c && c <= '\u{200a}') || c == '\u{2028}' || c == '\u{2029}' || c == '\u{202f}'
        || c == '\u{205f}' || c == '\u{3000}'
}

pub open spec fn without_leading(s: Seq<char>) -> Seq<char>
    decreases s.len(),
{
    if s.len() > 0 && white(s[0]) { without_leading(s.drop_first()) } else { s }
}

pub open spec fn without_trailing(s: Seq<char>) -> Seq<char>
    decreases s.len(),
{
    if s.len() > 0 && white(s.last()) { without_trailing(s.drop_last()) } else { s }
}

/// `s` without the white space at its ends.
pub open spec fn trimmed(s: Seq<char>) -> Seq<char> {
    without_trailing(without_leading(s))
}

fn copy_chars(s: &str, from: usize, to: usize) -> (r: String)
    requires
        from <= to <= s@.len(),
    ensures
        r@ == s@.subrange(from as int, to as int),
{
    let mut out: String = "".to_owned();
    let mut i: usize = from;
    proof {
        reveal_strlit("");
        assert(out@ =~= s@.subrange(from as int, from as int));
    }
    while i < to
        invariant
            from <= i <= to,
            to <= s@.len(),
            out@ == s@.subrange(from as int, i as int),
        decreases to - i,
    {
        out.push(s.get_char(i));
        assert(out@ =~= s@.subrange(from as int, i + 1));
        i = i + 1;
    }
    out
}

pub fn trim(s: &str) -> (r: String)
    ensures
        r@ == trimmed(s@),
{
    let n: usize = s.unicode_len();
    let mut from: usize = 0;
    proof {
        assert(s@.subrange(0, n as int) =~= s@);
    }
    while from < n && is_white(s.get_char(from))
        invariant
            from <= n,
            n == s@.len(),
            without_leading(s@.subrange(from as int, n as int)) == without_leading(s@),
        decreases n - from,
    {
        proof {
            assert(s@.subrange(from as int, n as int).drop_first() =~= s@.subrange(
                from + 1,
                n as int,
            ));
        }
        from = from + 1;
    }
    let ghost lead = s@.subrange(from as int, n as int);
    assert(lead == without_leading(s@));
    let mut to: usize = n;
    while to > from && is_white(s.get_char(to - 1))
        invariant
            from <= to <= n,
            n == s@.len(),
            without_trailing(s@.subrange(from as int, to as int)) == without_trailing(lead),
        decreases to,
    {
        proof {
            assert(s@.subrange(from as int, to as int).drop_last() =~= s@.subrange(
                from as int,
                to - 1,
            ));
        }
        to = to - 1;
    }
    copy_chars(s, from, to)
}

/// A session's name, where it is fit to be shown: an empty one, or a reference to a resource, is
/// none.
pub open spec fn shown_name(raw: Seq<char>) -> Option<Seq<char>> {
    let t = trimmed(raw);
    if t.len() == 0 || t[0] == '@' { None } else { Some(t) }
}

pub fn session_display_name(raw: &str) -> (r: Option<String>)
    ensures
        shown_name(raw@) == (match r {
            Some(n) => Some(n@),
            None => None,
        }),
{
    let t: String = trim(raw);
    if t.as_str().unicode_len() == 0 || t.as_str().get_char(0) == '@' {
        None
    } else {
        Some(t)
    }
}

pub open spec fn separator(c: char) -> bool {
    c == '\\' || c == '/'
}

/// `name` is what follows the last separator of `path`.
pub open spec fn is_basename(path: Seq<char>, name: Seq<char>) -> bool {
    &&& name.len() <= path.len()
    &&& name == path.subrange(path.len() - name.len(), path.len() as int)
    &&& forall|i: int| 0 <= i < name.len() ==> !separator(#[trigger] name[i])
    &&& name.len() < path.len() ==> separator(path[path.len() - name.len() - 1])
}

/// The name of an executable, from its full path.
pub fn process_basename(path: &str) -> (r: String)
    ensures
        is_basename(path@, r@),
{
    let n: usize = path.unicode_len();
    let mut from: usize = n;
    while from > 0 && path.get_char(from - 1) != '\\' && path.get_char(from - 1) != '/'
        invariant
            from <= n,
            n == path@.len(),
            forall|i: int| from <= i < n ==> !separator(#[trigger] path@[i]),
        decreases from,
    {
        from = from - 1;
    }
    copy_chars(path, from, n)
}

/// The apps found so far, each process once.
pub struct AppList {
    own: u32,
    apps: Vec<AudioAppInfo>,
}

impl AppList {
    /// The process that lists, which is left out.
    pub closed spec fn own(self) -> u32 {
        self.own
    }

    pub closed spec fn view(self) -> Seq<AppView> {
        Seq::new(self.apps@.len(), |i: int| self.apps@[i]@)
    }

    pub open spec fn lists(self, pid: u32) -> bool {
        exists|i: int| 0 <= i < self@.len() && (#[trigger] self@[i]).process_id == pid
    }

    /// No process stands twice, and neither the own process nor the number zero stands at all.
    pub open spec fn wf(self) -> bool {
        &&& forall|i: int, j: int|
            0 <= i < j < self@.len() ==> (#[trigger] self@[i]).process_id != (#[trigger] self@[j]).process_id
        &&& !self.lists(0)
        &&& !self.lists(self.own())
    }

    pub fn new(own: u32) -> (r: AppList)
        ensures
            r.wf(),
            r.own() == own,
            r@ == Seq::<AppView>::empty(),
    {
        let r = AppList { own, apps: Vec::new() };
        assert(r@ =~= Seq::<AppView>::empty());
        r
    }

    /// Whether a session is of interest: not the system sounds, not "no single process", not the
    /// own process, and not one that stands already.
    pub fn wants(&self, system_sounds: bool, pid: u32) -> (r: bool)
        ensures
            r == (!system_sounds && pid != 0 && pid != self.own() && !self.lists(pid)),
    {
        if system_sounds || pid == 0 || pid == self.own {
            return false;
        }
        let mut i: usize = 0;
        while i < self.apps.len()
            invariant
                i <= self.apps@.len(),
                forall|k: int| 0 <= k < i ==> (#[trigger] self@[k]).process_id != pid,
            decreases self.apps@.len() - i,
        {
            if self.apps[i].process_id == pid {
                assert(self@[i as int].process_id == pid);
                return false;
            }
            i = i + 1;
        }
        true
    }

    /// Lists a process. Its name is that of its session, where it is fit to be shown.
    pub fn push(&mut self, pid: u32, session_name: Option<&str>, binary: String)
        requires
            old(self).wf(),
            pid != 0,
            pid != old(self).own(),
            !old(self).lists(pid),
        ensures
            final(self).wf(),
            final(self).own() == old(self).own(),
            final(self)@ == old(self)@.push(
                (AppView {
                    process_id: pid,
                    display_name: match session_name {
                        Some(raw) => match shown_name(raw@) {
                            Some(n) => n,
                            None => binary@,
                        },
                        None => binary@,
                    },
                    binary: binary@,
                }),
            ),
    {
        let display_name: String = match session_name {
            Some(raw) => match session_display_name(raw) {
                Some(n) => n,
                None => binary.clone(),
            },
            None => binary.clone(),
        };
        let ghost before = self@;
        self.apps.push(AudioAppInfo { process_id: pid, display_name, binary });
        proof {
            let view = before.push(self.apps@.last()@);
            assert(self@ =~= view);
            assert forall|i: int, j: int| 0 <= i < j < self@.len() implies (#[trigger] self@[i]).process_id
                != (#[trigger] self@[j]).process_id by {
                assert(before[i] == self@[i]);
                if j < before.len() {
                    assert(before[j] == self@[j]);
                }
            }
            assert forall|q: u32| self.lists(q) implies q == pid || old(self).lists(q) by {
                let i = choose|i: int| 0 <= i < self@.len() && (#[trigger] self@[i]).process_id == q;
                if i < before.len() {
                    assert(before[i].process_id == q);
                }
            }
        }
    }

    pub fn into_apps(self) -> (r: Vec<AudioAppInfo>)
        ensures
            Seq::new(r@.len(), |i: int| r@[i]@) == self@,
    {
        self.apps
    }
}

/// An endpoint as it is listed.
pub fn endpoint_entry(id: String, friendly_name: Option<&str>, default_id: Option<&str>) -> (r:
    RenderEndpointInfo)
    ensures
        r.id@ == id@,
        r.name@ == (match friendly_name {
            Some(n) if trimmed(n@).len() > 0 => trimmed(n@),
            _ => id@,
        }),
        r.is_default == (match default_id {
            Some(d) => d@ == id@,
            None => false,
        }),
{
    let is_default = match default_id {
        Some(d) => {
            let own: String = d.to_owned();
            own == id
        },
        None => false,
    };
    let name: String = match friendly_name {
        Some(n) => {
            let t: String = trim(n);
            if t.as_str().unicode_len() > 0 {
                t
            } else {
                id.clone()
            }
        },
        None => id.clone(),
    };
    RenderEndpointInfo { id, name, is_default }
}

/// Whether a capture follows the default endpoint: no id, or the word for it.
pub fn follows_default(device_id: Option<&str>) -> (r: bool)
    ensures
        r == (match device_id {
            None => true,
            Some(id) => id@ == "default"@,
        }),
{
    match device_id {
        None => true,
        Some(id) => {
            let own: String = id.to_owned();
            own == "default".to_owned()
        },
    }
}

pub open spec fn default_changed(endpoint_id: Seq<char>, current: Seq<char>) -> Seq<char> {
    "default render endpoint changed ("@ + endpoint_id + " -> "@ + current
        + "); restart the share to follow it"@
}

/// A capture that follows the default fails when the default moves away or is gone.
pub fn check_default_endpoint(endpoint_id: &str, current: Option<&str>) -> (r: Result<(), String>)
    ensures
        match current {
            Some(id) => {
                &&& r is Ok <==> same_ignoring_case(id@, endpoint_id@)
                &&& r matches Err(why) ==> why@ == default_changed(endpoint_id@, id@)
            },
            None => r matches Err(why) && why@ == "the default render endpoint disappeared"@,
        },
{
    match current {
        Some(id) => {
            if eq_ignore_ascii_case(id, endpoint_id) {
                Ok(())
            } else {
                let mut s: String = "default render endpoint changed (".to_owned();
                s.append(endpoint_id);
                s.append(" -> ");
                s.append(id);
                s.append("); restart the share to follow it");
                Err(s)
            }
        },
        None => Err("the default render endpoint disappeared".to_owned()),
    }
}

/// The format that every capture asks for: 48 kHz, two channels, 32-bit float.
#[derive(Clone, Copy, Debug, PartialEq, Eq, Structural)]
pub struct WaveFormat {
    pub format_tag: u16,
    pub channels: u16,
    pub samples_per_sec: u32,
    pub avg_bytes_per_sec: u32,
    pub block_align: u16,
    pub bits_per_sample: u16,
    /// Bytes behind the basic header.
    pub extra_size: u16,
    pub valid_bits: u16,
    pub channel_mask: u32,
    /// What the samples are, by its identifier.
    pub sub_format: u128,
}

/// The tag of a format with an extended header.
pub const WAVE_FORMAT_EXTENSIBLE: u16 = 0xfffe;

/// Bytes of the basic header.
pub const BASIC_HEADER: u16 = 18;

/// Bytes of the extended header, the basic one included.
pub const EXTENDED_HEADER: u16 = 40;

/// The identifier of IEEE float samples, 00000003-0000-0010-8000-00aa00389b71.
pub const SUBTYPE_IEEE_FLOAT: u128 = 0x00000003_0000_0010_8000_00aa00389b71;

/// Front left and front right.
pub const STEREO_MASK: u32 = 3;

impl WaveFormat {
    /// A frame is all channels of one sample, and a second is `samples_per_sec` frames.
    pub open spec fn coherent(self) -> bool {
        &&& self.block_align == self.channels * self.bits_per_sample / 8
        &&& self.avg_bytes_per_sec == self.samples_per_sec * self.block_align
    }
}

pub fn build_wave_format() -> (r: WaveFormat)
    ensures
        r.coherent(),
        r.format_tag == WAVE_FORMAT_EXTENSIBLE,
        r.channels == 2,
        r.samples_per_sec == SAMPLE_RATE,
        r.bits_per_sample == 32,
        r.valid_bits == 32,
        r.extra_size == EXTENDED_HEADER - BASIC_HEADER,
        r.channel_mask == STEREO_MASK,
        r.sub_format == SUBTYPE_IEEE_FLOAT,
        r.format_tag == 0xfffe && r.samples_per_sec == 48_000 && r.extra_size == 22,
        r.block_align == 8 && r.avg_bytes_per_sec == 384_000 && r.channel_mask == 3,
        r.sub_format == 0x00000003_0000_0010_8000_00aa00389b71,
{
    WaveFormat {
        format_tag: WAVE_FORMAT_EXTENSIBLE,
        channels: 2,
        samples_per_sec: SAMPLE_RATE,
        avg_bytes_per_sec: 384_000,
        block_align: 8,
        bits_per_sample: 32,
        extra_size: EXTENDED_HEADER - BASIC_HEADER,
        valid_bits: 32,
        channel_mask: STEREO_MASK,
        sub_format: SUBTYPE_IEEE_FLOAT,
    }
}

/// What an endpoint says of its mix.
#[derive(Clone, Copy, Debug, PartialEq, Eq, Structural)]
pub struct MixFormat {
    pub rate: u32,
    pub channels: u16,
    /// The channel mask, where the header is an extended one.
    pub mask: Option<u32>,
}

/// Whether a header holds a channel mask.
pub fn has_channel_mask(format_tag: u16, extra_size: u16) -> (r: bool)
    ensures
        r == (format_tag == WAVE_FORMAT_EXTENSIBLE && BASIC_HEADER + extra_size >= EXTENDED_HEADER),
        r <==> format_tag == 0xfffe && extra_size >= 22,
{
    format_tag == WAVE_FORMAT_EXTENSIBLE && extra_size >= EXTENDED_HEADER - BASIC_HEADER
}

pub open spec fn wrong_rate(rate: u32) -> Seq<char> {
    "endpoint mixes at "@ + decimal(rate as nat) + " Hz; only "@ + decimal(SAMPLE_RATE as nat)
        + " Hz endpoints are supported (resampled taps are not sample-identical)"@
}

pub open spec fn wrong_channels(channels: u16) -> Seq<char> {
    "endpoint has "@ + decimal(channels as nat)
        + " channels; only stereo endpoints are supported (downmixed taps are not sample-identical)"@
}

pub open spec fn wrong_mask(mask: u32) -> Seq<char> {
    "endpoint channel mask 0x"@ + hexadecimal(mask as nat) + " is not plain front stereo"@
}

/// What stands against a mix, where anything does.
pub open spec fn objection(f: MixFormat) -> Option<Seq<char>> {
    if f.rate != SAMPLE_RATE {
        Some(wrong_rate(f.rate))
    } else if f.channels != 2 {
        Some(wrong_channels(f.channels))
    } else {
        match f.mask {
            Some(m) if m != STEREO_MASK => Some(wrong_mask(m)),
            _ => None,
        }
    }
}

/// Only a native 48 kHz stereo endpoint is accepted: elsewhere each capture would go through a
/// converter of its own, and two converters are not sample-identical.
pub fn check_endpoint_format(f: &MixFormat) -> (r: Result<(), String>)
    ensures
        objection(*f) == (match r {
            Ok(_) => None,
            Err(why) => Some(why@),
        }),
{
    if f.rate != SAMPLE_RATE {
        let mut s: String = "endpoint mixes at ".to_owned();
        push_decimal(&mut s, f.rate as u64);
        s.append(" Hz; only ");
        push_decimal(&mut s, SAMPLE_RATE as u64);
        s.append(" Hz endpoints are supported (resampled taps are not sample-identical)");
        return Err(s);
    }
    if f.channels != 2 {
        let mut s: String = "endpoint has ".to_owned();
        push_decimal(&mut s, f.channels as u64);
        s.append(
            " channels; only stereo endpoints are supported (downmixed taps are not sample-identical)",
        );
        return Err(s);
    }
    match f.mask {
        Some(m) if m != STEREO_MASK => {
            let mut s: String = "endpoint channel mask 0x".to_owned();
            push_hexadecimal(&mut s, m as u64);
            s.append(" is not plain front stereo");
            Err(s)
        },
        _ => Ok(()),
    }
}

/// These characters are white space, and no others.
pub proof fn white_space_is_these_characters(c: char)
    ensures
        white(c) <==> {
            ||| 9 <= c as int <= 13
            ||| c as int == 32
            ||| c as int == 0x85
            ||| c as int == 0xa0
            ||| c as int == 0x1680
            ||| 0x2000 <= c as int <= 0x200a
            ||| c as int == 0x2028
            ||| c as int == 0x2029
            ||| c as int == 0x202f
            ||| c as int == 0x205f
            ||| c as int == 0x3000
        },
{
}

proof fn lemma_leading(s: Seq<char>) -> (a: int)
    ensures
        0 <= a <= s.len(),
        without_leading(s) == s.skip(a),
        forall|i: int| 0 <= i < a ==> white(#[trigger] s[i]),
        a < s.len() ==> !white(s[a]),
    decreases s.len(),
{
    if s.len() > 0 && white(s[0]) {
        let b = lemma_leading(s.drop_first());
        assert(s.drop_first().skip(b) =~= s.skip(b + 1));
        assert forall|i: int| 0 <= i < b + 1 implies white(#[trigger] s[i]) by {
            if i > 0 {
                assert(s.drop_first()[i - 1] == s[i]);
            }
        }
        b + 1
    } else {
        assert(s.skip(0) =~= s);
        0
    }
}

proof fn lemma_trailing(s: Seq<char>) -> (b: int)
    ensures
        0 <= b <= s.len(),
        without_trailing(s) == s.take(b),
        forall|i: int| b <= i < s.len() ==> white(#[trigger] s[i]),
        b > 0 ==> !white(s[b - 1]),
    decreases s.len(),
{
    if s.len() > 0 && white(s.last()) {
        let b = lemma_trailing(s.drop_last());
        assert(s.drop_last().take(b) =~= s.take(b));
        assert forall|i: int| b <= i < s.len() implies white(#[trigger] s[i]) by {
            if i < s.len() - 1 {
                assert(s.drop_last()[i] == s[i]);
            }
        }
        b
    } else {
        assert(s.take(s.len() as int) =~= s);
        s.len() as int
    }
}

/// What trimming keeps is a stretch of the text: all that lies before it and behind it is white space,
/// and neither its first nor its last character is.
pub proof fn trimming_takes_white_space_off_the_ends(s: Seq<char>) -> (ends: (int, int))
    ensures
        0 <= ends.0 <= ends.1 <= s.len(),
        trimmed(s) == s.subrange(ends.0, ends.1),
        forall|i: int| 0 <= i < ends.0 ==> white(#[trigger] s[i]),
        forall|i: int| ends.1 <= i < s.len() ==> white(#[trigger] s[i]),
        ends.0 < ends.1 ==> !white(s[ends.0]) && !white(s[ends.1 - 1]),
{
    let a = lemma_leading(s);
    let t = s.skip(a);
    let b = lemma_trailing(t);
    assert(t.take(b) =~= s.subrange(a, a + b));
    assert forall|i: int| a + b <= i < s.len() implies white(#[trigger] s[i]) by {
        assert(t[i - a] == s[i]);
    }
    if b > 0 {
        assert(t[0] == s[a]);
        assert(t[b - 1] == s[a + b - 1]);
    }
    (a, a + b)
}

/// A session's name is shown without the white space around it, unless nothing is left or it begins
/// with the mark of a resource reference; then none is shown.
pub proof fn a_name_is_shown_where_it_can_be_read(raw: Seq<char>)
    ensures
        shown_name(raw) is Some <==> trimmed(raw).len() > 0 && trimmed(raw)[0] != '@',
        shown_name(raw) matches Some(n) ==> n == trimmed(raw),
        (forall|i: int| 0 <= i < raw.len() ==> white(#[trigger] raw[i])) ==> shown_name(raw) is None,
{
    let (a, b) = trimming_takes_white_space_off_the_ends(raw);
    if forall|i: int| 0 <= i < raw.len() ==> white(#[trigger] raw[i]) {
        if a < b {
            assert(white(raw[a]));
        }
    }
}

/// The name of an executable ends its path, holds neither slash nor backslash, and is either the whole
/// path or stands right behind one.
pub proof fn an_executable_is_named_behind_the_last_slash(path: Seq<char>, name: Seq<char>)
    ensures
        is_basename(path, name) <==> {
            &&& name.len() <= path.len()
            &&& forall|i: int| 0 <= i < name.len() ==> #[trigger] name[i] == path[path.len() - name.len() + i]
            &&& forall|i: int| 0 <= i < name.len() ==> #[trigger] name[i] != '/' && name[i] != '\\'
            &&& name.len() < path.len() ==> path[path.len() - name.len() - 1] == '/' || path[path.len()
                - name.len() - 1] == '\\'
        },
{
    if name.len() <= path.len() && forall|i: int|
        0 <= i < name.len() ==> #[trigger] name[i] == path[path.len() - name.len() + i] {
        assert(name =~= path.subrange(path.len() - name.len(), path.len() as int));
    }
}

/// A mix is accepted exactly where it runs at 48000 Hz with two channels and either names no speakers
/// or names front left and front right alone; else the first of these that fails is named, with its
/// value.
pub proof fn only_native_front_stereo_is_accepted(f: MixFormat)
    ensures
        objection(f) is None <==> f.rate == 48_000 && f.channels == 2 && (f.mask is None || f.mask == Some(3u32)),
        f.rate != 48_000 ==> objection(f) == Some(
            "endpoint mixes at "@ + decimal(f.rate as nat) + " Hz; only "@ + decimal(48_000)
                + " Hz endpoints are supported (resampled taps are not sample-identical)"@,
        ),
        f.rate == 48_000 && f.channels != 2 ==> objection(f) == Some(
            "endpoint has "@ + decimal(f.channels as nat)
                + " channels; only stereo endpoints are supported (downmixed taps are not sample-identical)"@,
        ),
        f.rate == 48_000 && f.channels == 2 && f.mask is Some && f.mask->0 != 3 ==> objection(f) == Some(
            "endpoint channel mask 0x"@ + hexadecimal(f.mask->0 as nat) + " is not plain front stereo"@,
        ),
{
}

/// A capture follows the default endpoint where no id is given or the word for it is, and then fails
/// where the default is gone or has moved to an id that differs in more than the case of ASCII letters.
pub proof fn the_default_is_followed_and_watched(
    device: Option<&str>,
    follows: bool,
    endpoint: &str,
    current: Option<&str>,
    r: Result<(), String>,
)
    requires
        call_ensures(follows_default, (device,), follows),
        call_ensures(check_default_endpoint, (endpoint, current), r),
    ensures
        device is None ==> follows,
        device matches Some(id) ==> (follows <==> id@ == "default"@),
        current is None ==> r is Err && r->Err_0@ == "the default render endpoint disappeared"@,
        current matches Some(id) ==> (r is Ok <==> same_ignoring_case(id@, endpoint@)),
        current matches Some(id) ==> r is Err ==> r->Err_0@ == "default render endpoint changed ("@ + endpoint@
            + " -> "@ + id@ + "); restart the share to follow it"@,
{
}

/// An endpoint is listed under its id, by its friendly name without the white space around it, or by
/// its id where that leaves nothing, and as the default exactly where its id is that of the default.
pub proof fn an_endpoint_is_listed_by_name_or_id(
    id: String,
    friendly: Option<&str>,
    default_id: Option<&str>,
    r: RenderEndpointInfo,
)
    requires
        call_ensures(endpoint_entry, (id, friendly, default_id), r),
    ensures
        r.id@ == id@,
        friendly is None ==> r.name@ == id@,
        friendly matches Some(n) ==> trimmed(n@).len() == 0 ==> r.name@ == id@,
        friendly matches Some(n) ==> trimmed(n@).len() > 0 ==> r.name@ == trimmed(n@),
        r.is_default <==> (default_id matches Some(d) && d@ == id@),
{
}

/// An app is listed by what its fields say.
pub proof fn an_app_is_its_fields(a: AudioAppInfo)
    ensures
        a@.process_id == a.process_id,
        a@.display_name == a.display_name@,
        a@.binary == a.binary@,
{
}

} // verus!
