//! Samples as bytes, lowest byte first, and the two channels of an interleaved run.

use crate::ieee::Single;
use vstd::prelude::*;

verus! {

/// The sample in the four bytes from `at` on.
pub open spec fn sample_at(b: Seq<u8>, at: int) -> Single {
    Single { bits: (b[at] + 0x100 * b[at + 1] + 0x1_0000 * b[at + 2] + 0x100_0000 * b[at + 3]) as u32 }
}

/// The samples in `b`. Bytes behind the last whole sample are left out.
pub open spec fn samples_of(b: Seq<u8>) -> Seq<Single> {
    Seq::new(b.len() / 4, |i: int| sample_at(b, 4 * i))
}

/// Byte `k` of a sample.
pub open spec fn byte_of(s: Single, k: int) -> u8 {
    if k == 0 {
        (s.bits % 0x100) as u8
    } else if k == 1 {
        (s.bits / 0x100 % 0x100) as u8
    } else if k == 2 {
        (s.bits / 0x1_0000 % 0x100) as u8
    } else {
        (s.bits / 0x100_0000) as u8
    }
}

pub open spec fn bytes_of(s: Seq<Single>) -> Seq<u8> {
    Seq::new(4 * s.len(), |i: int| byte_of(s[i / 4], i % 4))
}

/// Samples written as bytes read back as the same samples.
pub proof fn bytes_read_back(s: Seq<Single>)
    ensures
        samples_of(bytes_of(s)) == s,
{
    let b = bytes_of(s);
    assert forall|i: int| 0 <= i < s.len() implies sample_at(b, 4 * i) == s[i] by {
        assert((4 * i) / 4 == i && (4 * i + 1) / 4 == i && (4 * i + 2) / 4 == i && (4 * i + 3) / 4 == i);
        assert(b[4 * i] == byte_of(s[i], 0));
        assert(b[4 * i + 1] == byte_of(s[i], 1));
        assert(b[4 * i + 2] == byte_of(s[i], 2));
        assert(b[4 * i + 3] == byte_of(s[i], 3));
    }
    assert(samples_of(b) =~= s);
}

/// Reads samples out of bytes.
pub fn read_samples(b: &[u8]) -> (r: Vec<Single>)
    ensures
        r@ == samples_of(b@),
{
    let total: usize = b.len();
    let n: usize = total / 4;
    let mut out: Vec<Single> = Vec::new();
    let mut i: usize = 0;
    while i < n
        invariant
            i <= n,
            n == total / 4,
            total == b@.len(),
            out@.len() == i,
            forall|k: int| 0 <= k < i ==> #[trigger] out@[k] == sample_at(b@, 4 * k),
        decreases n - i,
    {
        let bits: u32 = b[4 * i] as u32 + 0x100 * (b[4 * i + 1] as u32) + 0x1_0000 * (b[4 * i + 2] as u32)
            + 0x100_0000 * (b[4 * i + 3] as u32);
        out.push(Single { bits });
        i = i + 1;
    }
    assert(out@ =~= samples_of(b@));
    out
}

/// Writes samples as bytes.
pub fn write_samples(s: &[Single]) -> (r: Vec<u8>)
    ensures
        r@ == bytes_of(s@),
{
    let mut out: Vec<u8> = Vec::new();
    let mut i: usize = 0;
    while i < s.len()
        invariant
            i <= s@.len(),
            out@.len() == 4 * i,
            forall|k: int| 0 <= k < 4 * i ==> #[trigger] out@[k] == byte_of(s@[k / 4], k % 4),
        decreases s@.len() - i,
    {
        let bits: u32 = s[i].bits;
        out.push((bits % 0x100) as u8);
        out.push((bits / 0x100 % 0x100) as u8);
        out.push((bits / 0x1_0000 % 0x100) as u8);
        out.push((bits / 0x100_0000) as u8);
        i = i + 1;
    }
    assert(out@ =~= bytes_of(s@));
    out
}

/// Every other sample, from `ch` on.
pub open spec fn channel_of(s: Seq<Single>, ch: int) -> Seq<Single> {
    Seq::new(
        if ch < s.len() { ((s.len() - ch + 1) / 2) as nat } else { 0 },
        |i: int| s[2 * i + ch],
    )
}

/// One channel of interleaved samples.
pub fn channel(s: &[Single], ch: usize) -> (r: Vec<Single>)
    requires
        ch < 2,
    ensures
        r@ == channel_of(s@, ch as int),
{
    let total: usize = s.len();
    let n: usize = if ch < total {
        (total - ch) / 2 + (total - ch) % 2
    } else {
        0
    };
    let mut out: Vec<Single> = Vec::new();
    let mut i: usize = 0;
    while i < n
        invariant
            ch < 2,
            i <= n,
            n == if ch < total { (total - ch + 1) / 2 } else { 0 },
            total == s@.len(),
            out@.len() == i,
            forall|k: int| 0 <= k < i ==> #[trigger] out@[k] == s@[2 * k + ch],
        decreases n - i,
    {
        out.push(s[2 * i + ch]);
        i = i + 1;
    }
    assert(out@ =~= channel_of(s@, ch as int));
    out
}

/// A sample lies in four bytes, the lowest first.
pub proof fn the_lowest_byte_comes_first(s: Seq<Single>, b: Seq<u8>, i: int)
    ensures
        bytes_of(s).len() == 4 * s.len(),
        samples_of(b).len() == b.len() / 4,
        0 <= i < s.len() ==> s[i].bits == bytes_of(s)[4 * i] + 0x100 * bytes_of(s)[4 * i + 1] + 0x1_0000
            * bytes_of(s)[4 * i + 2] + 0x100_0000 * bytes_of(s)[4 * i + 3],
        0 <= i < samples_of(b).len() ==> samples_of(b)[i].bits == b[4 * i] + 0x100 * b[4 * i + 1] + 0x1_0000
            * b[4 * i + 2] + 0x100_0000 * b[4 * i + 3],
{
    if 0 <= i < s.len() {
        assert((4 * i) / 4 == i && (4 * i + 1) / 4 == i && (4 * i + 2) / 4 == i && (4 * i + 3) / 4 == i);
    }
}

/// Of samples that stand left and right in turn, channel nought holds every left one and channel one
/// every right one, in order.
pub proof fn channels_are_taken_apart(s: Seq<Single>, i: int)
    ensures
        channel_of(s, 0).len() + channel_of(s, 1).len() == s.len(),
        0 <= channel_of(s, 0).len() - channel_of(s, 1).len() <= 1,
        0 <= i < channel_of(s, 0).len() ==> channel_of(s, 0)[i] == s[2 * i],
        0 <= i < channel_of(s, 1).len() ==> channel_of(s, 1)[i] == s[2 * i + 1],
{
}

} // verus!
