//! Color interpolation over `#rrggbb` strings.
//!
//! The blend parameter is in milli-units: zero yields the first color, one
//! thousand the second.  Malformed or missing hex digits read as zero, so
//! interpolation is total over arbitrary input strings.

use vstd::prelude::*;
use vstd::string::StringSliceAdditionalSpecFns;
use crate::common::{clamped, tdiv, abs_int};

verus! {

pub const HEX_DIGITS: [char; 16] = [
    '0',
    '1',
    '2',
    '3',
    '4',
    '5',
    '6',
    '7',
    '8',
    '9',
    'a',
    'b',
    'c',
    'd',
    'e',
    'f',
];

/// Value of one hex digit byte, negative one if it is no hex digit.
pub open spec fn hex_nibble(b: u8) -> int {
    if 48 <= b <= 57 {
        b - 48
    } else if 97 <= b <= 102 {
        b - 87
    } else if 65 <= b <= 70 {
        b - 55
    } else {
        -1
    }
}

/// The bytes with every leading number-sign stripped.
pub open spec fn strip_hashes(bytes: Seq<u8>) -> Seq<u8>
    decreases bytes.len(),
{
    if bytes.len() > 0 && bytes[0] == 35 {
        strip_hashes(bytes.drop_first())
    } else {
        bytes
    }
}

/// The channel value encoded by two hex digits at position `i`; zero when
/// either digit is missing or invalid.
pub open spec fn channel_at(bytes: Seq<u8>, i: int) -> int {
    if 0 <= i && i + 1 < bytes.len() && hex_nibble(bytes[i]) >= 0 && hex_nibble(bytes[i + 1])
        >= 0 {
        hex_nibble(bytes[i]) * 16 + hex_nibble(bytes[i + 1])
    } else {
        0
    }
}

/// Linear blend of one channel, truncated toward zero, with the parameter
/// clamped into its milli-unit range.
pub open spec fn lerp_channel(c1: int, c2: int, t: int) -> int {
    c1 + tdiv((c2 - c1) * clamped(t, 0, 1000), 1000)
}

/// Two lowercase hex digits of a byte value.
pub open spec fn hex_byte_str(v: int) -> Seq<char> {
    seq![HEX_DIGITS@[v / 16], HEX_DIGITS@[v % 16]]
}

fn hex_nibble_exec(b: u8) -> (v: i64)
    ensures
        v as int == hex_nibble(b),
{
    if 48 <= b && b <= 57 {
        (b - 48) as i64
    } else if 97 <= b && b <= 102 {
        (b - 87) as i64
    } else if 65 <= b && b <= 70 {
        (b - 55) as i64
    } else {
        -1
    }
}

fn parse_channels(color: &str) -> (c: (i64, i64, i64))
    ensures
        ({
            let stripped = strip_hashes(color.spec_bytes());
            &&& c.0 as int == channel_at(stripped, 0)
            &&& c.1 as int == channel_at(stripped, 2)
            &&& c.2 as int == channel_at(stripped, 4)
            &&& 0 <= c.0 <= 255 && 0 <= c.1 <= 255 && 0 <= c.2 <= 255
        }),
{
    let bytes = color.as_bytes();
    let n = bytes.len();
    let mut start: usize = 0;
    proof {
        assert(bytes@.skip(0) =~= bytes@);
    }
    while start < n && bytes[start] == 35
        invariant
            n == bytes@.len(),
            start <= n,
            strip_hashes(bytes@) == strip_hashes(bytes@.skip(start as int)),
        decreases n - start,
    {
        proof {
            assert(bytes@.skip(start as int).drop_first() =~= bytes@.skip(start as int + 1));
        }
        start += 1;
    }
    proof {
        if start < n {
            assert(bytes@.skip(start as int)[0] == bytes@[start as int]);
        } else {
            assert(bytes@.skip(start as int) =~= Seq::<u8>::empty());
        }
        assert(strip_hashes(bytes@.skip(start as int)) == bytes@.skip(start as int));
    }
    let r = channel_sub(bytes, start, 0);
    let g = channel_sub(bytes, start, 2);
    let b = channel_sub(bytes, start, 4);
    (r, g, b)
}

/// Channel at offset `off` of the suffix beginning at `start`.
fn channel_sub(bytes: &[u8], start: usize, off: usize) -> (v: i64)
    requires
        start <= bytes@.len(),
        off <= 4,
    ensures
        v as int == channel_at(bytes@.skip(start as int), off as int),
        0 <= v <= 255,
{
    proof {
        assert(bytes@.skip(start as int).len() == bytes@.len() - start);
    }
    if bytes.len() - start > off + 1 {
        let n1 = hex_nibble_exec(bytes[start + off]);
        let n2 = hex_nibble_exec(bytes[start + off + 1]);
        proof {
            assert(bytes@.skip(start as int)[off as int] == bytes@[start as int + off]);
            assert(bytes@.skip(start as int)[off as int + 1] == bytes@[start as int + off + 1]);
        }
        if n1 >= 0 && n2 >= 0 {
            n1 * 16 + n2
        } else {
            0
        }
    } else {
        0
    }
}

fn lerp_exec(c1: i64, c2: i64, t: i64) -> (v: i64)
    requires
        0 <= c1 <= 255,
        0 <= c2 <= 255,
        -1_000_000_000 <= t <= 1_000_000_000,
    ensures
        v as int == lerp_channel(c1 as int, c2 as int, t as int),
        0 <= v <= 255,
{
    let tc = if t < 0 {
        0
    } else if t > 1000 {
        1000
    } else {
        t
    };
    let diff = c2 - c1;
    proof {
        assert(diff * tc <= abs_int(diff as int) * 1000 && -(abs_int(diff as int) * 1000) <= diff
            * tc) by (nonlinear_arith)
            requires
                0 <= tc <= 1000,
        ;
        crate::network_graph::lemma_tdiv_bound_by(
            diff as int * tc as int,
            1000,
            abs_int(diff as int),
        );
        assert(diff >= 0 ==> diff * tc >= 0) by (nonlinear_arith)
            requires
                tc >= 0,
        ;
        assert(diff <= 0 ==> diff * tc <= 0) by (nonlinear_arith)
            requires
                tc >= 0,
        ;
        crate::network_graph::lemma_tdiv_bounds(diff as int * tc as int, 1000);
    }
    let step = (diff * tc) / 1000;
    c1 + step
}

/// Interpolate between two `#rrggbb` colors by a milli-unit parameter:
/// each channel moves the given fraction of the way from the first color's
/// value to the second's, and the result is formatted back as lowercase
/// hex.  Unparsable channels read as zero.
pub fn interpolate_color(color1: &str, color2: &str, t_milli: i64) -> (s: String)
    requires
        -1_000_000_000 <= t_milli <= 1_000_000_000,
    ensures
        ({
            let a = strip_hashes(color1.spec_bytes());
            let b = strip_hashes(color2.spec_bytes());
            s@ == seq!['#'] + hex_byte_str(
                lerp_channel(channel_at(a, 0), channel_at(b, 0), t_milli as int),
            ) + hex_byte_str(lerp_channel(channel_at(a, 2), channel_at(b, 2), t_milli as int))
                + hex_byte_str(lerp_channel(channel_at(a, 4), channel_at(b, 4), t_milli as int))
        }),
{
    let (r1, g1, b1) = parse_channels(color1);
    let (r2, g2, b2) = parse_channels(color2);
    let rr = lerp_exec(r1, r2, t_milli);
    let gg = lerp_exec(g1, g2, t_milli);
    let bb = lerp_exec(b1, b2, t_milli);
    let mut s = String::new();
    crate::format::push_char(&mut s, '#');
    push_hex_byte(&mut s, rr);
    push_hex_byte(&mut s, gg);
    push_hex_byte(&mut s, bb);
    proof {
        assert(s@ =~= seq!['#'] + hex_byte_str(rr as int) + hex_byte_str(gg as int)
            + hex_byte_str(bb as int));
    }
    s
}

fn push_hex_byte(s: &mut String, v: i64)
    requires
        0 <= v <= 255,
    ensures
        final(s)@ == old(s)@ + hex_byte_str(v as int),
{
    crate::format::push_char(s, HEX_DIGITS[(v / 16) as usize]);
    crate::format::push_char(s, HEX_DIGITS[(v % 16) as usize]);
    proof {
        assert(final(s)@ =~= old(s)@ + hex_byte_str(v as int));
    }
}

} // verus!
