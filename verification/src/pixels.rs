//! Formatting raster pixels for test diagnostics: each 32-bit ARGB pixel as
//! eight upper-case hex digits, pixels joined by a comma and a space.

use vstd::prelude::*;

verus! {

/// The upper-case hex digit for a value below 16.
pub open spec fn hex_digit_char(d: int) -> char {
    if d == 0 {
        '0'
    } else if d == 1 {
        '1'
    } else if d == 2 {
        '2'
    } else if d == 3 {
        '3'
    } else if d == 4 {
        '4'
    } else if d == 5 {
        '5'
    } else if d == 6 {
        '6'
    } else if d == 7 {
        '7'
    } else if d == 8 {
        '8'
    } else if d == 9 {
        '9'
    } else if d == 10 {
        'A'
    } else if d == 11 {
        'B'
    } else if d == 12 {
        'C'
    } else if d == 13 {
        'D'
    } else if d == 14 {
        'E'
    } else {
        'F'
    }
}

/// A pixel as eight hex digits, most significant nibble first.
pub open spec fn spec_hex8(p: u32) -> Seq<char> {
    seq![
        hex_digit_char((p / 0x1000_0000) as int % 16),
        hex_digit_char((p / 0x100_0000) as int % 16),
        hex_digit_char((p / 0x10_0000) as int % 16),
        hex_digit_char((p / 0x1_0000) as int % 16),
        hex_digit_char((p / 0x1000) as int % 16),
        hex_digit_char((p / 0x100) as int % 16),
        hex_digit_char((p / 0x10) as int % 16),
        hex_digit_char(p as int % 16),
    ]
}

/// All pixels in order, joined by a comma and a space.
pub open spec fn spec_pixels_to_hex(s: Seq<u32>) -> Seq<char>
    decreases s.len(),
{
    if s.len() == 0 {
        Seq::empty()
    } else if s.len() == 1 {
        spec_hex8(s[0])
    } else {
        spec_pixels_to_hex(s.drop_last()) + seq![',', ' '] + spec_hex8(s.last())
    }
}

fn push_hex_digit(out: &mut String, d: u32)
    requires
        d < 16,
    ensures
        final(out)@ == old(out)@.push(hex_digit_char(d as int)),
{
    proof {
        reveal_strlit("0");
        reveal_strlit("1");
        reveal_strlit("2");
        reveal_strlit("3");
        reveal_strlit("4");
        reveal_strlit("5");
        reveal_strlit("6");
        reveal_strlit("7");
        reveal_strlit("8");
        reveal_strlit("9");
        reveal_strlit("A");
        reveal_strlit("B");
        reveal_strlit("C");
        reveal_strlit("D");
        reveal_strlit("E");
        reveal_strlit("F");
    }
    let piece: &str = if d == 0 {
        "0"
    } else if d == 1 {
        "1"
    } else if d == 2 {
        "2"
    } else if d == 3 {
        "3"
    } else if d == 4 {
        "4"
    } else if d == 5 {
        "5"
    } else if d == 6 {
        "6"
    } else if d == 7 {
        "7"
    } else if d == 8 {
        "8"
    } else if d == 9 {
        "9"
    } else if d == 10 {
        "A"
    } else if d == 11 {
        "B"
    } else if d == 12 {
        "C"
    } else if d == 13 {
        "D"
    } else if d == 14 {
        "E"
    } else {
        "F"
    };
    out.append(piece);
    proof {
        assert(final(out)@ =~= old(out)@.push(hex_digit_char(d as int)));
    }
}

fn push_hex8(out: &mut String, p: u32)
    ensures
        final(out)@ == old(out)@ + spec_hex8(p),
{
    push_hex_digit(out, (p >> 28) % 16);
    push_hex_digit(out, (p >> 24) % 16);
    push_hex_digit(out, (p >> 20) % 16);
    push_hex_digit(out, (p >> 16) % 16);
    push_hex_digit(out, (p >> 12) % 16);
    push_hex_digit(out, (p >> 8) % 16);
    push_hex_digit(out, (p >> 4) % 16);
    push_hex_digit(out, p % 16);
    proof {
        assert((p >> 28) % 16 == (p / 0x1000_0000) % 16 && (p >> 24) % 16 == (p / 0x100_0000) % 16
            && (p >> 20) % 16 == (p / 0x10_0000) % 16 && (p >> 16) % 16 == (p / 0x1_0000) % 16 && (
        p >> 12) % 16 == (p / 0x1000) % 16 && (p >> 8) % 16 == (p / 0x100) % 16 && (p >> 4) % 16
            == (p / 0x10) % 16) by (bit_vector);
        assert(final(out)@ =~= old(out)@ + spec_hex8(p));
    }
}

/// Render pixels as hex words joined by ", ", for test failure messages.
pub fn pixels_to_hex(pixels: &[u32]) -> (r: String)
    ensures
        r@ == spec_pixels_to_hex(pixels@),
{
    let mut out = String::new();
    let mut i: usize = 0;
    while i < pixels.len()
        invariant
            i <= pixels@.len(),
            out@ == spec_pixels_to_hex(pixels@.take(i as int)),
        decreases pixels@.len() - i,
    {
        if i > 0 {
            proof {
                reveal_strlit(", ");
            }
            out.append(", ");
        }
        push_hex8(&mut out, pixels[i]);
        i += 1;
        proof {
            assert(pixels@.take(i as int).drop_last() =~= pixels@.take(i - 1));
            assert(pixels@.take(i as int).last() == pixels@[i - 1]);
            assert(out@ =~= spec_pixels_to_hex(pixels@.take(i as int)));
        }
    }
    proof {
        assert(pixels@.take(pixels@.len() as int) =~= pixels@);
    }
    out
}

} // verus!
