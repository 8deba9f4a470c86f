//! Byte-stream encoding of a frame for the LED strip: the leading slots are
//! rounded to the 0–255 range, hex-encoded, mirrored into a palindrome and
//! wrapped as a bracketed, comma-separated list.

use vstd::prelude::*;
use vstd::string::StringExecFns;

use crate::utils::frame_ok;
use crate::{FP_ONE, MAX_FRAME_LEN};

verus! {

/// How many LEDs the strip drives: only this many leading slots are encoded.
pub const LEDS: usize = 60;

/// One frame slot as an LED intensity byte: rounded to whole units and
/// clamped to 255.
pub open spec fn led_byte(v: i64) -> int {
    let r = (v + (FP_ONE as int) / 2) / (FP_ONE as int);
    if r > 255 {
        255
    } else {
        r
    }
}

/// The lower-case hex digit for a value below sixteen.
pub open spec fn hex_digit(d: int) -> char {
    if d == 0 {
        '0'
    } else if d == 1 {
        '1'
    } else if d == 2 {
        '2'
    } else if d == 3 {
        '3'
    } else if d == 4 {
        '4'
    } else if d == 5 {
        '5'
    } else if d == 6 {
        '6'
    } else if d == 7 {
        '7'
    } else if d == 8 {
        '8'
    } else if d == 9 {
        '9'
    } else if d == 10 {
        'a'
    } else if d == 11 {
        'b'
    } else if d == 12 {
        'c'
    } else if d == 13 {
        'd'
    } else if d == 14 {
        'e'
    } else {
        'f'
    }
}

/// A byte as two lower-case hex digits.
pub open spec fn byte_hex(b: u8) -> Seq<char> {
    seq![hex_digit(b as int / 16), hex_digit(b as int % 16)]
}

/// The LED bytes of a frame: its first `LEDS` slots (fewer on a short
/// frame), each as an intensity byte.
pub open spec fn led_bytes(frame: Seq<i64>) -> Seq<u8> {
    let k = if frame.len() > LEDS {
        LEDS as int
    } else {
        frame.len() as int
    };
    Seq::new(k as nat, |i: int| led_byte(frame[i]) as u8)
}

/// The bytes preceded by their own reversal: the palindromic strip layout.
pub open spec fn mirrored(s: Seq<u8>) -> Seq<u8> {
    s.reverse() + s
}

/// The bytes hex-encoded and joined with commas.
pub open spec fn joined_hex(s: Seq<u8>) -> Seq<char>
    decreases s.len(),
{
    if s.len() == 0 {
        Seq::empty()
    } else if s.len() == 1 {
        byte_hex(s[0])
    } else {
        joined_hex(s.drop_last()) + seq![','] + byte_hex(s.last())
    }
}

/// The full serial line for a frame: the mirrored LED bytes, hex-encoded,
/// comma-separated and bracketed.
pub open spec fn serial_line(frame: Seq<i64>) -> Seq<char> {
    seq!['['] + joined_hex(mirrored(led_bytes(frame))) + seq![']']
}

fn push_hex_digit(out: &mut String, d: u8)
    requires
        d < 16,
    ensures
        final(out)@ == old(out)@ + seq![hex_digit(d as int)],
{
    proof {
        reveal_strlit("0");
        reveal_strlit("1");
        reveal_strlit("2");
        reveal_strlit("3");
        reveal_strlit("4");
        reveal_strlit("5");
        reveal_strlit("6");
        reveal_strlit("7");
        reveal_strlit("8");
        reveal_strlit("9");
        reveal_strlit("a");
        reveal_strlit("b");
        reveal_strlit("c");
        reveal_strlit("d");
        reveal_strlit("e");
        reveal_strlit("f");
    }
    match d {
        0 => out.append("0"),
        1 => out.append("1"),
        2 => out.append("2"),
        3 => out.append("3"),
        4 => out.append("4"),
        5 => out.append("5"),
        6 => out.append("6"),
        7 => out.append("7"),
        8 => out.append("8"),
        9 => out.append("9"),
        10 => out.append("a"),
        11 => out.append("b"),
        12 => out.append("c"),
        13 => out.append("d"),
        14 => out.append("e"),
        _ => out.append("f"),
    }
}

/// Encode a frame as the line the serial writer sends to the strip.
pub fn get_data(frame: &Vec<i64>) -> (r: String)
    requires
        frame@.len() <= MAX_FRAME_LEN as int,
        frame_ok(frame@),
    ensures
        r@ == serial_line(frame@),
{
    let k = if frame.len() > LEDS {
        LEDS
    } else {
        frame.len()
    };
    let mut bytes: Vec<u8> = Vec::new();
    let mut i: usize = 0;
    while i < k
        invariant
            k == led_bytes(frame@).len(),
            k <= frame@.len(),
            frame_ok(frame@),
            i <= k,
            bytes@.len() == i,
            forall|j: int| 0 <= j < i ==> #[trigger] bytes@[j] == led_bytes(frame@)[j],
        decreases k - i,
    {
        let v = frame[i];
        proof {
            vstd::arithmetic::div_mod::lemma_div_pos_is_pos(v + (FP_ONE as int) / 2, FP_ONE as int);
        }
        let rounded: i64 = (v + FP_ONE / 2) / FP_ONE;
        let b: u8 = if rounded > 255 {
            255
        } else {
            rounded as u8
        };
        bytes.push(b);
        i = i + 1;
    }
    proof {
        assert(bytes@ =~= led_bytes(frame@));
    }
    let mut order: Vec<u8> = Vec::new();
    let mut i: usize = 0;
    while i < k
        invariant
            k == bytes@.len(),
            i <= k,
            order@.len() == i,
            forall|j: int| 0 <= j < i ==> #[trigger] order@[j] == bytes@[k - 1 - j],
        decreases k - i,
    {
        order.push(bytes[k - 1 - i]);
        i = i + 1;
    }
    let mut j: usize = 0;
    while j < k
        invariant
            k == bytes@.len(),
            j <= k,
            order@.len() == k + j,
            forall|t: int| 0 <= t < k ==> #[trigger] order@[t] == bytes@[k - 1 - t],
            forall|t: int| 0 <= t < j ==> #[trigger] order@[k + t] == bytes@[t],
        decreases k - j,
    {
        order.push(bytes[j]);
        j = j + 1;
    }
    proof {
        assert forall|t: int| k <= t < 2 * k implies order@[t] == bytes@[t - k] by {
            assert(order@[k + (t - k)] == bytes@[t - k]);
        }
        assert(order@ =~= mirrored(bytes@));
    }
    let n = order.len();
    let mut out = String::from_str("[");
    proof {
        reveal_strlit("[");
        assert(out@ =~= seq!['['] + joined_hex(order@.subrange(0, 0)));
    }
    let mut t: usize = 0;
    while t < n
        invariant
            n == order@.len(),
            t <= n,
            out@ == seq!['['] + joined_hex(order@.subrange(0, t as int)),
        decreases n - t,
    {
        if t > 0 {
            out.append(",");
            proof {
                reveal_strlit(",");
                assert(out@ =~= seq!['['] + joined_hex(order@.subrange(0, t as int)) + seq![',']);
            }
        }
        let b = order[t];
        push_hex_digit(&mut out, b / 16);
        push_hex_digit(&mut out, b % 16);
        proof {
            let pre = order@.subrange(0, t as int);
            let post = order@.subrange(0, t + 1);
            assert(post.drop_last() =~= pre);
            assert(post.last() == order@[t as int]);
            if t == 0 {
                assert(post.len() == 1);
                assert(out@ =~= seq!['['] + joined_hex(post));
            } else {
                assert(joined_hex(post) == joined_hex(pre) + seq![','] + byte_hex(order@[t as int]));
                assert(out@ =~= seq!['['] + joined_hex(post));
            }
        }
        t = t + 1;
    }
    out.append("]");
    proof {
        reveal_strlit("]");
        assert(order@.subrange(0, n as int) =~= order@);
        assert(out@ =~= serial_line(frame@));
    }
    out
}

} // verus!
