//! The names of the POSIX shared-memory objects a frame can be handed to the
//! terminal in. Creating and filling the objects is the caller's.

use vstd::prelude::*;
use crate::unicode::{push_char, push_str};

verus! {

/// The lowercase hexadecimal digit for `d`.
pub open spec fn hex_digit(d: int) -> char {
    if d < 10 {
        ((d + 48) as u32) as char
    } else {
        ((d + 87) as u32) as char
    }
}

/// `n` in lowercase hexadecimal, no leading zeros.
pub open spec fn hex(n: nat) -> Seq<char>
    decreases n,
{
    if n < 16 {
        seq![hex_digit(n as int)]
    } else {
        hex(n / 16) + seq![hex_digit((n % 16) as int)]
    }
}

/// The name of the `seq`-th object of the process `pid`: short enough for
/// macOS's 31-character limit, so only the low 16 bits of the pid are used.
pub open spec fn object_name_of(pid: nat, seq: nat) -> Seq<char> {
    "/ett"@ + hex(pid % 65536) + "-"@ + hex(seq)
}

fn hex_char(d: u32) -> (c: char)
    requires
        d < 16,
    ensures
        c == hex_digit(d as int),
{
    let c: char = if d == 0 {
        '0'
    } else if d == 1 {
        '1'
    } else if d == 2 {
        '2'
    } else if d == 3 {
        '3'
    } else if d == 4 {
        '4'
    } else if d == 5 {
        '5'
    } else if d == 6 {
        '6'
    } else if d == 7 {
        '7'
    } else if d == 8 {
        '8'
    } else if d == 9 {
        '9'
    } else if d == 10 {
        'a'
    } else if d == 11 {
        'b'
    } else if d == 12 {
        'c'
    } else if d == 13 {
        'd'
    } else if d == 14 {
        'e'
    } else {
        'f'
    };
    c
}

/// Appends `n` in lowercase hexadecimal.
fn push_hex(out: &mut String, n: u32)
    ensures
        final(out)@ == old(out)@ + hex(n as nat),
{
    let mut digits: Vec<char> = Vec::new();
    let mut m = n;
    proof {
        assert(hex(n as nat) =~= hex(m as nat) + digits@.reverse());
    }
    // Peel digits off the low end; `digits` holds them lowest first.
    loop
        invariant_except_break
            hex(n as nat) =~= hex(m as nat) + digits@.reverse(),
        ensures
            hex(n as nat) =~= digits@.reverse(),
        decreases m,
    {
        let d = m % 16;
        let ghost old_m = m;
        let ghost old_digits = digits@;
        digits.push(hex_char(d));
        if m < 16 {
            proof {
                assert(hex(old_m as nat) =~= seq![hex_digit(d as int)]);
                assert(digits@.reverse() =~= seq![hex_digit(d as int)] + old_digits.reverse());
            }
            break;
        }
        m = m / 16;
        proof {
            assert(hex(old_m as nat) =~= hex(m as nat) + seq![hex_digit(d as int)]);
            assert(digits@.reverse() =~= seq![hex_digit(d as int)] + old_digits.reverse());
        }
    }
    let ghost start = out@;
    let mut k = digits.len();
    while k > 0
        invariant
            k <= digits@.len(),
            out@ == start + digits@.reverse().take((digits@.len() - k) as int),
        decreases k,
    {
        k -= 1;
        push_char(out, digits[k]);
        proof {
            assert(digits@.reverse().take((digits@.len() - k) as int) =~= digits@.reverse().take(
                (digits@.len() - k - 1) as int,
            ).push(digits@[k as int]));
        }
    }
    proof {
        assert(digits@.reverse().take(digits@.len() as int) =~= digits@.reverse());
    }
}

/// The name of the `seq`-th shared-memory object of the process `pid`.
pub fn object_name(pid: u32, seq: u32) -> (r: String)
    ensures
        r@ == object_name_of(pid as nat, seq as nat),
{
    let mut s = String::new();
    push_str(&mut s, "/ett");
    push_hex(&mut s, pid % 65536);
    push_str(&mut s, "-");
    push_hex(&mut s, seq);
    s
}

} // verus!
