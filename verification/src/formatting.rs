use vstd::prelude::*;
use vstd::string::StringExecFns;

use crate::gadgets::{spec_gadget_text, Gadget};

verus! {

pub open spec fn spec_hex_char(d: int) -> char {
    if d == 0 {
        '0'
    } else if d == 1 {
        '1'
    } else if d == 2 {
        '2'
    } else if d == 3 {
        '3'
    } else if d == 4 {
        '4'
    } else if d == 5 {
        '5'
    } else if d == 6 {
        '6'
    } else if d == 7 {
        '7'
    } else if d == 8 {
        '8'
    } else if d == 9 {
        '9'
    } else if d == 10 {
        'a'
    } else if d == 11 {
        'b'
    } else if d == 12 {
        'c'
    } else if d == 13 {
        'd'
    } else if d == 14 {
        'e'
    } else {
        'f'
    }
}

/// The lowercase hex digits of a number, most significant first, no leading
/// zeroes except for the number 0 itself.
pub open spec fn spec_hex_digits(v: int) -> Seq<char>
    decreases v,
{
    if v < 0 {
        Seq::empty()
    } else if v < 16 {
        seq![spec_hex_char(v)]
    } else {
        spec_hex_digits(v / 16) + seq![spec_hex_char(v % 16)]
    }
}

pub open spec fn spec_num_hex_digits(v: int) -> int
    decreases v,
{
    if v < 16 {
        1
    } else {
        1 + spec_num_hex_digits(v / 16)
    }
}

pub open spec fn spec_zero_pad(n: int) -> Seq<char> {
    Seq::new(
        if n < 0 {
            0
        } else {
            n as nat
        },
        |i: int| '0',
    )
}

/// An address as the emitter renders it: `0x`, then the hex digits
/// zero-padded to at least eight.
pub open spec fn spec_addr_text(addr: int) -> Seq<char> {
    seq!['0', 'x'] + spec_zero_pad(8 - spec_num_hex_digits(addr)) + spec_hex_digits(addr)
}

/// One output line: the address, a colon and a space, then the gadget text.
pub open spec fn spec_gadget_line(g: Seq<crate::instr::InstrView>, addr: int) -> Seq<char> {
    spec_addr_text(addr) + seq![':', ' '] + spec_gadget_text(g)
}

fn push_hex_digit(s: &mut String, d: usize)
    requires
        d < 16,
    ensures
        final(s)@ == old(s)@ + seq![spec_hex_char(d as int)],
{
    let digit: &str = match d {
        0 => "0",
        1 => "1",
        2 => "2",
        3 => "3",
        4 => "4",
        5 => "5",
        6 => "6",
        7 => "7",
        8 => "8",
        9 => "9",
        10 => "a",
        11 => "b",
        12 => "c",
        13 => "d",
        14 => "e",
        _ => "f",
    };
    proof {
        reveal_strlit("0");
        reveal_strlit("1");
        reveal_strlit("2");
        reveal_strlit("3");
        reveal_strlit("4");
        reveal_strlit("5");
        reveal_strlit("6");
        reveal_strlit("7");
        reveal_strlit("8");
        reveal_strlit("9");
        reveal_strlit("a");
        reveal_strlit("b");
        reveal_strlit("c");
        reveal_strlit("d");
        reveal_strlit("e");
        reveal_strlit("f");
        assert(digit@ =~= seq![spec_hex_char(d as int)]);
    }
    s.append(digit);
}

fn hex_digits(v: usize, s: &mut String)
    ensures
        final(s)@ == old(s)@ + spec_hex_digits(v as int),
    decreases v,
{
    if v < 16 {
        push_hex_digit(s, v);
    } else {
        hex_digits(v / 16, s);
        push_hex_digit(s, v % 16);
        proof {
            assert(old(s)@ + spec_hex_digits(v as int / 16) + seq![
                spec_hex_char(v as int % 16),
            ] =~= old(s)@ + spec_hex_digits(v as int));
        }
    }
}

fn count_hex_digits(v: usize) -> (r: usize)
    ensures
        r as int == spec_num_hex_digits(v as int),
{
    let mut c: usize = 1;
    let mut tmp = v;
    while tmp >= 16
        invariant
            spec_num_hex_digits(v as int) == c - 1 + spec_num_hex_digits(tmp as int),
            c >= 1,
            c + tmp <= v + 1,
        decreases tmp,
    {
        proof {
            assert(tmp / 16 <= tmp - 15) by (nonlinear_arith)
                requires
                    tmp >= 16,
            ;
        }
        tmp = tmp / 16;
        c = c + 1;
    }
    c
}

/// Render one emitted gadget as the tool prints it:
/// `0xADDRESS: instr1; instr2; …;` with the address zero-padded to at least
/// eight hex digits.
pub fn format_gadget(gadget: &Gadget, address: usize) -> (r: String)
    ensures
        r@ == spec_gadget_line(gadget@, address as int),
{
    let mut s = String::new();
    s.append("0x");
    proof {
        reveal_strlit("0x");
        assert("0x"@ =~= seq!['0', 'x']);
    }
    let count = count_hex_digits(address);
    let mut pad = count;
    proof {
        assert(spec_zero_pad(count as int - count as int) =~= Seq::<char>::empty());
        assert(s@ =~= seq!['0', 'x'] + spec_zero_pad(count as int - count as int));
    }
    while pad < 8
        invariant
            count <= pad,
            pad <= 8 || pad == count,
            s@ == seq!['0', 'x'] + spec_zero_pad(pad as int - count as int),
        decreases 8 - pad,
    {
        s.append("0");
        pad = pad + 1;
        proof {
            reveal_strlit("0");
            assert("0"@ =~= seq!['0']);
            assert(spec_zero_pad(pad as int - count as int) =~= spec_zero_pad(
                pad as int - 1 - count as int,
            ) + seq!['0']);
            assert(s@ =~= seq!['0', 'x'] + spec_zero_pad(pad as int - count as int));
        }
    }
    proof {
        if count < 8 {
            assert(pad as int - count as int == 8 - spec_num_hex_digits(address as int));
        } else {
            assert(spec_zero_pad(pad as int - count as int) =~= spec_zero_pad(
                8 - spec_num_hex_digits(address as int),
            ));
        }
    }
    hex_digits(address, &mut s);
    s.append(": ");
    let text = gadget.format_instruction();
    s.append(text.as_str());
    proof {
        reveal_strlit(": ");
        assert(": "@ =~= seq![':', ' ']);
        assert(s@ =~= spec_gadget_line(gadget@, address as int));
    }
    s
}

} // verus!
