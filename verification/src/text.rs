//! Rendering packed frame bytes as brace-delimited, comma-separated lists
//! of two-digit zero-padded hexadecimal literals, e.g. `{0x0F, 0x00}`.

use vstd::prelude::*;
use vstd::string::StringExecFns;
use crate::packing::frame_bytes;

verus! {

/// The uppercase hexadecimal digit for a value below 16.
pub open spec fn hex_digit(n: int) -> char {
    if n == 0 {
        '0'
    } else if n == 1 {
        '1'
    } else if n == 2 {
        '2'
    } else if n == 3 {
        '3'
    } else if n == 4 {
        '4'
    } else if n == 5 {
        '5'
    } else if n == 6 {
        '6'
    } else if n == 7 {
        '7'
    } else if n == 8 {
        '8'
    } else if n == 9 {
        '9'
    } else if n == 10 {
        'A'
    } else if n == 11 {
        'B'
    } else if n == 12 {
        'C'
    } else if n == 13 {
        'D'
    } else if n == 14 {
        'E'
    } else {
        'F'
    }
}

/// One byte as a zero-padded hexadecimal literal such as `0x0F`.
pub open spec fn byte_text(b: u8) -> Seq<char> {
    seq!['0', 'x', hex_digit(b as int / 16), hex_digit(b as int % 16)]
}

/// A comma-separated list: the items in order, `, ` between neighbours.
pub open spec fn comma_list(items: Seq<Seq<char>>) -> Seq<char>
    decreases items.len(),
{
    if items.len() == 0 {
        Seq::empty()
    } else if items.len() == 1 {
        items[0]
    } else {
        comma_list(items.drop_last()) + seq![',', ' '] + items.last()
    }
}

/// One frame's packed bytes as a brace-delimited list of hex literals.
pub open spec fn frame_text(f: Seq<bool>) -> Seq<char> {
    seq!['{'] + comma_list(frame_bytes(f).map_values(|b: u8| byte_text(b))) + seq!['}']
}

/// Every frame's literal, comma-separated and nested inside one outer pair
/// of braces, in frame order.
pub open spec fn sequence_text(frames: Seq<Seq<bool>>) -> Seq<char> {
    seq!['{'] + comma_list(frames.map_values(|f: Seq<bool>| frame_text(f))) + seq!['}']
}

/// Appending one more item extends a comma-separated list on the right.
pub proof fn lemma_comma_list_push(items: Seq<Seq<char>>, item: Seq<char>)
    ensures
        items.len() == 0 ==> comma_list(items.push(item)) == item,
        items.len() > 0 ==> comma_list(items.push(item)) == comma_list(items) + seq![',', ' ']
            + item,
{
    let p = items.push(item);
    assert(p.drop_last() =~= items);
    if items.len() == 0 {
        assert(comma_list(p) == p[0]);
    }
}

/// Appends `{` to the string.
pub fn append_brace_open(s: &mut String)
    ensures
        final(s)@ == old(s)@ + seq!['{'],
{
    s.append("{");
    proof {
        reveal_strlit("{");
        assert(s@ =~= old(s)@ + seq!['{']);
    }
}

/// Appends `}` to the string.
pub fn append_brace_close(s: &mut String)
    ensures
        final(s)@ == old(s)@ + seq!['}'],
{
    s.append("}");
    proof {
        reveal_strlit("}");
        assert(s@ =~= old(s)@ + seq!['}']);
    }
}

/// Appends the `, ` separator to the string.
pub fn append_separator(s: &mut String)
    ensures
        final(s)@ == old(s)@ + seq![',', ' '],
{
    s.append(", ");
    proof {
        reveal_strlit(", ");
        assert(s@ =~= old(s)@ + seq![',', ' ']);
    }
}

/// Appends the single hexadecimal digit for `d`.
fn append_hex_digit(s: &mut String, d: u8)
    requires
        d < 16,
    ensures
        final(s)@ == old(s)@ + seq![hex_digit(d as int)],
{
    if d == 0 {
        s.append("0");
        proof {
            reveal_strlit("0");
            assert(s@ =~= old(s)@ + seq![hex_digit(d as int)]);
        }
    } else if d == 1 {
        s.append("1");
        proof {
            reveal_strlit("1");
            assert(s@ =~= old(s)@ + seq![hex_digit(d as int)]);
        }
    } else if d == 2 {
        s.append("2");
        proof {
            reveal_strlit("2");
            assert(s@ =~= old(s)@ + seq![hex_digit(d as int)]);
        }
    } else if d == 3 {
        s.append("3");
        proof {
            reveal_strlit("3");
            assert(s@ =~= old(s)@ + seq![hex_digit(d as int)]);
        }
    } else if d == 4 {
        s.append("4");
        proof {
            reveal_strlit("4");
            assert(s@ =~= old(s)@ + seq![hex_digit(d as int)]);
        }
    } else if d == 5 {
        s.append("5");
        proof {
            reveal_strlit("5");
            assert(s@ =~= old(s)@ + seq![hex_digit(d as int)]);
        }
    } else if d == 6 {
        s.append("6");
        proof {
            reveal_strlit("6");
            assert(s@ =~= old(s)@ + seq![hex_digit(d as int)]);
        }
    } else if d == 7 {
        s.append("7");
        proof {
            reveal_strlit("7");
            assert(s@ =~= old(s)@ + seq![hex_digit(d as int)]);
        }
    } else if d == 8 {
        s.append("8");
        proof {
            reveal_strlit("8");
            assert(s@ =~= old(s)@ + seq![hex_digit(d as int)]);
        }
    } else if d == 9 {
        s.append("9");
        proof {
            reveal_strlit("9");
            assert(s@ =~= old(s)@ + seq![hex_digit(d as int)]);
        }
    } else if d == 10 {
        s.append("A");
        proof {
            reveal_strlit("A");
            assert(s@ =~= old(s)@ + seq![hex_digit(d as int)]);
        }
    } else if d == 11 {
        s.append("B");
        proof {
            reveal_strlit("B");
            assert(s@ =~= old(s)@ + seq![hex_digit(d as int)]);
        }
    } else if d == 12 {
        s.append("C");
        proof {
            reveal_strlit("C");
            assert(s@ =~= old(s)@ + seq![hex_digit(d as int)]);
        }
    } else if d == 13 {
        s.append("D");
        proof {
            reveal_strlit("D");
            assert(s@ =~= old(s)@ + seq![hex_digit(d as int)]);
        }
    } else if d == 14 {
        s.append("E");
        proof {
            reveal_strlit("E");
            assert(s@ =~= old(s)@ + seq![hex_digit(d as int)]);
        }
    } else {
        s.append("F");
        proof {
            reveal_strlit("F");
            assert(s@ =~= old(s)@ + seq![hex_digit(d as int)]);
        }
    }
}

/// Appends one byte as a zero-padded hexadecimal literal such as `0x0F`.
pub fn append_hex_byte(s: &mut String, b: u8)
    ensures
        final(s)@ == old(s)@ + byte_text(b),
{
    s.append("0x");
    proof {
        reveal_strlit("0x");
        assert(s@ =~= old(s)@ + seq!['0', 'x']);
    }
    append_hex_digit(s, b / 16);
    append_hex_digit(s, b % 16);
    proof {
        assert(s@ =~= old(s)@ + byte_text(b));
    }
}

/// Renders a byte sequence as a brace-delimited, comma-separated list of
/// hexadecimal literals.
pub fn hex_bytes_text(bytes: &Vec<u8>) -> (r: String)
    ensures
        r@ == seq!['{'] + comma_list(bytes@.map_values(|b: u8| byte_text(b))) + seq!['}'],
{
    let ghost items = bytes@.map_values(|b: u8| byte_text(b));
    let mut s = String::new();
    append_brace_open(&mut s);
    let mut k: usize = 0;
    while k < bytes.len()
        invariant
            k <= bytes@.len(),
            items == bytes@.map_values(|b: u8| byte_text(b)),
            s@ == seq!['{'] + comma_list(items.take(k as int)),
        decreases bytes@.len() - k,
    {
        if k > 0 {
            append_separator(&mut s);
        }
        append_hex_byte(&mut s, bytes[k]);
        proof {
            lemma_comma_list_push(items.take(k as int), byte_text(bytes@[k as int]));
            assert(items.take(k as int + 1) =~= items.take(k as int).push(
                byte_text(bytes@[k as int]),
            ));
            assert(s@ =~= seq!['{'] + comma_list(items.take(k as int + 1)));
        }
        k = k + 1;
    }
    proof {
        assert(items.take(bytes@.len() as int) =~= items);
    }
    append_brace_close(&mut s);
    s
}

} // verus!
