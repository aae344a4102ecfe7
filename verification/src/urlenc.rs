//! Request URLs for the upstream API are assembled as plain strings: a
//! fixed endpoint, then one query pair per item, each value
//! percent-encoded byte by byte.

use vstd::prelude::*;

use crate::text;

verus! {

/// A byte that may stand in a query value as it is: an ASCII letter or
/// digit, `-`, `.`, `_` or `~`.
pub open spec fn is_unreserved_byte(b: u8) -> bool {
    ||| 48 <= b <= 57
    ||| 65 <= b <= 90
    ||| 97 <= b <= 122
    ||| b == 45
    ||| b == 46
    ||| b == 95
    ||| b == 126
}

/// The upper-case hexadecimal digit for a value below sixteen.
pub open spec fn hex_digit(n: u8) -> char {
    if n < 10 {
        (48 + n) as char
    } else {
        (55 + n) as char
    }
}

/// How one byte appears in a query value: itself when unreserved, else a
/// percent escape of two upper-case hexadecimal digits.
pub open spec fn encoded_byte(b: u8) -> Seq<char> {
    if is_unreserved_byte(b) {
        seq![b as char]
    } else {
        seq!['%', hex_digit(b / 16), hex_digit(b % 16)]
    }
}

/// The percent-encoding of a byte sequence.
pub open spec fn percent_encoded(bs: Seq<u8>) -> Seq<char>
    decreases bs.len(),
{
    if bs.len() == 0 {
        Seq::empty()
    } else {
        percent_encoded(bs.drop_last()) + encoded_byte(bs.last())
    }
}

/// Percent-encodes the UTF-8 bytes of `s` for use as one query value.
pub fn percent_encode(s: &str) -> (r: String)
    ensures
        r@ == percent_encoded(vstd::utf8::encode_utf8(s@)),
{
    let bytes = s.as_bytes_vec();
    proof {
        assert(bytes@ == vstd::utf8::encode_utf8(s@));
    }
    let n = bytes.len();
    let mut r = String::new();
    let mut i: usize = 0;
    while i < n
        invariant
            0 <= i <= n,
            n == bytes@.len(),
            r@ == percent_encoded(bytes@.take(i as int)),
        decreases n - i,
    {
        let b = bytes[i];
        proof {
            assert(bytes@.take(i + 1).drop_last() =~= bytes@.take(i as int));
            assert(bytes@.take(i + 1).last() == bytes@[i as int]);
        }
        if (48 <= b && b <= 57) || (65 <= b && b <= 90) || (97 <= b && b <= 122) || b == 45 || b
            == 46 || b == 95 || b == 126 {
            text::push_char(&mut r, b as char);
        } else {
            text::push_char(&mut r, '%');
            text::push_char(&mut r, hex_digit_exec(b / 16));
            text::push_char(&mut r, hex_digit_exec(b % 16));
        }
        i = i + 1;
    }
    proof {
        assert(bytes@.take(n as int) =~= bytes@);
    }
    r
}

fn hex_digit_exec(n: u8) -> (r: char)
    requires
        n < 16,
    ensures
        r == hex_digit(n),
{
    if n < 10 {
        (48 + n) as char
    } else {
        (55 + n) as char
    }
}

/// The query string for one repeated key: `?key=v1&key=v2&...`, values
/// percent-encoded; empty for no values.
pub open spec fn query_string(key: Seq<char>, values: Seq<Seq<char>>) -> Seq<char>
    decreases values.len(),
{
    if values.len() == 0 {
        Seq::empty()
    } else {
        query_string(key, values.drop_last()) + (if values.len() == 1 {
            "?"@
        } else {
            "&"@
        }) + key + "="@ + percent_encoded(vstd::utf8::encode_utf8(values.last()))
    }
}

/// Appends `?key=value&key=value...` query pairs for every value to the
/// base endpoint.
pub fn append_query(base: &mut String, key: &str, values: &Vec<String>)
    ensures
        final(base)@ == old(base)@ + query_string(key@, values.deep_view()),
{
    let ghost dv = values.deep_view();
    let ghost base0 = base@;
    let n = values.len();
    let mut i: usize = 0;
    proof {
        assert(base0 + query_string(key@, dv.take(0int)) =~= base0);
    }
    while i < n
        invariant
            0 <= i <= n,
            n == values@.len(),
            dv == values.deep_view(),
            base@ == base0 + query_string(key@, dv.take(i as int)),
        decreases n - i,
    {
        proof {
            assert(dv.take(i + 1).drop_last() =~= dv.take(i as int));
            assert(dv.take(i + 1).last() == dv[i as int]);
            assert(dv[i as int] == values@[i as int]@);
        }
        if i == 0 {
            base.append("?");
        } else {
            base.append("&");
        }
        base.append(key);
        base.append("=");
        let encoded = percent_encode(values[i].as_str());
        base.append(encoded.as_str());
        i = i + 1;
    }
    proof {
        assert(dv.take(n as int) =~= dv);
    }
}

} // verus!
