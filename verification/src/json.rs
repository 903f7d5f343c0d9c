use vstd::prelude::*;
use crate::codec::{match_at, skip_ws, skip_ws_at, starts_with_at, str_eq};
use crate::vehicle::Car;

verus! {

/// A decimal digit.
pub open spec fn is_digit(c: char) -> bool {
    48 <= c as u32 && c as u32 <= 57
}

/// Numeric value of a digit character; 10 for anything else.
pub open spec fn digit_val(c: char) -> int {
    if is_digit(c) {
        c as u32 - 48
    } else {
        10
    }
}

/// The digit character of a value below ten.
pub open spec fn digit_char(d: int) -> char {
    if d == 0 {
        '0'
    } else if d == 1 {
        '1'
    } else if d == 2 {
        '2'
    } else if d == 3 {
        '3'
    } else if d == 4 {
        '4'
    } else if d == 5 {
        '5'
    } else if d == 6 {
        '6'
    } else if d == 7 {
        '7'
    } else if d == 8 {
        '8'
    } else {
        '9'
    }
}

/// Decimal text of a non-negative number.
pub open spec fn dec_digits(n: int) -> Seq<char>
    recommends
        0 <= n,
    decreases n when 0 <= n
{
    if n < 10 {
        seq![digit_char(n)]
    } else {
        dec_digits(n / 10) + seq![digit_char(n % 10)]
    }
}

/// Decimal text of a number, with a minus sign when it is negative.
pub open spec fn int_text(n: int) -> Seq<char> {
    if n < 0 {
        seq!['-'] + dec_digits(-n)
    } else {
        dec_digits(n)
    }
}

fn digit_str(d: u64) -> (r: &'static str)
    requires
        d < 10,
    ensures
        r@ == seq![digit_char(d as int)],
{
    proof {
        reveal_strlit("0");
        reveal_strlit("1");
        reveal_strlit("2");
        reveal_strlit("3");
        reveal_strlit("4");
        reveal_strlit("5");
        reveal_strlit("6");
        reveal_strlit("7");
        reveal_strlit("8");
        reveal_strlit("9");
    }
    let r = match d {
        0 => "0",
        1 => "1",
        2 => "2",
        3 => "3",
        4 => "4",
        5 => "5",
        6 => "6",
        7 => "7",
        8 => "8",
        _ => "9",
    };
    proof {
        assert(r@ =~= seq![digit_char(d as int)]);
    }
    r
}

fn append_dec(out: &mut String, n: u64)
    ensures
        final(out)@ == old(out)@ + dec_digits(n as int),
    decreases n,
{
    if n < 10 {
        out.append(digit_str(n));
        proof {
            assert(final(out)@ =~= old(out)@ + dec_digits(n as int));
        }
    } else {
        append_dec(out, n / 10);
        out.append(digit_str(n % 10));
        proof {
            assert(final(out)@ =~= old(out)@ + dec_digits(n as int));
        }
    }
}

fn append_i32(out: &mut String, n: i32)
    ensures
        final(out)@ == old(out)@ + int_text(n as int),
{
    let m: i64 = n as i64;
    if m < 0 {
        out.append("-");
        proof {
            reveal_strlit("-");
        }
        append_dec(out, (-m) as u64);
        proof {
            assert(final(out)@ =~= old(out)@ + int_text(n as int));
        }
    } else {
        append_dec(out, m as u64);
    }
}

/// The character of a hexadecimal digit value below sixteen.
pub open spec fn hex_char(d: int) -> char {
    if d < 10 {
        digit_char(d)
    } else if d == 10 {
        'a'
    } else if d == 11 {
        'b'
    } else if d == 12 {
        'c'
    } else if d == 13 {
        'd'
    } else if d == 14 {
        'e'
    } else {
        'f'
    }
}

/// The JSON text of one character inside a string: the named escapes for
/// quote, backslash and the common control characters, `\u00XX` for the
/// other control characters, and the character itself otherwise.
pub open spec fn escape_char(c: char) -> Seq<char> {
    if c == '"' {
        seq!['\\', '"']
    } else if c == '\\' {
        seq!['\\', '\\']
    } else if c == '\u{8}' {
        seq!['\\', 'b']
    } else if c == '\u{c}' {
        seq!['\\', 'f']
    } else if c == '\n' {
        seq!['\\', 'n']
    } else if c == '\r' {
        seq!['\\', 'r']
    } else if c == '\t' {
        seq!['\\', 't']
    } else if (c as u32) < 32 {
        seq!['\\', 'u', '0', '0', hex_char(c as int / 16), hex_char(c as int % 16)]
    } else {
        seq![c]
    }
}

/// The JSON text of a string value's characters.
pub open spec fn escape_text(s: Seq<char>) -> Seq<char>
    decreases s.len(),
{
    if s.len() == 0 {
        Seq::<char>::empty()
    } else {
        escape_text(s.drop_last()) + escape_char(s.last())
    }
}

fn hex_str(d: u32) -> (r: &'static str)
    requires
        d < 16,
    ensures
        r@ == seq![hex_char(d as int)],
{
    if d < 10 {
        digit_str(d as u64)
    } else {
        proof {
            reveal_strlit("a");
            reveal_strlit("b");
            reveal_strlit("c");
            reveal_strlit("d");
            reveal_strlit("e");
            reveal_strlit("f");
        }
        let r = match d {
            10 => "a",
            11 => "b",
            12 => "c",
            13 => "d",
            14 => "e",
            _ => "f",
        };
        proof {
            assert(r@ =~= seq![hex_char(d as int)]);
        }
        r
    }
}

fn append_escaped(out: &mut String, t: &str)
    ensures
        final(out)@ == old(out)@ + escape_text(t@),
{
    let ghost out0 = out@;
    let n = t.unicode_len();
    let mut i: usize = 0;
    while i < n
        invariant
            i <= n,
            n == t@.len(),
            out@ == out0 + escape_text(t@.take(i as int)),
        decreases n - i,
    {
        let c = t.get_char(i);
        let u = c as u32;
        if c == '"' {
            out.append("\\\"");
            proof {
                reveal_strlit("\\\"");
            }
        } else if c == '\\' {
            out.append("\\\\");
            proof {
                reveal_strlit("\\\\");
            }
        } else if c == '\u{8}' {
            out.append("\\b");
            proof {
                reveal_strlit("\\b");
            }
        } else if c == '\u{c}' {
            out.append("\\f");
            proof {
                reveal_strlit("\\f");
            }
        } else if c == '\n' {
            out.append("\\n");
            proof {
                reveal_strlit("\\n");
            }
        } else if c == '\r' {
            out.append("\\r");
            proof {
                reveal_strlit("\\r");
            }
        } else if c == '\t' {
            out.append("\\t");
            proof {
                reveal_strlit("\\t");
            }
        } else if u < 32 {
            out.append("\\u00");
            out.append(hex_str(u / 16));
            out.append(hex_str(u % 16));
            proof {
                reveal_strlit("\\u00");
            }
        } else {
            push_char(out, c);
        }
        proof {
            let t1 = t@.take(i + 1);
            assert(t1.drop_last() =~= t@.take(i as int));
            assert(t1.last() == t@[i as int]);
            assert(out@ =~= out0 + escape_text(t1));
        }
        i = i + 1;
    }
    proof {
        assert(t@.take(n as int) =~= t@);
    }
}

/// JSON text of an id field value: the number, or `null` when absent.
pub open spec fn id_text(id: Option<i32>) -> Seq<char> {
    match id {
        Some(v) => int_text(v as int),
        None => "null"@,
    }
}

/// JSON text of a car: an object holding id, brand, model, year and price,
/// in that order, with the text fields escaped and the price text placed
/// verbatim.
pub open spec fn json_of_car(c: Car) -> Seq<char> {
    "{\"id\":"@ + id_text(c.id) + ",\"brand\":\""@ + escape_text(c.brand@) + "\",\"model\":\""@
        + escape_text(c.model@) + "\",\"year\":"@ + int_text(c.year as int) + ",\"price\":"@
        + c.price@ + "}"@
}

/// Encode one car as JSON text.
pub fn to_json_car(c: &Car) -> (r: String)
    ensures
        r@ == json_of_car(*c),
{
    let mut out = "{\"id\":".to_owned();
    match c.id {
        Some(v) => append_i32(&mut out, v),
        None => out.append("null"),
    }
    out.append(",\"brand\":\"");
    append_escaped(&mut out, c.brand.as_str());
    out.append("\",\"model\":\"");
    append_escaped(&mut out, c.model.as_str());
    out.append("\",\"year\":");
    append_i32(&mut out, c.year);
    out.append(",\"price\":");
    out.append(c.price.as_str());
    out.append("}");
    proof {
        assert(out@ =~= json_of_car(*c));
    }
    out
}

/// JSON text of the elements of an array, joined with commas.
pub open spec fn json_rows_inner(rows: Seq<Car>) -> Seq<char>
    decreases rows.len(),
{
    if rows.len() == 0 {
        Seq::<char>::empty()
    } else if rows.len() == 1 {
        json_of_car(rows[0])
    } else {
        json_rows_inner(rows.drop_last()) + ","@ + json_of_car(rows.last())
    }
}

/// JSON text of an array of cars.
pub open spec fn json_of_rows(rows: Seq<Car>) -> Seq<char> {
    "["@ + json_rows_inner(rows) + "]"@
}

/// Encode a sequence of cars as a JSON array.
pub fn to_json_cars(rows: &Vec<Car>) -> (r: String)
    ensures
        r@ == json_of_rows(rows@),
{
    let n = rows.len();
    let mut out = "[".to_owned();
    let mut i: usize = 0;
    while i < n
        invariant
            i <= n,
            n == rows@.len(),
            out@ == "["@ + json_rows_inner(rows@.take(i as int)),
        decreases n - i,
    {
        if i > 0 {
            out.append(",");
        }
        let item = to_json_car(&rows[i]);
        out.append(item.as_str());
        proof {
            let t1 = rows@.take(i + 1);
            assert(t1.drop_last() =~= rows@.take(i as int));
            assert(t1.last() == rows@[i as int]);
            assert(out@ =~= "["@ + json_rows_inner(t1));
        }
        i = i + 1;
    }
    proof {
        assert(rows@.take(n as int) =~= rows@);
    }
    out.append("]");
    proof {
        assert(out@ =~= json_of_rows(rows@));
    }
    out
}

/// The text fields a request body describes a car by.
pub struct CarText {
    pub id: Option<i32>,
    pub brand: Seq<char>,
    pub model: Seq<char>,
    pub year: i32,
    pub price: Seq<char>,
}

/// The decoded car carries exactly the fields the body text describes.
pub open spec fn car_matches_text(c: Car, t: CarText) -> bool {
    &&& c.id == t.id
    &&& c.brand@ == t.brand
    &&& c.model@ == t.model
    &&& c.year == t.year
    &&& c.price@ == t.price
}

/// First index at or after `i` holding a non-digit; the length if none does.
pub open spec fn scan_digits(s: Seq<char>, i: int) -> int
    recommends
        0 <= i <= s.len(),
    decreases s.len() - i when 0 <= i <= s.len()
{
    if i >= s.len() {
        s.len() as int
    } else if is_digit(s[i]) {
        scan_digits(s, i + 1)
    } else {
        i
    }
}

/// Value of the digit run in `[i, end)`.
pub open spec fn digits_val(s: Seq<char>, i: int, end: int) -> int
    recommends
        0 <= i <= end <= s.len(),
    decreases end - i when i <= end
{
    if end <= i {
        0
    } else {
        digits_val(s, i, end - 1) * 10 + digit_val(s[end - 1])
    }
}

/// An integer literal at position `i`: an optional minus sign and a digit
/// run, whose value must fit a 32-bit signed integer.  Yields the value and
/// the position after the run.
pub open spec fn spec_parse_i32(s: Seq<char>, i: int) -> Option<(int, int)> {
    let n = s.len() as int;
    if 0 <= i && i < n && s[i] == '-' {
        let e = scan_digits(s, i + 1);
        if e == i + 1 {
            None
        } else {
            let v = digits_val(s, i + 1, e);
            if v <= 2147483648 {
                Some((-v, e))
            } else {
                None
            }
        }
    } else {
        let e = scan_digits(s, i);
        if e == i {
            None
        } else {
            let v = digits_val(s, i, e);
            if v <= 2147483647 {
                Some((v, e))
            } else {
                None
            }
        }
    }
}

proof fn lemma_digits_val_nonneg(s: Seq<char>, i: int, end: int)
    requires
        i <= end,
    ensures
        digits_val(s, i, end) >= 0,
    decreases end - i,
{
    if i < end {
        lemma_digits_val_nonneg(s, i, end - 1);
    }
}

proof fn lemma_digits_val_mono(s: Seq<char>, i: int, k: int, end: int)
    requires
        i <= k <= end,
    ensures
        digits_val(s, i, end) >= digits_val(s, i, k),
    decreases end - k,
{
    if k < end {
        lemma_digits_val_mono(s, i, k, end - 1);
        lemma_digits_val_nonneg(s, i, end - 1);
    }
}

fn scan_digits_at(s: &str, i: usize) -> (r: usize)
    requires
        i <= s@.len(),
    ensures
        r == scan_digits(s@, i as int),
        i <= r <= s@.len(),
    decreases s@.len() - i,
{
    let n = s.unicode_len();
    if i == n {
        i
    } else {
        let u = s.get_char(i) as u32;
        if 48 <= u && u <= 57 {
            scan_digits_at(s, i + 1)
        } else {
            i
        }
    }
}

pub(crate) fn parse_i32_at(s: &str, i: usize) -> (r: Option<(i32, usize)>)
    requires
        i <= s@.len(),
    ensures
        match r {
            Some((v, e)) => spec_parse_i32(s@, i as int) == Some((v as int, e as int)) && i < e
                <= s@.len(),
            None => spec_parse_i32(s@, i as int) is None,
        },
{
    let n = s.unicode_len();
    let neg = i < n && s.get_char(i) == '-';
    let d0 = if neg {
        i + 1
    } else {
        i
    };
    let e = scan_digits_at(s, d0);
    if e == d0 {
        return None;
    }
    let mut k = d0;
    let mut acc: i64 = 0;
    while k < e
        invariant
            i <= d0 <= k <= e <= n,
            n == s@.len(),
            neg == (i < n && s@[i as int] == '-'),
            d0 == if neg { i + 1 } else { i as int },
            e == scan_digits(s@, d0 as int),
            e != d0,
            acc == digits_val(s@, d0 as int, k as int),
            0 <= acc <= 2147483648,
        decreases e - k,
    {
        let c = s.get_char(k);
        let u = c as u32;
        let d: i64 = if 48 <= u && u <= 57 {
            (u - 48) as i64
        } else {
            10
        };
        let next = acc * 10 + d;
        proof {
            assert(digits_val(s@, d0 as int, k as int + 1) == acc * 10 + digit_val(
                s@[k as int],
            ));
            assert(digit_val(s@[k as int]) == d);
        }
        if next > 2147483648 {
            proof {
                lemma_digits_val_mono(s@, d0 as int, k as int + 1, e as int);
                assert(digits_val(s@, d0 as int, e as int) > 2147483648);
            }
            return None;
        }
        acc = next;
        k = k + 1;
    }
    if neg {
        Some(((-acc) as i32, e))
    } else {
        if acc <= 2147483647 {
            Some((acc as i32, e))
        } else {
            None
        }
    }
}

/// Value of a hexadecimal digit character, either case; 16 for anything
/// else.
pub open spec fn hex_val(c: char) -> int {
    if is_digit(c) {
        c as u32 - 48
    } else if 97 <= c as u32 && c as u32 <= 102 {
        c as u32 - 87
    } else if 65 <= c as u32 && c as u32 <= 70 {
        c as u32 - 55
    } else {
        16
    }
}

/// A hexadecimal digit character.
pub open spec fn is_hex(c: char) -> bool {
    hex_val(c) < 16
}

/// The character `char::from_u32` decodes a scalar value to: the character
/// whose code is `v`.
pub uninterp spec fn char_of_code(v: u32) -> char;

/// Relies on char::from_u32: a Unicode scalar value decodes to the
/// character with that code — named `char_of_code` — and surrogate values
/// and values above the maximum yield nothing.
#[verifier::external_body]
fn char_from_u32(v: u32) -> (r: Option<char>)
    ensures
        (r is Some) <==> (v < 0xD800 || (0xE000 <= v && v <= 0x10FFFF)),
        r is Some ==> r->0 == char_of_code(v) && r->0 as u32 == v,
{
    char::from_u32(v)
}

fn hex_val_at(c: char) -> (d: u32)
    ensures
        d == hex_val(c),
{
    let u = c as u32;
    if 48 <= u && u <= 57 {
        u - 48
    } else if 97 <= u && u <= 102 {
        u - 87
    } else if 65 <= u && u <= 70 {
        u - 55
    } else {
        16
    }
}

/// The character a single-letter JSON escape denotes, if the letter is one
/// of JSON's.
pub open spec fn esc_char(c: char) -> Option<char> {
    if c == '"' {
        Some('"')
    } else if c == '\\' {
        Some('\\')
    } else if c == '/' {
        Some('/')
    } else if c == 'b' {
        Some('\u{8}')
    } else if c == 'f' {
        Some('\u{c}')
    } else if c == 'n' {
        Some('\n')
    } else if c == 'r' {
        Some('\r')
    } else if c == 't' {
        Some('\t')
    } else {
        None
    }
}

/// The decoded text and end of a string body at `i`, just after the opening
/// quote: characters up to the closing quote, with JSON's single-letter
/// escapes and `\uXXXX` escapes of scalar values decoded.  A raw control
/// character, a lone or unknown escape, a surrogate code — pairs are not
/// combined — or a missing closing quote makes the string malformed.
pub open spec fn spec_str_chars(s: Seq<char>, i: int) -> Option<(Seq<char>, int)>
    decreases s.len() - i when 0 <= i <= s.len()
{
    if i >= s.len() {
        None
    } else if s[i] == '"' {
        Some((Seq::<char>::empty(), i + 1))
    } else if s[i] == '\\' {
        if i + 1 >= s.len() {
            None
        } else if s[i + 1] == 'u' {
            if i + 6 <= s.len() && is_hex(s[i + 2]) && is_hex(s[i + 3]) && is_hex(s[i + 4])
                && is_hex(s[i + 5]) {
                let v = hex_val(s[i + 2]) * 4096 + hex_val(s[i + 3]) * 256 + hex_val(s[i + 4]) * 16
                    + hex_val(s[i + 5]);
                if 0xD800 <= v && v <= 0xDFFF {
                    None
                } else {
                    match spec_str_chars(s, i + 6) {
                        None => None,
                        Some((rest, e)) => Some((seq![char_of_code(v as u32)] + rest, e)),
                    }
                }
            } else {
                None
            }
        } else {
            match esc_char(s[i + 1]) {
                None => None,
                Some(d) => match spec_str_chars(s, i + 2) {
                    None => None,
                    Some((rest, e)) => Some((seq![d] + rest, e)),
                },
            }
        }
    } else if (s[i] as u32) < 32 {
        None
    } else {
        match spec_str_chars(s, i + 1) {
            None => None,
            Some((rest, e)) => Some((seq![s[i]] + rest, e)),
        }
    }
}

/// A string literal at position `i`: a quote, then a string body.  Yields
/// the decoded text and the position after the closing quote.
pub open spec fn spec_parse_str(s: Seq<char>, i: int) -> Option<(Seq<char>, int)> {
    if 0 <= i && i < s.len() && s[i] == '"' {
        spec_str_chars(s, i + 1)
    } else {
        None
    }
}

proof fn lemma_str_chars_end(s: Seq<char>, i: int)
    requires
        0 <= i <= s.len(),
        spec_str_chars(s, i) is Some,
    ensures
        i < (spec_str_chars(s, i)->0).1 <= s.len(),
    decreases s.len() - i,
{
    if i < s.len() && s[i] != '"' {
        if s[i] == '\\' {
            if i + 1 < s.len() && s[i + 1] == 'u' {
                if i + 6 <= s.len() {
                    lemma_str_chars_end(s, i + 6);
                }
            } else {
                lemma_str_chars_end(s, i + 2);
            }
        } else {
            lemma_str_chars_end(s, i + 1);
        }
    }
}

/// Relies on String::push: appends exactly the one character.
#[verifier::external_body]
fn push_char(out: &mut String, c: char)
    ensures
        final(out)@ == old(out)@ + seq![c],
{
    out.push(c);
}

fn parse_str_chars_at(s: &str, i: usize, out: &mut String) -> (r: Option<usize>)
    requires
        i <= s@.len(),
    ensures
        match r {
            Some(e) => spec_str_chars(s@, i as int) is Some && (spec_str_chars(s@, i as int)->0).1
                == e as int && final(out)@ == old(out)@ + (spec_str_chars(s@, i as int)->0).0 && i
                < e <= s@.len(),
            None => spec_str_chars(s@, i as int) is None,
        },
    decreases s@.len() - i,
{
    let ghost out0 = out@;
    let n = s.unicode_len();
    if i == n {
        return None;
    }
    let c = s.get_char(i);
    if c == '"' {
        proof {
            assert(out@ =~= out0 + (spec_str_chars(s@, i as int)->0).0);
        }
        return Some(i + 1);
    }
    if c == '\\' {
        if i + 1 == n {
            return None;
        }
        let d = s.get_char(i + 1);
        if d == 'u' {
            if n - i < 6 {
                return None;
            }
            let h1 = hex_val_at(s.get_char(i + 2));
            let h2 = hex_val_at(s.get_char(i + 3));
            let h3 = hex_val_at(s.get_char(i + 4));
            let h4 = hex_val_at(s.get_char(i + 5));
            if h1 > 15 || h2 > 15 || h3 > 15 || h4 > 15 {
                return None;
            }
            let v: u32 = h1 * 4096 + h2 * 256 + h3 * 16 + h4;
            let c2 = match char_from_u32(v) {
                Some(c2) => c2,
                None => {
                    return None;
                },
            };
            push_char(out, c2);
            let r = parse_str_chars_at(s, i + 6, out);
            proof {
                if r is Some {
                    assert(out@ =~= out0 + (spec_str_chars(s@, i as int)->0).0);
                }
            }
            return r;
        }
        let dec: char = if d == '"' {
            '"'
        } else if d == '\\' {
            '\\'
        } else if d == '/' {
            '/'
        } else if d == 'b' {
            '\u{8}'
        } else if d == 'f' {
            '\u{c}'
        } else if d == 'n' {
            '\n'
        } else if d == 'r' {
            '\r'
        } else if d == 't' {
            '\t'
        } else {
            return None;
        };
        push_char(out, dec);
        let r = parse_str_chars_at(s, i + 2, out);
        proof {
            if r is Some {
                assert(out@ =~= out0 + (spec_str_chars(s@, i as int)->0).0);
            }
        }
        return r;
    }
    if (c as u32) < 32 {
        return None;
    }
    push_char(out, c);
    let r = parse_str_chars_at(s, i + 1, out);
    proof {
        if r is Some {
            assert(out@ =~= out0 + (spec_str_chars(s@, i as int)->0).0);
        }
    }
    r
}

fn parse_str_at(s: &str, i: usize) -> (r: Option<(String, usize)>)
    requires
        i <= s@.len(),
    ensures
        match r {
            Some((t, e)) => spec_parse_str(s@, i as int) == Some((t@, e as int)) && i < e
                <= s@.len(),
            None => spec_parse_str(s@, i as int) is None,
        },
{
    let n = s.unicode_len();
    if !(i < n && s.get_char(i) == '"') {
        return None;
    }
    let mut t = String::new();
    match parse_str_chars_at(s, i + 1, &mut t) {
        Some(e) => {
            proof {
                assert(t@ =~= (spec_str_chars(s@, i as int + 1)->0).0);
            }
            Some((t, e))
        },
        None => None,
    }
}

fn skip_str_chars_at(s: &str, i: usize) -> (r: Option<usize>)
    requires
        i <= s@.len(),
    ensures
        match r {
            Some(e) => spec_str_chars(s@, i as int) is Some && (spec_str_chars(s@, i as int)->0).1
                == e as int && i < e <= s@.len(),
            None => spec_str_chars(s@, i as int) is None,
        },
    decreases s@.len() - i,
{
    let n = s.unicode_len();
    if i == n {
        return None;
    }
    let c = s.get_char(i);
    if c == '"' {
        return Some(i + 1);
    }
    if c == '\\' {
        if i + 1 == n {
            return None;
        }
        let d = s.get_char(i + 1);
        if d == 'u' {
            if n - i < 6 {
                return None;
            }
            let h1 = hex_val_at(s.get_char(i + 2));
            let h2 = hex_val_at(s.get_char(i + 3));
            let h3 = hex_val_at(s.get_char(i + 4));
            let h4 = hex_val_at(s.get_char(i + 5));
            if h1 > 15 || h2 > 15 || h3 > 15 || h4 > 15 {
                return None;
            }
            let v: u32 = h1 * 4096 + h2 * 256 + h3 * 16 + h4;
            if 0xD800 <= v && v <= 0xDFFF {
                return None;
            }
            return skip_str_chars_at(s, i + 6);
        }
        let known = d == '"' || d == '\\' || d == '/' || d == 'b' || d == 'f' || d == 'n' || d
            == 'r' || d == 't';
        if !known {
            return None;
        }
        return skip_str_chars_at(s, i + 2);
    }
    if (c as u32) < 32 {
        return None;
    }
    skip_str_chars_at(s, i + 1)
}

/// End of an optional JSON fraction part at `i`: nothing, or a dot
/// followed by at least one digit.  A dot without digits is malformed.
pub open spec fn json_frac_end(s: Seq<char>, i: int) -> Option<int> {
    let n = s.len() as int;
    if i < n && s[i] == '.' {
        let e = scan_digits(s, i + 1);
        if e == i + 1 {
            None
        } else {
            Some(e)
        }
    } else {
        Some(i)
    }
}

/// End of an optional JSON exponent part at `i`: nothing, or `e`/`E`, an
/// optional sign, and at least one digit.  An exponent mark without digits
/// is malformed.
pub open spec fn json_exp_end(s: Seq<char>, i: int) -> Option<int> {
    let n = s.len() as int;
    if i < n && (s[i] == 'e' || s[i] == 'E') {
        let d = if i + 1 < n && (s[i + 1] == '+' || s[i + 1] == '-') {
            i + 2
        } else {
            i + 1
        };
        let e = scan_digits(s, d);
        if e == d {
            None
        } else {
            Some(e)
        }
    } else {
        Some(i)
    }
}

/// End of a JSON number at `i`: an optional minus sign, an integer part
/// with no leading zero, then the optional fraction and exponent parts.
pub open spec fn json_num_end(s: Seq<char>, i: int) -> Option<int> {
    let n = s.len() as int;
    let d0 = if i < n && s[i] == '-' {
        i + 1
    } else {
        i
    };
    let e1 = scan_digits(s, d0);
    if e1 == d0 {
        None
    } else if s[d0] == '0' && e1 > d0 + 1 {
        None
    } else {
        match json_frac_end(s, e1) {
            None => None,
            Some(e2) => json_exp_end(s, e2),
        }
    }
}

/// Text that is one whole JSON number.
pub open spec fn num_text_ok(s: Seq<char>) -> bool {
    json_num_end(s, 0) == Some(s.len() as int)
}

/// A car the serializer turns into well-formed JSON: its text fields are
/// escaped on output, so only the price — placed verbatim — must itself be
/// one JSON number.
pub open spec fn car_valid(c: Car) -> bool {
    num_text_ok(c.price@)
}

fn json_num_end_at(s: &str, i: usize) -> (r: Option<usize>)
    requires
        i <= s@.len(),
    ensures
        match r {
            Some(e) => json_num_end(s@, i as int) == Some(e as int) && i < e <= s@.len(),
            None => json_num_end(s@, i as int) is None,
        },
{
    let n = s.unicode_len();
    let d0 = if i < n && s.get_char(i) == '-' {
        i + 1
    } else {
        i
    };
    let e1 = scan_digits_at(s, d0);
    if e1 == d0 {
        return None;
    }
    if s.get_char(d0) == '0' && e1 > d0 + 1 {
        return None;
    }
    let e2: usize;
    if e1 < n && s.get_char(e1) == '.' {
        let ef = scan_digits_at(s, e1 + 1);
        if ef == e1 + 1 {
            return None;
        }
        e2 = ef;
    } else {
        e2 = e1;
    }
    if e2 < n && (s.get_char(e2) == 'e' || s.get_char(e2) == 'E') {
        let d = if e2 + 1 < n && (s.get_char(e2 + 1) == '+' || s.get_char(e2 + 1) == '-') {
            e2 + 2
        } else {
            e2 + 1
        };
        let ee = scan_digits_at(s, d);
        if ee == d {
            return None;
        }
        Some(ee)
    } else {
        Some(e2)
    }
}

proof fn lemma_scan_digits_ge(s: Seq<char>, i: int)
    requires
        0 <= i <= s.len(),
    ensures
        i <= scan_digits(s, i) <= s.len(),
    decreases s.len() - i,
{
    if i < s.len() && is_digit(s[i]) {
        lemma_scan_digits_ge(s, i + 1);
    }
}

/// A digit run that ends by `e` scans the same inside the cut-out `[i, e)`.
proof fn lemma_scan_digits_subrange(s: Seq<char>, i: int, k: int, e: int)
    requires
        0 <= i <= k <= e <= s.len(),
        scan_digits(s, k) <= e,
    ensures
        scan_digits(s.subrange(i, e), k - i) == scan_digits(s, k) - i,
    decreases e - k,
{
    let sub = s.subrange(i, e);
    if k == e {
        lemma_scan_digits_ge(s, k);
    } else {
        assert(sub[k - i] == s[k]);
        if is_digit(s[k]) {
            lemma_scan_digits_subrange(s, i, k + 1, e);
        }
    }
}

proof fn lemma_json_frac_end_ge(s: Seq<char>, i: int)
    requires
        0 <= i <= s.len(),
        json_frac_end(s, i) is Some,
    ensures
        i <= json_frac_end(s, i)->0 <= s.len(),
{
    if i < s.len() && s[i] == '.' {
        lemma_scan_digits_ge(s, i + 1);
    }
}

proof fn lemma_json_exp_end_ge(s: Seq<char>, i: int)
    requires
        0 <= i <= s.len(),
        json_exp_end(s, i) is Some,
    ensures
        i <= json_exp_end(s, i)->0 <= s.len(),
{
    let n = s.len() as int;
    if i < n && (s[i] == 'e' || s[i] == 'E') {
        let d = if i + 1 < n && (s[i + 1] == '+' || s[i + 1] == '-') {
            i + 2
        } else {
            i + 1
        };
        lemma_scan_digits_ge(s, d);
    }
}

/// A fraction part that ends by `e` parses the same inside `[i, e)`.
proof fn lemma_json_frac_end_subrange(s: Seq<char>, i: int, k: int, e: int)
    requires
        0 <= i <= k <= e <= s.len(),
        json_frac_end(s, k) is Some,
        json_frac_end(s, k)->0 <= e,
    ensures
        json_frac_end(s.subrange(i, e), k - i) == Some(json_frac_end(s, k)->0 - i),
{
    let sub = s.subrange(i, e);
    if k < e {
        assert(sub[k - i] == s[k]);
        if s[k] == '.' {
            lemma_scan_digits_subrange(s, i, k + 1, e);
        }
    } else {
        if k < s.len() && s[k] == '.' {
            lemma_scan_digits_ge(s, k + 1);
        }
    }
}

/// An exponent part that ends by `e` parses the same inside `[i, e)`.
proof fn lemma_json_exp_end_subrange(s: Seq<char>, i: int, k: int, e: int)
    requires
        0 <= i <= k <= e <= s.len(),
        json_exp_end(s, k) is Some,
        json_exp_end(s, k)->0 <= e,
    ensures
        json_exp_end(s.subrange(i, e), k - i) == Some(json_exp_end(s, k)->0 - i),
{
    let n = s.len() as int;
    let sub = s.subrange(i, e);
    if k < e {
        assert(sub[k - i] == s[k]);
        if s[k] == 'e' || s[k] == 'E' {
            let d = if k + 1 < n && (s[k + 1] == '+' || s[k + 1] == '-') {
                k + 2
            } else {
                k + 1
            };
            lemma_scan_digits_ge(s, d);
            assert(k + 1 < e) by {
                if k + 1 >= e {
                    lemma_scan_digits_ge(s, d);
                }
            }
            assert(sub[k + 1 - i] == s[k + 1]);
            lemma_scan_digits_subrange(s, i, d, e);
        }
    } else {
        if k < n && (s[k] == 'e' || s[k] == 'E') {
            let d = if k + 1 < n && (s[k + 1] == '+' || s[k + 1] == '-') {
                k + 2
            } else {
                k + 1
            };
            lemma_scan_digits_ge(s, d);
        }
    }
}

/// A JSON number found in `s` is one whole JSON number when cut out.
proof fn lemma_json_num_end_subrange(s: Seq<char>, i: int)
    requires
        0 <= i <= s.len(),
        json_num_end(s, i) is Some,
    ensures
        i < json_num_end(s, i)->0 <= s.len(),
        json_num_end(s.subrange(i, json_num_end(s, i)->0), 0) == Some(
            json_num_end(s, i)->0 - i,
        ),
{
    let n = s.len() as int;
    let d0 = if i < n && s[i] == '-' {
        i + 1
    } else {
        i
    };
    lemma_scan_digits_ge(s, d0);
    let e1 = scan_digits(s, d0);
    let e2 = json_frac_end(s, e1)->0;
    lemma_json_frac_end_ge(s, e1);
    lemma_json_exp_end_ge(s, e2);
    let e = json_num_end(s, i)->0;
    let sub = s.subrange(i, e);
    assert(i < e <= s.len());
    lemma_scan_digits_subrange(s, i, d0, e);
    lemma_json_frac_end_subrange(s, i, e1, e);
    lemma_json_exp_end_subrange(s, i, e2, e);
    assert(sub[d0 - i] == s[d0]);
    if i < n && s[i] == '-' {
        assert(sub[0] == s[i]);
    }
    assert(json_num_end(sub, 0) == Some(e - i));
}

/// A number token at position `i`: one JSON number.  Yields the token's
/// text and the position after it.
pub open spec fn spec_parse_num(s: Seq<char>, i: int) -> Option<(Seq<char>, int)> {
    match json_num_end(s, i) {
        Some(e) => Some((s.subrange(i, e), e)),
        None => None,
    }
}

fn parse_num_at(s: &str, i: usize) -> (r: Option<(String, usize)>)
    requires
        i <= s@.len(),
    ensures
        match r {
            Some((t, e)) => spec_parse_num(s@, i as int) == Some((t@, e as int)) && num_text_ok(t@)
                && i < e <= s@.len(),
            None => spec_parse_num(s@, i as int) is None,
        },
{
    match json_num_end_at(s, i) {
        Some(e) => {
            let t = s.substring_char(i, e).to_owned();
            proof {
                lemma_json_num_end_subrange(s@, i as int);
            }
            Some((t, e))
        },
        None => None,
    }
}

/// A body integer at position `i`: an optional minus sign and digits with
/// no leading zero, whose value must fit a 32-bit signed integer.
pub open spec fn spec_parse_json_int(s: Seq<char>, i: int) -> Option<(int, int)> {
    let n = s.len() as int;
    let d0 = if 0 <= i && i < n && s[i] == '-' {
        i + 1
    } else {
        i
    };
    if d0 < n && s[d0] == '0' && d0 + 1 < n && is_digit(s[d0 + 1]) {
        None
    } else {
        spec_parse_i32(s, i)
    }
}

fn parse_json_int_at(s: &str, i: usize) -> (r: Option<(i32, usize)>)
    requires
        i <= s@.len(),
    ensures
        match r {
            Some((v, e)) => spec_parse_json_int(s@, i as int) == Some((v as int, e as int)) && i
                < e <= s@.len(),
            None => spec_parse_json_int(s@, i as int) is None,
        },
{
    let n = s.unicode_len();
    let d0 = if i < n && s.get_char(i) == '-' {
        i + 1
    } else {
        i
    };
    if d0 < n && s.get_char(d0) == '0' && d0 + 1 < n {
        let u = s.get_char(d0 + 1) as u32;
        if 48 <= u && u <= 57 {
            return None;
        }
    }
    parse_i32_at(s, i)
}

/// End of any JSON value at `i`: a string, a number, `true`, `false`,
/// `null`, an object or an array, with nesting depth bounded by `fuel`.
pub open spec fn spec_skip_value(s: Seq<char>, i: int, fuel: nat) -> Option<int>
    decreases fuel,
{
    if fuel == 0 {
        None
    } else {
        let n = s.len() as int;
        if i >= n {
            None
        } else if s[i] == '"' {
            match spec_str_chars(s, i + 1) {
                None => None,
                Some((t, e)) => Some(e),
            }
        } else if match_at(s, i, "true"@) {
            Some(i + 4)
        } else if match_at(s, i, "false"@) {
            Some(i + 5)
        } else if match_at(s, i, "null"@) {
            Some(i + 4)
        } else if s[i] == '{' {
            spec_skip_members(s, skip_ws(s, i + 1, n), (fuel - 1) as nat, true)
        } else if s[i] == '[' {
            spec_skip_elems(s, skip_ws(s, i + 1, n), (fuel - 1) as nat, true)
        } else {
            json_num_end(s, i)
        }
    }
}

/// End of an object's members at `i`: key-value pairs separated by commas,
/// closed by `}`; `first` allows the empty object.
pub open spec fn spec_skip_members(s: Seq<char>, i: int, fuel: nat, first: bool) -> Option<int>
    decreases fuel,
{
    if fuel == 0 {
        None
    } else {
        let n = s.len() as int;
        if first && i < n && s[i] == '}' {
            Some(i + 1)
        } else {
            match spec_parse_str(s, i) {
                None => None,
                Some((key, ke)) => {
                    let j = skip_ws(s, ke, n);
                    if !(j < n && s[j] == ':') {
                        None
                    } else {
                        match spec_skip_value(s, skip_ws(s, j + 1, n), (fuel - 1) as nat) {
                            None => None,
                            Some(e) => {
                                let c = skip_ws(s, e, n);
                                if c < n && s[c] == ',' {
                                    spec_skip_members(s, skip_ws(s, c + 1, n), (fuel - 1) as nat, false)
                                } else if c < n && s[c] == '}' {
                                    Some(c + 1)
                                } else {
                                    None
                                }
                            },
                        }
                    }
                },
            }
        }
    }
}

/// End of an array's elements at `i`: values separated by commas, closed by
/// `]`; `first` allows the empty array.
pub open spec fn spec_skip_elems(s: Seq<char>, i: int, fuel: nat, first: bool) -> Option<int>
    decreases fuel,
{
    if fuel == 0 {
        None
    } else {
        let n = s.len() as int;
        if first && i < n && s[i] == ']' {
            Some(i + 1)
        } else {
            match spec_skip_value(s, i, (fuel - 1) as nat) {
                None => None,
                Some(e) => {
                    let c = skip_ws(s, e, n);
                    if c < n && s[c] == ',' {
                        spec_skip_elems(s, skip_ws(s, c + 1, n), (fuel - 1) as nat, false)
                    } else if c < n && s[c] == ']' {
                        Some(c + 1)
                    } else {
                        None
                    }
                },
            }
        }
    }
}

proof fn lemma_skip_value_end(s: Seq<char>, i: int, fuel: nat)
    requires
        0 <= i <= s.len(),
        spec_skip_value(s, i, fuel) is Some,
    ensures
        i < spec_skip_value(s, i, fuel)->0 <= s.len(),
    decreases fuel,
{
    reveal_strlit("true");
    reveal_strlit("false");
    reveal_strlit("null");
    let n = s.len() as int;
    if s[i] == '"' {
        lemma_str_chars_end(s, i + 1);
    } else if match_at(s, i, "true"@) || match_at(s, i, "false"@) || match_at(s, i, "null"@) {
    } else if s[i] == '{' {
        lemma_skip_ws_bounds(s, i + 1, n);
        lemma_skip_members_end(s, skip_ws(s, i + 1, n), (fuel - 1) as nat, true);
    } else if s[i] == '[' {
        lemma_skip_ws_bounds(s, i + 1, n);
        lemma_skip_elems_end(s, skip_ws(s, i + 1, n), (fuel - 1) as nat, true);
    } else {
        lemma_json_num_end_subrange(s, i);
    }
}

proof fn lemma_skip_members_end(s: Seq<char>, i: int, fuel: nat, first: bool)
    requires
        0 <= i <= s.len(),
        spec_skip_members(s, i, fuel, first) is Some,
    ensures
        i < spec_skip_members(s, i, fuel, first)->0 <= s.len(),
    decreases fuel,
{
    let n = s.len() as int;
    if first && i < n && s[i] == '}' {
    } else {
        lemma_str_chars_end(s, i + 1);
        let ke = (spec_parse_str(s, i)->0).1;
        lemma_skip_ws_bounds(s, ke, n);
        let j = skip_ws(s, ke, n);
        lemma_skip_ws_bounds(s, j + 1, n);
        let v = skip_ws(s, j + 1, n);
        lemma_skip_value_end(s, v, (fuel - 1) as nat);
        let e = spec_skip_value(s, v, (fuel - 1) as nat)->0;
        lemma_skip_ws_bounds(s, e, n);
        let c = skip_ws(s, e, n);
        if c < n && s[c] == ',' {
            lemma_skip_ws_bounds(s, c + 1, n);
            lemma_skip_members_end(s, skip_ws(s, c + 1, n), (fuel - 1) as nat, false);
        }
    }
}

proof fn lemma_skip_elems_end(s: Seq<char>, i: int, fuel: nat, first: bool)
    requires
        0 <= i <= s.len(),
        spec_skip_elems(s, i, fuel, first) is Some,
    ensures
        i < spec_skip_elems(s, i, fuel, first)->0 <= s.len(),
    decreases fuel,
{
    let n = s.len() as int;
    if first && i < n && s[i] == ']' {
    } else {
        lemma_skip_value_end(s, i, (fuel - 1) as nat);
        let e = spec_skip_value(s, i, (fuel - 1) as nat)->0;
        lemma_skip_ws_bounds(s, e, n);
        let c = skip_ws(s, e, n);
        if c < n && s[c] == ',' {
            lemma_skip_ws_bounds(s, c + 1, n);
            lemma_skip_elems_end(s, skip_ws(s, c + 1, n), (fuel - 1) as nat, false);
        }
    }
}

fn skip_value_at(s: &str, i: usize, fuel: usize) -> (r: Option<usize>)
    requires
        i <= s@.len(),
    ensures
        match r {
            Some(e) => spec_skip_value(s@, i as int, fuel as nat) == Some(e as int) && i < e
                <= s@.len(),
            None => spec_skip_value(s@, i as int, fuel as nat) is None,
        },
    decreases fuel,
{
    if fuel == 0 {
        return None;
    }
    let n = s.unicode_len();
    if i == n {
        return None;
    }
    let c = s.get_char(i);
    if c == '"' {
        return skip_str_chars_at(s, i + 1);
    }
    if starts_with_at(s, i, "true") {
        proof {
            reveal_strlit("true");
        }
        return Some(i + 4);
    }
    if starts_with_at(s, i, "false") {
        proof {
            reveal_strlit("false");
        }
        return Some(i + 5);
    }
    if starts_with_at(s, i, "null") {
        proof {
            reveal_strlit("null");
        }
        return Some(i + 4);
    }
    if c == '{' {
        return skip_members_at(s, skip_ws_at(s, i + 1, n), fuel - 1, true);
    }
    if c == '[' {
        return skip_elems_at(s, skip_ws_at(s, i + 1, n), fuel - 1, true);
    }
    json_num_end_at(s, i)
}

fn skip_members_at(s: &str, i: usize, fuel: usize, first: bool) -> (r: Option<usize>)
    requires
        i <= s@.len(),
    ensures
        match r {
            Some(e) => spec_skip_members(s@, i as int, fuel as nat, first) == Some(e as int) && i
                < e <= s@.len(),
            None => spec_skip_members(s@, i as int, fuel as nat, first) is None,
        },
    decreases fuel,
{
    if fuel == 0 {
        return None;
    }
    let n = s.unicode_len();
    if first && i < n && s.get_char(i) == '}' {
        return Some(i + 1);
    }
    if !(i < n && s.get_char(i) == '"') {
        return None;
    }
    let ke = match skip_str_chars_at(s, i + 1) {
        Some(e) => e,
        None => {
            return None;
        },
    };
    let j = skip_ws_at(s, ke, n);
    if !(j < n && s.get_char(j) == ':') {
        return None;
    }
    let e = match skip_value_at(s, skip_ws_at(s, j + 1, n), fuel - 1) {
        Some(e) => e,
        None => {
            return None;
        },
    };
    let c = skip_ws_at(s, e, n);
    if c < n && s.get_char(c) == ',' {
        skip_members_at(s, skip_ws_at(s, c + 1, n), fuel - 1, false)
    } else if c < n && s.get_char(c) == '}' {
        Some(c + 1)
    } else {
        None
    }
}

fn skip_elems_at(s: &str, i: usize, fuel: usize, first: bool) -> (r: Option<usize>)
    requires
        i <= s@.len(),
    ensures
        match r {
            Some(e) => spec_skip_elems(s@, i as int, fuel as nat, first) == Some(e as int) && i < e
                <= s@.len(),
            None => spec_skip_elems(s@, i as int, fuel as nat, first) is None,
        },
    decreases fuel,
{
    if fuel == 0 {
        return None;
    }
    let n = s.unicode_len();
    if first && i < n && s.get_char(i) == ']' {
        return Some(i + 1);
    }
    let e = match skip_value_at(s, i, fuel - 1) {
        Some(e) => e,
        None => {
            return None;
        },
    };
    let c = skip_ws_at(s, e, n);
    if c < n && s.get_char(c) == ',' {
        skip_elems_at(s, skip_ws_at(s, c + 1, n), fuel - 1, false)
    } else if c < n && s.get_char(c) == ']' {
        Some(c + 1)
    } else {
        None
    }
}

/// An id member's value: `null` for an absent id, or an integer.
pub open spec fn spec_parse_id_value(s: Seq<char>, i: int) -> Option<(Option<i32>, int)> {
    if match_at(s, i, "null"@) {
        Some((None, i + 4))
    } else {
        match spec_parse_json_int(s, i) {
            Some((v, e)) => Some((Some(v as i32), e)),
            None => None,
        }
    }
}

/// The fields a body has supplied so far, each at most once.
pub struct CarAcc {
    pub id: Option<Option<i32>>,
    pub brand: Option<Seq<char>>,
    pub model: Option<Seq<char>>,
    pub year: Option<i32>,
    pub price: Option<Seq<char>>,
}

/// No field supplied yet.
pub open spec fn empty_acc() -> CarAcc {
    CarAcc { id: None, brand: None, model: None, year: None, price: None }
}

/// One member at position `i`: a key string, a colon, and a value.  A
/// known key — `id`, `brand`, `model`, `year`, `price`, compared after
/// decoding — must not have been seen before and takes a value of its type:
/// `null` or an integer for `id`, strings for `brand` and `model`, an
/// integer for `year`, a number for `price`.  A member with any other key
/// is skipped over, whatever JSON value it holds.  Yields the fields with
/// the member taken in and the position after the value.
pub open spec fn spec_parse_member(s: Seq<char>, i: int, acc: CarAcc) -> Option<(CarAcc, int)> {
    let n = s.len() as int;
    match spec_parse_str(s, i) {
        None => None,
        Some((key, ke)) => {
            let j = skip_ws(s, ke, n);
            if !(j < n && s[j] == ':') {
                None
            } else {
                let v = skip_ws(s, j + 1, n);
                if key == "id"@ {
                    if acc.id is Some {
                        None
                    } else {
                        match spec_parse_id_value(s, v) {
                            None => None,
                            Some((idv, e)) => Some((CarAcc { id: Some(idv), ..acc }, e)),
                        }
                    }
                } else if key == "brand"@ {
                    if acc.brand is Some {
                        None
                    } else {
                        match spec_parse_str(s, v) {
                            None => None,
                            Some((t, e)) => Some((CarAcc { brand: Some(t), ..acc }, e)),
                        }
                    }
                } else if key == "model"@ {
                    if acc.model is Some {
                        None
                    } else {
                        match spec_parse_str(s, v) {
                            None => None,
                            Some((t, e)) => Some((CarAcc { model: Some(t), ..acc }, e)),
                        }
                    }
                } else if key == "year"@ {
                    if acc.year is Some {
                        None
                    } else {
                        match spec_parse_json_int(s, v) {
                            None => None,
                            Some((y, e)) => Some((CarAcc { year: Some(y as i32), ..acc }, e)),
                        }
                    }
                } else if key == "price"@ {
                    if acc.price is Some {
                        None
                    } else {
                        match spec_parse_num(s, v) {
                            None => None,
                            Some((t, e)) => Some((CarAcc { price: Some(t), ..acc }, e)),
                        }
                    }
                } else {
                    match spec_skip_value(s, v, s.len() as nat) {
                        None => None,
                        Some(e) => Some((acc, e)),
                    }
                }
            }
        },
    }
}

proof fn lemma_skip_ws_bounds(s: Seq<char>, i: int, end: int)
    requires
        0 <= i <= end <= s.len(),
    ensures
        i <= skip_ws(s, i, end) <= end,
    decreases end - i,
{
    if i < end && crate::codec::is_ws(s[i]) {
        lemma_skip_ws_bounds(s, i + 1, end);
    }
}

/// A member's value ends strictly after the member begins, and within the
/// text.
proof fn lemma_member_end(s: Seq<char>, i: int, acc: CarAcc)
    requires
        0 <= i <= s.len(),
        spec_parse_member(s, i, acc) is Some,
    ensures
        i < (spec_parse_member(s, i, acc)->0).1 <= s.len(),
{
    let n = s.len() as int;
    lemma_str_chars_end(s, i + 1);
    let ke = (spec_parse_str(s, i)->0).1;
    let key = (spec_parse_str(s, i)->0).0;
    lemma_skip_ws_bounds(s, ke, n);
    let j = skip_ws(s, ke, n);
    lemma_skip_ws_bounds(s, j + 1, n);
    let v = skip_ws(s, j + 1, n);
    if key == "id"@ {
        lemma_value_end(s, v);
    } else if key == "brand"@ || key == "model"@ {
        lemma_str_chars_end(s, v + 1);
    } else if key == "year"@ {
        lemma_json_int_end(s, v);
    } else if key == "price"@ {
        lemma_json_num_end_subrange(s, v);
    } else {
        lemma_skip_value_end(s, v, s.len() as nat);
    }
}

proof fn lemma_value_end(s: Seq<char>, v: int)
    requires
        0 <= v <= s.len(),
        spec_parse_id_value(s, v) is Some,
    ensures
        v < (spec_parse_id_value(s, v)->0).1 <= s.len(),
{
    reveal_strlit("null");
    if !match_at(s, v, "null"@) {
        lemma_json_int_end(s, v);
    }
}

proof fn lemma_json_int_end(s: Seq<char>, v: int)
    requires
        0 <= v <= s.len(),
        spec_parse_json_int(s, v) is Some,
    ensures
        v < (spec_parse_json_int(s, v)->0).1 <= s.len(),
{
    let n = s.len() as int;
    let d0 = if v < n && s[v] == '-' {
        v + 1
    } else {
        v
    };
    lemma_scan_digits_ge(s, d0);
}

/// The members of the body object from position `i` on, given the fields
/// already supplied: members separated by commas until the closing `}`,
/// which only whitespace may follow; `brand`, `model`, `year` and `price`
/// must each have been supplied, `id` is optional.
pub open spec fn spec_parse_members(s: Seq<char>, i: int, acc: CarAcc) -> Option<CarText>
    decreases s.len() - i,
    when 0 <= i <= s.len()
    via spec_parse_members_decreases
{
    let n = s.len() as int;
    match spec_parse_member(s, i, acc) {
        None => None,
        Some((acc2, e)) => {
            let c = skip_ws(s, e, n);
            if c < n && s[c] == ',' {
                spec_parse_members(s, skip_ws(s, c + 1, n), acc2)
            } else if c < n && s[c] == '}' {
                if skip_ws(s, c + 1, n) == n && acc2.brand is Some && acc2.model is Some
                    && acc2.year is Some && acc2.price is Some {
                    Some(
                        CarText {
                            id: match acc2.id {
                                Some(idv) => idv,
                                None => None,
                            },
                            brand: acc2.brand->0,
                            model: acc2.model->0,
                            year: acc2.year->0,
                            price: acc2.price->0,
                        },
                    )
                } else {
                    None
                }
            } else {
                None
            }
        },
    }
}

#[via_fn]
proof fn spec_parse_members_decreases(s: Seq<char>, i: int, acc: CarAcc) {
    let n = s.len() as int;
    match spec_parse_member(s, i, acc) {
        None => {},
        Some((acc2, e)) => {
            lemma_member_end(s, i, acc);
            lemma_skip_ws_bounds(s, e, n);
            let c = skip_ws(s, e, n);
            if c < n && s[c] == ',' {
                lemma_skip_ws_bounds(s, c + 1, n);
            }
        },
    }
}

/// A car described as a JSON object: `{`, then the members `brand`,
/// `model`, `year` and `price` — and optionally `id`, holding `null` or an
/// integer — in any order, each at most once, separated by commas, closed
/// by `}`, with optional whitespace between tokens and nothing but
/// whitespace around the object.  String values take no escapes, and a
/// member with an unknown key is malformed.
pub open spec fn spec_parse_car(s: Seq<char>) -> Option<CarText> {
    let n = s.len() as int;
    let i0 = skip_ws(s, 0, n);
    if !(i0 < n && s[i0] == '{') {
        None
    } else {
        spec_parse_members(s, skip_ws(s, i0 + 1, n), empty_acc())
    }
}

/// The fields an executable decode has supplied so far.
struct CarPartial {
    id: Option<Option<i32>>,
    brand: Option<String>,
    model: Option<String>,
    year: Option<i32>,
    price: Option<String>,
}

spec fn acc_of(p: CarPartial) -> CarAcc {
    CarAcc {
        id: p.id,
        brand: match p.brand {
            Some(b) => Some(b@),
            None => None,
        },
        model: match p.model {
            Some(m) => Some(m@),
            None => None,
        },
        year: p.year,
        price: match p.price {
            Some(t) => Some(t@),
            None => None,
        },
    }
}

spec fn partial_valid(p: CarPartial) -> bool {
    match p.price {
        Some(t) => num_text_ok(t@),
        None => true,
    }
}

fn parse_member_at(s: &str, i: usize, p: CarPartial) -> (r: Option<(CarPartial, usize)>)
    requires
        i <= s@.len(),
        partial_valid(p),
    ensures
        match r {
            Some((p2, e)) => spec_parse_member(s@, i as int, acc_of(p)) == Some(
                (acc_of(p2), e as int),
            ) && i < e <= s@.len() && partial_valid(p2),
            None => spec_parse_member(s@, i as int, acc_of(p)) is None,
        },
{
    let n = s.unicode_len();
    let (key, ke) = match parse_str_at(s, i) {
        Some(x) => x,
        None => {
            return None;
        },
    };
    let j = skip_ws_at(s, ke, n);
    if !(j < n && s.get_char(j) == ':') {
        return None;
    }
    let v = skip_ws_at(s, j + 1, n);
    if str_eq(key.as_str(), "id") {
        match p.id {
            Some(_) => None,
            None => {
                let (idv, e): (Option<i32>, usize) = if starts_with_at(s, v, "null") {
                    proof {
                        reveal_strlit("null");
                    }
                    (None, v + 4)
                } else {
                    match parse_json_int_at(s, v) {
                        Some((x, e)) => (Some(x), e),
                        None => {
                            return None;
                        },
                    }
                };
                Some((CarPartial { id: Some(idv), ..p }, e))
            },
        }
    } else if str_eq(key.as_str(), "brand") {
        match p.brand {
            Some(_) => None,
            None => match parse_str_at(s, v) {
                Some((t, e)) => Some((CarPartial { brand: Some(t), ..p }, e)),
                None => None,
            },
        }
    } else if str_eq(key.as_str(), "model") {
        match p.model {
            Some(_) => None,
            None => match parse_str_at(s, v) {
                Some((t, e)) => Some((CarPartial { model: Some(t), ..p }, e)),
                None => None,
            },
        }
    } else if str_eq(key.as_str(), "year") {
        match p.year {
            Some(_) => None,
            None => match parse_json_int_at(s, v) {
                Some((y, e)) => Some((CarPartial { year: Some(y), ..p }, e)),
                None => None,
            },
        }
    } else if str_eq(key.as_str(), "price") {
        match p.price {
            Some(_) => None,
            None => match parse_num_at(s, v) {
                Some((t, e)) => Some((CarPartial { price: Some(t), ..p }, e)),
                None => None,
            },
        }
    } else {
        match skip_value_at(s, v, n) {
            Some(e) => Some((p, e)),
            None => None,
        }
    }
}

fn parse_members_at(s: &str, i: usize, p: CarPartial) -> (r: Option<Car>)
    requires
        i <= s@.len(),
        partial_valid(p),
    ensures
        match r {
            Some(c) => spec_parse_members(s@, i as int, acc_of(p)) is Some && car_matches_text(
                c,
                spec_parse_members(s@, i as int, acc_of(p))->0,
            ) && car_valid(c),
            None => spec_parse_members(s@, i as int, acc_of(p)) is None,
        },
    decreases s@.len() - i,
{
    let n = s.unicode_len();
    let (p2, e) = match parse_member_at(s, i, p) {
        Some(x) => x,
        None => {
            return None;
        },
    };
    let c = skip_ws_at(s, e, n);
    if c < n && s.get_char(c) == ',' {
        let next = skip_ws_at(s, c + 1, n);
        parse_members_at(s, next, p2)
    } else if c < n && s.get_char(c) == '}' {
        if skip_ws_at(s, c + 1, n) == n {
            match (p2.id, p2.brand, p2.model, p2.year, p2.price) {
                (idslot, Some(brand), Some(model), Some(year), Some(price)) => {
                    let id = match idslot {
                        Some(x) => x,
                        None => None,
                    };
                    Some(Car { id, brand, model, year, price })
                },
                _ => None,
            }
        } else {
            None
        }
    } else {
        None
    }
}

/// Decode a request body into a car.
///
/// The body must be a JSON object holding the members `brand`, `model`,
/// `year` and `price` — and optionally `id`, as `null` or an integer — in
/// any order, each at most once; members with other keys are skipped,
/// whatever JSON value they hold.  String escapes are decoded, surrogate
/// pairs excepted.  Anything else — a raw control character in a string,
/// trailing text, a repeated member, or a year or id outside the 32-bit
/// range — is malformed and yields nothing.
pub fn parse_car(s: &str) -> (r: Option<Car>)
    ensures
        match r {
            Some(c) => spec_parse_car(s@) is Some && car_matches_text(c, spec_parse_car(s@)->0)
                && car_valid(c),
            None => spec_parse_car(s@) is None,
        },
{
    let n = s.unicode_len();
    let i0 = skip_ws_at(s, 0, n);
    if !(i0 < n && s.get_char(i0) == '{') {
        return None;
    }
    let start = skip_ws_at(s, i0 + 1, n);
    let empty = CarPartial { id: None, brand: None, model: None, year: None, price: None };
    proof {
        assert(acc_of(empty) == empty_acc());
    }
    parse_members_at(s, start, empty)
}

} // verus!
