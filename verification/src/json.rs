//! The JSON text fragments this crate writes and reads: escaping of
//! strings, decimal numbers, and the small lexical helpers the wire
//! parser builds on.

use vstd::prelude::*;

verus! {

/// The character standing for one decimal or hexadecimal digit value.
pub open spec fn digit_char(n: int) -> char {
    if n < 10 {
        ((48 + n) as u32) as char
    } else {
        ((87 + n) as u32) as char
    }
}

/// How one character is written inside a JSON string literal.
pub open spec fn escape_char(c: char) -> Seq<char> {
    if c == '"' {
        seq!['\\', '"']
    } else if c == '\\' {
        seq!['\\', '\\']
    } else if c == '\n' {
        seq!['\\', 'n']
    } else if c == '\r' {
        seq!['\\', 'r']
    } else if c == '\t' {
        seq!['\\', 't']
    } else if (c as u32) < 0x20 {
        seq!['\\', 'u', '0', '0', digit_char((c as u32) as int / 16), digit_char((c as u32) as int % 16)]
    } else {
        seq![c]
    }
}

/// How a whole character sequence is written inside a JSON string
/// literal.
pub open spec fn escape_string(s: Seq<char>) -> Seq<char>
    decreases s.len(),
{
    if s.len() == 0 {
        Seq::empty()
    } else {
        escape_char(s[0]) + escape_string(s.drop_first())
    }
}

/// A JSON string literal: the escaped characters between quotes.
pub open spec fn json_string(s: Seq<char>) -> Seq<char> {
    seq!['"'] + escape_string(s) + seq!['"']
}

proof fn lemma_escape_push(s: Seq<char>, c: char)
    ensures
        escape_string(s.push(c)) == escape_string(s) + escape_char(c),
    decreases s.len(),
{
    if s.len() == 0 {
        assert(s.push(c).drop_first() =~= Seq::<char>::empty());
        assert(s.push(c)[0] == c);
        assert(escape_string(Seq::<char>::empty()) == Seq::<char>::empty());
        assert(escape_string(s.push(c)) == escape_char(c) + Seq::<char>::empty());
        assert(escape_char(c) + Seq::<char>::empty() =~= escape_char(c));
        assert(escape_string(s) + escape_char(c) =~= escape_char(c));
    } else {
        assert(s.push(c).drop_first() =~= s.drop_first().push(c));
        assert(s.push(c)[0] == s[0]);
        lemma_escape_push(s.drop_first(), c);
        assert(escape_string(s.push(c)) == escape_char(s[0]) + escape_string(
            s.drop_first().push(c),
        ));
        assert(escape_char(s[0]) + (escape_string(s.drop_first()) + escape_char(c)) =~= (
        escape_char(s[0]) + escape_string(s.drop_first())) + escape_char(c));
    }
}

/// The decimal digits of a non-negative value, most significant
/// first.
pub open spec fn dec_digits(n: int) -> Seq<char>
    decreases n,
{
    if n < 10 {
        seq![digit_char(if n < 0 { 0 } else { n })]
    } else {
        dec_digits(n / 10).push(digit_char(n % 10))
    }
}

/// The decimal writing of an integer, with a leading minus sign when
/// it is negative.
pub open spec fn dec_int(i: int) -> Seq<char> {
    if i < 0 {
        seq!['-'] + dec_digits(-i)
    } else {
        dec_digits(i)
    }
}

/// One decimal or hexadecimal digit character for an in-range value.
pub(crate) fn digit_char_exec(d: u32) -> (c: char)
    requires
        d < 16,
    ensures
        c == digit_char(d as int),
{
    if d < 10 {
        ((48 + d) as u8) as char
    } else {
        ((87 + d) as u8) as char
    }
}

/// Appends the decimal digits of a non-negative value.
pub(crate) fn write_dec_u64(out: &mut String, n: u64)
    ensures
        final(out)@ == old(out)@ + dec_digits(n as int),
    decreases n,
{
    if n < 10 {
        let c = digit_char_exec(n as u32);
        crate::text::push_char(out, c);
    } else {
        write_dec_u64(out, n / 10);
        let c = digit_char_exec((n % 10) as u32);
        crate::text::push_char(out, c);
        proof {
            assert(old(out)@ + dec_digits((n / 10) as int) + dec_digits(n as int).subrange(
                dec_digits((n / 10) as int).len() as int,
                dec_digits(n as int).len() as int,
            ) =~= old(out)@ + dec_digits(n as int)) by {
                assert(dec_digits(n as int) == dec_digits((n / 10) as int).push(
                    digit_char(n as int % 10),
                ));
            }
            assert(final(out)@ =~= old(out)@ + dec_digits(n as int)) by {
                assert(dec_digits(n as int) == dec_digits((n / 10) as int).push(
                    digit_char(n as int % 10),
                ));
            }
        }
    }
}

/// Appends the decimal writing of a signed value.
pub(crate) fn write_dec(out: &mut String, n: isize)
    ensures
        final(out)@ == old(out)@ + dec_int(n as int),
{
    if n < 0 {
        crate::text::push_char(out, '-');
        let m: u64 = (-(n as i128)) as u64;
        proof {
            assert(m as int == -(n as int));
        }
        write_dec_u64(out, m);
        proof {
            assert(old(out)@.push('-') + dec_digits(m as int) =~= old(out)@ + dec_int(n as int));
        }
    } else {
        let m: u64 = n as u64;
        write_dec_u64(out, m);
    }
}

/// Appends one character in its escaped form.
pub(crate) fn write_escaped_char(out: &mut String, c: char)
    ensures
        final(out)@ == old(out)@ + escape_char(c),
{
    if c == '"' {
        crate::text::push_char(out, '\\');
        crate::text::push_char(out, '"');
        proof {
            assert(final(out)@ =~= old(out)@ + escape_char(c));
        }
    } else if c == '\\' {
        crate::text::push_char(out, '\\');
        crate::text::push_char(out, '\\');
        proof {
            assert(final(out)@ =~= old(out)@ + escape_char(c));
        }
    } else if c == '\n' {
        crate::text::push_char(out, '\\');
        crate::text::push_char(out, 'n');
        proof {
            assert(final(out)@ =~= old(out)@ + escape_char(c));
        }
    } else if c == '\r' {
        crate::text::push_char(out, '\\');
        crate::text::push_char(out, 'r');
        proof {
            assert(final(out)@ =~= old(out)@ + escape_char(c));
        }
    } else if c == '\t' {
        crate::text::push_char(out, '\\');
        crate::text::push_char(out, 't');
        proof {
            assert(final(out)@ =~= old(out)@ + escape_char(c));
        }
    } else if (c as u32) < 0x20 {
        crate::text::push_char(out, '\\');
        crate::text::push_char(out, 'u');
        crate::text::push_char(out, '0');
        crate::text::push_char(out, '0');
        let hi = digit_char_exec((c as u32) / 16);
        crate::text::push_char(out, hi);
        let lo = digit_char_exec((c as u32) % 16);
        crate::text::push_char(out, lo);
        proof {
            assert(final(out)@ =~= old(out)@ + escape_char(c));
        }
    } else {
        crate::text::push_char(out, c);
        proof {
            assert(final(out)@ =~= old(out)@ + escape_char(c));
        }
    }
}

/// JSON insignificant whitespace.
pub open spec fn is_ws(c: char) -> bool {
    c == ' ' || c == '\n' || c == '\r' || c == '\t'
}

/// The first position at or after `i` holding no whitespace.
pub open spec fn sp_ws(s: Seq<char>, i: int) -> int
    decreases s.len() - i,
{
    if 0 <= i < s.len() && is_ws(s[i]) {
        sp_ws(s, i + 1)
    } else {
        i
    }
}

/// Skipping whitespace stays within the input.
pub proof fn lemma_sp_ws_bounds(s: Seq<char>, i: int)
    requires
        0 <= i <= s.len(),
    ensures
        i <= sp_ws(s, i) <= s.len(),
    decreases s.len() - i,
{
    if i < s.len() && is_ws(s[i]) {
        lemma_sp_ws_bounds(s, i + 1);
    }
}

/// The value of one hexadecimal digit, or a negative sentinel for any
/// other character.
pub open spec fn hex_val(c: char) -> int {
    let u = c as u32;
    if 48 <= u && u <= 57 {
        u - 48
    } else if 97 <= u && u <= 102 {
        u - 87
    } else if 65 <= u && u <= 70 {
        u - 55
    } else {
        -1
    }
}

/// The value of four hexadecimal digits at `i`, or a negative sentinel
/// when the input does not hold four hexadecimal digits there.
pub open spec fn hex4(s: Seq<char>, i: int) -> int {
    if 0 <= i && i + 4 <= s.len() && hex_val(s[i]) >= 0 && hex_val(s[i + 1]) >= 0 && hex_val(
        s[i + 2],
    ) >= 0 && hex_val(s[i + 3]) >= 0 {
        hex_val(s[i]) * 4096 + hex_val(s[i + 1]) * 256 + hex_val(s[i + 2]) * 16 + hex_val(s[i + 3])
    } else {
        -1
    }
}

/// The character named by a single-character escape, if the escape is
/// recognized.
pub open spec fn simple_escape(c: char) -> Option<char> {
    if c == '"' {
        Some('"')
    } else if c == '\\' {
        Some('\\')
    } else if c == '/' {
        Some('/')
    } else if c == 'b' {
        Some('\u{8}')
    } else if c == 'f' {
        Some('\u{c}')
    } else if c == 'n' {
        Some('\n')
    } else if c == 'r' {
        Some('\r')
    } else if c == 't' {
        Some('\t')
    } else {
        None
    }
}

/// The rest of a JSON string literal read from position `i` (just
/// past the opening quote), accumulated onto `acc`: the decoded
/// characters and the position just past the closing quote.  Raw
/// control characters, malformed escapes and lone surrogates are
/// rejected.
pub open spec fn sp_string_body(s: Seq<char>, i: int, acc: Seq<char>) -> Option<(Seq<char>, int)>
    decreases s.len() - i,
{
    if i < 0 || i >= s.len() {
        None
    } else if s[i] == '"' {
        Some((acc, i + 1))
    } else if s[i] == '\\' {
        if i + 1 >= s.len() {
            None
        } else {
            let e = s[i + 1];
            match simple_escape(e) {
                Some(c) => sp_string_body(s, i + 2, acc.push(c)),
                None => if e == 'u' {
                    let h = hex4(s, i + 2);
                    if h < 0 {
                        None
                    } else if 0xD800 <= h && h < 0xDC00 {
                        if i + 8 <= s.len() && s[i + 6] == '\\' && s[i + 7] == 'u' {
                            let l = hex4(s, i + 8);
                            if 0xDC00 <= l && l < 0xE000 {
                                let code = 0x10000 + (h - 0xD800) * 0x400 + (l - 0xDC00);
                                sp_string_body(s, i + 12, acc.push(((code as u32) as char)))
                            } else {
                                None
                            }
                        } else {
                            None
                        }
                    } else if 0xDC00 <= h && h < 0xE000 {
                        None
                    } else {
                        sp_string_body(s, i + 6, acc.push(((h as u32) as char)))
                    }
                } else {
                    None
                },
            }
        }
    } else if (s[i] as u32) < 0x20 {
        None
    } else {
        sp_string_body(s, i + 1, acc.push(s[i]))
    }
}

/// A whole JSON string literal read from position `i`: the decoded
/// characters and the position just past the closing quote.
pub open spec fn sp_string(s: Seq<char>, i: int) -> Option<(Seq<char>, int)> {
    if 0 <= i < s.len() && s[i] == '"' {
        sp_string_body(s, i + 1, Seq::empty())
    } else {
        None
    }
}

/// Reading a string body advances past at least the closing quote and
/// stays within the input.
pub proof fn lemma_sp_string_body_advances(s: Seq<char>, i: int, acc: Seq<char>)
    ensures
        sp_string_body(s, i, acc) matches Some(p) ==> i < p.1 <= s.len(),
    decreases s.len() - i,
{
    if 0 <= i < s.len() {
        if s[i] == '\\' && i + 1 < s.len() {
            let e = s[i + 1];
            match simple_escape(e) {
                Some(c) => lemma_sp_string_body_advances(s, i + 2, acc.push(c)),
                None => if e == 'u' {
                    let h = hex4(s, i + 2);
                    if h >= 0 {
                        if 0xD800 <= h && h < 0xDC00 {
                            if i + 8 <= s.len() && s[i + 6] == '\\' && s[i + 7] == 'u' {
                                let l = hex4(s, i + 8);
                                if 0xDC00 <= l && l < 0xE000 {
                                    let code = 0x10000 + (h - 0xD800) * 0x400 + (l - 0xDC00);
                                    lemma_sp_string_body_advances(s, i + 12, acc.push(((code as u32) as char)));
                                }
                            }
                        } else if !(0xDC00 <= h && h < 0xE000) {
                            lemma_sp_string_body_advances(s, i + 6, acc.push(((h as u32) as char)));
                        }
                    }
                } else {
                },
            }
        } else if s[i] != '"' && s[i] != '\\' && !((s[i] as u32) < 0x20) {
            lemma_sp_string_body_advances(s, i + 1, acc.push(s[i]));
        }
    }
}

/// Reading a string literal advances past both quotes and stays
/// within the input.
pub proof fn lemma_sp_string_advances(s: Seq<char>, i: int)
    ensures
        sp_string(s, i) matches Some(p) ==> i + 2 <= p.1 <= s.len(),
{
    if 0 <= i < s.len() && s[i] == '"' {
        lemma_sp_string_body_advances(s, i + 1, Seq::empty());
    }
}

/// Decimal digits.
pub open spec fn is_digit(c: char) -> bool {
    48 <= c as u32 && c as u32 <= 57
}

/// The value of one decimal digit.
pub open spec fn digit_val(c: char) -> int {
    c as u32 - 48
}

/// The first position at or after `i` holding no decimal digit.
pub open spec fn digits_end(s: Seq<char>, i: int) -> int
    decreases s.len() - i,
{
    if 0 <= i < s.len() && is_digit(s[i]) {
        digits_end(s, i + 1)
    } else {
        i
    }
}

/// Scanning digits stays within the input, and everything scanned is
/// a digit.
pub proof fn lemma_digits_end(s: Seq<char>, i: int)
    requires
        0 <= i <= s.len(),
    ensures
        i <= digits_end(s, i) <= s.len(),
        forall|k: int| i <= k < digits_end(s, i) ==> is_digit(s[k]),
    decreases s.len() - i,
{
    if i < s.len() && is_digit(s[i]) {
        lemma_digits_end(s, i + 1);
    }
}

/// The value of the decimal digits `s[i..j]`.
pub open spec fn digits_val(s: Seq<char>, i: int, j: int) -> int
    decreases j - i,
{
    if i >= j {
        0
    } else {
        digits_val(s, i, j - 1) * 10 + digit_val(s[j - 1])
    }
}

/// Ten to a power.
pub open spec fn pow10(n: int) -> int
    decreases n,
{
    if n <= 0 {
        1
    } else {
        10 * pow10(n - 1)
    }
}

/// Powers of ten are positive and grow with the exponent.
pub proof fn lemma_pow10_mono(a: int, b: int)
    requires
        a <= b,
    ensures
        1 <= pow10(a) <= pow10(b),
    decreases b - a,
{
    if a < b {
        lemma_pow10_mono(a, b - 1);
    } else if a == b {
        lemma_pow10_pos(a);
    }
}

proof fn lemma_pow10_pos(n: int)
    ensures
        pow10(n) >= 1,
    decreases n,
{
    if n > 0 {
        lemma_pow10_pos(n - 1);
    }
}

/// A run of digits is worth less than ten to its length.
pub proof fn lemma_digits_val_bound(s: Seq<char>, i: int, j: int)
    requires
        i <= j,
        forall|k: int| i <= k < j ==> is_digit(s[k]),
    ensures
        0 <= digits_val(s, i, j) < pow10(j - i),
    decreases j - i,
{
    if i < j {
        lemma_digits_val_bound(s, i, j - 1);
        assert(is_digit(s[j - 1]));
        assert(0 <= digit_val(s[j - 1]) <= 9);
    }
}

/// A JSON integer read from position `i`: an optional minus sign and
/// a digit run without a redundant leading zero.  Runs longer than 18
/// digits, beyond any value the remote service reports, are rejected.
pub open spec fn sp_int(s: Seq<char>, i: int) -> Option<(int, int)> {
    let neg = 0 <= i < s.len() && s[i] == '-';
    let j = if neg {
        i + 1
    } else {
        i
    };
    let k = digits_end(s, j);
    if !(0 <= j) || k == j {
        None
    } else if s[j] == '0' && k > j + 1 {
        None
    } else if k - j > 18 {
        None
    } else {
        let v = digits_val(s, j, k);
        let sv = if neg {
            -v
        } else {
            v
        };
        if sv < isize::MIN as int || sv > isize::MAX as int {
            None
        } else {
            Some((sv, k))
        }
    }
}

/// Reading an integer consumes at least one character and stays
/// within the input.
pub proof fn lemma_sp_int_advances(s: Seq<char>, i: int)
    requires
        0 <= i <= s.len(),
    ensures
        sp_int(s, i) matches Some(p) ==> i < p.1 <= s.len(),
{
    let neg = 0 <= i < s.len() && s[i] == '-';
    let j = if neg {
        i + 1
    } else {
        i
    };
    if j <= s.len() {
        lemma_digits_end(s, j);
    }
}

/// The keyword `null` at position `i`: the position just past it.
pub open spec fn sp_null(s: Seq<char>, i: int) -> Option<int> {
    if 0 <= i && i + 4 <= s.len() && s[i] == 'n' && s[i + 1] == 'u' && s[i + 2] == 'l' && s[i + 3]
        == 'l' {
        Some(i + 4)
    } else {
        None
    }
}

proof fn lemma_hex_of_digit(d: int)
    requires
        0 <= d < 16,
    ensures
        hex_val(digit_char(d)) == d,
{
    if d < 10 {
        let u = (48 + d) as u32;
        vstd::utf8::char_u32_cast(digit_char(d), u);
        assert(digit_char(d) as u32 == u);
    } else {
        let u = (87 + d) as u32;
        vstd::utf8::char_u32_cast(digit_char(d), u);
        assert(digit_char(d) as u32 == u);
    }
}

#[verifier::rlimit(100)]
#[verifier::spinoff_prover]
proof fn lemma_escaped_body_parses(t: Seq<char>, i: int, s: Seq<char>, acc: Seq<char>)
    requires
        0 <= i <= t.len(),
        t.subrange(i, t.len() as int) == escape_string(s) + seq!['"'],
    ensures
        sp_string_body(t, i, acc) == Some((acc + s, t.len() as int)),
    decreases s.len(),
{
    let suffix = t.subrange(i, t.len() as int);
    if s.len() == 0 {
        assert(suffix =~= seq!['"']);
        assert(t[i] == suffix[0]);
        assert(sp_string_body(t, i, acc) == Some((acc, i + 1)));
        assert(acc + s =~= acc);
    } else {
        let c = s[0];
        let rest = s.drop_first();
        let e = escape_char(c);
        assert(escape_string(s) == e + escape_string(rest));
        let k = e.len() as int;
        assert(suffix.len() == escape_string(s).len() + 1);
        assert forall|q: int| 0 <= q < k implies t[i + q] == e[q] by {
            assert(suffix[q] == t[i + q]);
            assert((escape_string(s) + seq!['"'])[q] == e[q]);
        }
        assert(t[i + 0] == e[0]);
        if k >= 2 {
            assert(t[i + 1] == e[1]);
        }
        if k == 6 {
            assert(t[i + 2] == e[2]);
            assert(t[i + 3] == e[3]);
            assert(t[i + 4] == e[4]);
            assert(t[i + 5] == e[5]);
        }
        assert(t.subrange(i + k, t.len() as int) =~= escape_string(rest) + seq!['"']) by {
            assert forall|q: int| 0 <= q < t.len() - i - k implies t[i + k + q] == (
            escape_string(rest) + seq!['"'])[q] by {
                assert(suffix[k + q] == t[i + k + q]);
                assert((escape_string(s) + seq!['"'])[k + q] == (escape_string(rest)
                    + seq!['"'])[q]);
            }
        }
        lemma_escaped_body_parses(t, i + k, rest, acc.push(c));
        assert(acc.push(c) + rest =~= acc + s) by {
            assert(s =~= seq![c] + rest);
        }
        if c == '"' {
            assert(t[i] == '\\' && t[i + 1] == '"');
            assert(simple_escape(t[i + 1]) == Some('"'));
            assert(sp_string_body(t, i, acc) == sp_string_body(t, i + 2, acc.push(c)));
        } else if c == '\\' {
            assert(t[i] == '\\' && t[i + 1] == '\\');
            assert(sp_string_body(t, i, acc) == sp_string_body(t, i + 2, acc.push(c)));
        } else if c == '\n' {
            assert(t[i] == '\\' && t[i + 1] == 'n');
            assert(sp_string_body(t, i, acc) == sp_string_body(t, i + 2, acc.push(c)));
        } else if c == '\r' {
            assert(t[i] == '\\' && t[i + 1] == 'r');
            assert(sp_string_body(t, i, acc) == sp_string_body(t, i + 2, acc.push(c)));
        } else if c == '\t' {
            assert(t[i] == '\\' && t[i + 1] == 't');
            assert(sp_string_body(t, i, acc) == sp_string_body(t, i + 2, acc.push(c)));
        } else if (c as u32) < 0x20 {
            let u = (c as u32) as int;
            assert(t[i] == '\\' && t[i + 1] == 'u' && t[i + 2] == '0' && t[i + 3] == '0');
            assert(t[i + 4] == digit_char(u / 16) && t[i + 5] == digit_char(u % 16));
            assert(simple_escape('u') is None);
            lemma_hex_of_digit(u / 16);
            lemma_hex_of_digit(u % 16);
            assert(hex_val('0') == 0) by {
                vstd::utf8::char_u32_cast('0', 48);
            }
            assert(hex4(t, i + 2) == (u / 16) * 16 + u % 16);
            assert(hex4(t, i + 2) == u);
            assert(((u as u32) as char) == c) by {
                vstd::utf8::char_u32_cast(c, u as u32);
            }
            assert(sp_string_body(t, i, acc) == sp_string_body(t, i + 6, acc.push(c)));
        } else {
            assert(t[i] == c);
            assert(c != '"' && c != '\\' && !((c as u32) < 0x20));
            assert(sp_string_body(t, i, acc) == sp_string_body(t, i + 1, acc.push(c)));
        }
    }
}

/// Decoding gives back what encoding wrote: the JSON string literal
/// written for any character sequence parses to exactly that
/// sequence, consuming the whole literal.
pub proof fn lemma_string_round_trip(s: Seq<char>)
    ensures
        sp_string(json_string(s), 0) == Some((s, json_string(s).len() as int)),
{
    let t = json_string(s);
    assert(t[0] == '"');
    assert(t.len() >= 1);
    assert(t.subrange(1, t.len() as int) =~= escape_string(s) + seq!['"']);
    lemma_escaped_body_parses(t, 1, s, Seq::empty());
    assert(Seq::<char>::empty() + s =~= s);
}

/// Skips insignificant whitespace.
pub(crate) fn skip_ws(v: &Vec<char>, i: usize) -> (j: usize)
    requires
        i <= v@.len(),
    ensures
        j as int == sp_ws(v@, i as int),
        i <= j <= v@.len(),
{
    let n = v.len();
    let mut j = i;
    while j < n && (v[j] == ' ' || v[j] == '\n' || v[j] == '\r' || v[j] == '\t')
        invariant
            i <= j <= n,
            n == v@.len(),
            sp_ws(v@, i as int) == sp_ws(v@, j as int),
        decreases n - j,
    {
        j = j + 1;
    }
    j
}

/// Reads the keyword `null`.
pub(crate) fn parse_null(v: &Vec<char>, i: usize) -> (r: Option<usize>)
    requires
        i <= v@.len(),
    ensures
        match r {
            Some(j) => sp_null(v@, i as int) == Some(j as int) && i < j <= v@.len(),
            None => sp_null(v@, i as int) is None,
        },
{
    if v.len() - i >= 4 && v[i] == 'n' && v[i + 1] == 'u' && v[i + 2] == 'l' && v[i + 3] == 'l' {
        Some(i + 4)
    } else {
        None
    }
}

/// The value of one hexadecimal digit character.
fn hex_digit_val(c: char) -> (r: Option<u32>)
    ensures
        match r {
            Some(d) => hex_val(c) == d as int && d < 16,
            None => hex_val(c) < 0,
        },
{
    let u = c as u32;
    if 48 <= u && u <= 57 {
        Some(u - 48)
    } else if 97 <= u && u <= 102 {
        Some(u - 87)
    } else if 65 <= u && u <= 70 {
        Some(u - 55)
    } else {
        None
    }
}

/// Reads four hexadecimal digits.
fn parse_hex4(v: &Vec<char>, i: usize) -> (r: Option<u32>)
    requires
        i <= v@.len(),
    ensures
        match r {
            Some(h) => hex4(v@, i as int) == h as int && h <= 0xFFFF,
            None => hex4(v@, i as int) < 0,
        },
{
    if v.len() - i >= 4 {
        if let Some(d0) = hex_digit_val(v[i]) {
            if let Some(d1) = hex_digit_val(v[i + 1]) {
                if let Some(d2) = hex_digit_val(v[i + 2]) {
                    if let Some(d3) = hex_digit_val(v[i + 3]) {
                        return Some(d0 * 4096 + d1 * 256 + d2 * 16 + d3);
                    }
                }
            }
        }
        None
    } else {
        None
    }
}

/// Reads a whole JSON string literal starting at `i`, decoding its
/// escapes; see [`sp_string`].
#[verifier::rlimit(100)]
pub(crate) fn parse_string(v: &Vec<char>, i: usize) -> (r: Option<(String, usize)>)
    requires
        i <= v@.len(),
    ensures
        match r {
            Some(p) => sp_string(v@, i as int) == Some((p.0@, p.1 as int)) && i < p.1 <= v@.len(),
            None => sp_string(v@, i as int) is None,
        },
{
    let n = v.len();
    if i >= n || v[i] != '"' {
        return None;
    }
    let mut acc = String::new();
    let mut j = i + 1;
    loop
        invariant
            i < n,
            v@[i as int] == '"',
            i + 1 <= j <= n,
            n == v@.len(),
            sp_string_body(v@, i as int + 1, Seq::<char>::empty()) == sp_string_body(
                v@,
                j as int,
                acc@,
            ),
        decreases n - j,
    {
        if j >= n {
            return None;
        }
        let c = v[j];
        if c == '"' {
            return Some((acc, j + 1));
        } else if c == '\\' {
            if j + 1 >= n {
                return None;
            }
            let e = v[j + 1];
            let simple = if e == '"' {
                Some('"')
            } else if e == '\\' {
                Some('\\')
            } else if e == '/' {
                Some('/')
            } else if e == 'b' {
                Some('\u{8}')
            } else if e == 'f' {
                Some('\u{c}')
            } else if e == 'n' {
                Some('\n')
            } else if e == 'r' {
                Some('\r')
            } else if e == 't' {
                Some('\t')
            } else {
                None
            };
            proof {
                assert(simple == simple_escape(e));
            }
            if let Some(c2) = simple {
                crate::text::push_char(&mut acc, c2);
                j = j + 2;
            } else if e == 'u' {
                match parse_hex4(v, j + 2) {
                    None => {
                        return None;
                    },
                    Some(h) => {
                        if 0xD800 <= h && h < 0xDC00 {
                            if n - (j + 2) >= 6 && v[j + 6] == '\\' && v[j + 7] == 'u' {
                                match parse_hex4(v, j + 8) {
                                    None => {
                                        return None;
                                    },
                                    Some(l) => {
                                        if 0xDC00 <= l && l < 0xE000 {
                                            let code = 0x10000 + (h - 0xD800) * 0x400 + (l
                                                - 0xDC00);
                                            match crate::text::char_from_u32(code) {
                                                Some(c2) => {
                                                    crate::text::push_char(&mut acc, c2);
                                                    proof {
                                                        assert(j + 12 <= n);
                                                    }
                                                    j = j + 12;
                                                },
                                                None => {
                                                    proof {
                                                        assert(false);
                                                    }
                                                    return None;
                                                },
                                            }
                                        } else {
                                            return None;
                                        }
                                    },
                                }
                            } else {
                                return None;
                            }
                        } else if 0xDC00 <= h && h < 0xE000 {
                            return None;
                        } else {
                            match crate::text::char_from_u32(h) {
                                Some(c2) => {
                                    crate::text::push_char(&mut acc, c2);
                                    proof {
                                        assert(j + 6 <= n);
                                    }
                                    j = j + 6;
                                },
                                None => {
                                    proof {
                                        assert(false);
                                    }
                                    return None;
                                },
                            }
                        }
                    },
                }
            } else {
                return None;
            }
        } else if (c as u32) < 0x20 {
            return None;
        } else {
            crate::text::push_char(&mut acc, c);
            j = j + 1;
        }
    }
}

/// Reads a JSON integer starting at `i`; see [`sp_int`].
pub(crate) fn parse_int(v: &Vec<char>, i: usize) -> (r: Option<(isize, usize)>)
    requires
        i <= v@.len(),
    ensures
        match r {
            Some(p) => sp_int(v@, i as int) == Some((p.0 as int, p.1 as int)) && i < p.1
                <= v@.len(),
            None => sp_int(v@, i as int) is None,
        },
{
    let n = v.len();
    let neg = i < n && v[i] == '-';
    let j = if neg {
        i + 1
    } else {
        i
    };
    let mut k = j;
    while k < n && 48 <= (v[k] as u32) && (v[k] as u32) <= 57
        invariant
            j <= k <= n,
            n == v@.len(),
            digits_end(v@, j as int) == digits_end(v@, k as int),
        decreases n - k,
    {
        k = k + 1;
    }
    proof {
        assert(digits_end(v@, j as int) == k as int);
        lemma_digits_end(v@, j as int);
    }
    if k == j {
        return None;
    }
    if v[j] == '0' && k > j + 1 {
        return None;
    }
    if k - j > 18 {
        return None;
    }
    let mut acc: u64 = 0;
    let mut p = j;
    while p < k
        invariant
            j <= p <= k <= n,
            n == v@.len(),
            k - j <= 18,
            k as int == digits_end(v@, j as int),
            forall|q: int| j as int <= q < k as int ==> is_digit(v@[q]),
            acc as int == digits_val(v@, j as int, p as int),
        decreases k - p,
    {
        proof {
            lemma_digits_val_bound(v@, j as int, p as int);
            lemma_pow10_mono((p - j) as int, 17);
            reveal_with_fuel(pow10, 19);
            assert(pow10(17) == 100000000000000000);
            assert(acc < 100000000000000000);
        }
        let d = (v[p] as u32) - 48;
        acc = acc * 10 + (d as u64);
        p = p + 1;
        proof {
            assert(v@.subrange(j as int, p as int).len() == p - j);
            assert(acc as int == digits_val(v@, j as int, p as int));
        }
    }
    proof {
        lemma_digits_val_bound(v@, j as int, k as int);
        lemma_pow10_mono((k - j) as int, 18);
        reveal_with_fuel(pow10, 20);
        assert(pow10(18) == 1000000000000000000);
        assert(acc < 1000000000000000000);
        assert(isize::MIN as int == -(isize::MAX as int) - 1);
    }
    if neg {
        if acc > isize::MAX as u64 {
            if acc == (isize::MAX as u64) + 1 {
                Some((isize::MIN, k))
            } else {
                None
            }
        } else {
            Some((-(acc as isize), k))
        }
    } else {
        if acc > isize::MAX as u64 {
            None
        } else {
            Some((acc as isize, k))
        }
    }
}

/// Appends a whole JSON string literal, quotes included.
pub(crate) fn write_json_string(out: &mut String, s: &str)
    ensures
        final(out)@ == old(out)@ + json_string(s@),
{
    crate::text::push_char(out, '"');
    let chars = crate::text::chars_of(s);
    let n = chars.len();
    let mut i: usize = 0;
    while i < n
        invariant
            n == s@.len(),
            chars@ == s@,
            i <= n,
            out@ =~= old(out)@ + seq!['"'] + escape_string(s@.subrange(0, i as int)),
        decreases n - i,
    {
        write_escaped_char(out, chars[i]);
        i = i + 1;
        proof {
            assert(s@.subrange(0, i as int) =~= s@.subrange(0, i as int - 1).push(
                s@[i as int - 1],
            ));
            lemma_escape_push(s@.subrange(0, i as int - 1), s@[i as int - 1]);
        }
    }
    crate::text::push_char(out, '"');
    proof {
        assert(s@.subrange(0, n as int) =~= s@);
        assert(final(out)@ =~= old(out)@ + json_string(s@));
    }
}

} // verus!
