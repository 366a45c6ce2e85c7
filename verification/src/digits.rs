//! Verified decimal literals: recognising the integer values that a
//! configuration entry may carry, and rendering integers back to text.
//!
//! The grammar matches what `str::parse` accepts for the integer types
//! used in generated constants: an optional sign followed by one or more
//! decimal digits, with the value required to fit the target type.

use vstd::prelude::*;

use crate::strops;

verus! {

/// `c` is a decimal digit.
pub open spec fn is_digit(c: char) -> bool {
    48 <= c as int && c as int <= 57
}

/// Numeric value of a digit.
pub open spec fn digit_val(c: char) -> int {
    c as int - 48
}

/// `s` is one or more decimal digits.
pub open spec fn all_digits(s: Seq<char>) -> bool {
    s.len() > 0 && forall|i: int| 0 <= i < s.len() ==> is_digit(s[i])
}

/// The number that a digit string denotes.
pub open spec fn digits_val(s: Seq<char>) -> int
    decreases s.len(),
{
    if s.len() == 0 {
        0
    } else {
        digits_val(s.drop_last()) * 10 + digit_val(s.last())
    }
}

/// `s` with one leading sign character removed.
pub open spec fn sign_body(s: Seq<char>) -> Seq<char> {
    if s.len() > 0 && (s[0] == '+' || s[0] == '-') {
        s.drop_first()
    } else {
        s
    }
}

/// `s` with one leading `+` removed; a `-` is not stripped, so an
/// unsigned literal with `-` keeps it and fails the digit test.
pub open spec fn plus_body(s: Seq<char>) -> Seq<char> {
    if s.len() > 0 && s[0] == '+' {
        s.drop_first()
    } else {
        s
    }
}

/// -1 for a leading `-`, else 1.
pub open spec fn sign_of(s: Seq<char>) -> int {
    if s.len() > 0 && s[0] == '-' {
        -1
    } else {
        1
    }
}

/// `s` is a well-formed signed decimal literal of any magnitude.
pub open spec fn is_int_literal(s: Seq<char>) -> bool {
    all_digits(sign_body(s))
}

/// The value of a signed decimal literal.
pub open spec fn int_lit_val(s: Seq<char>) -> int {
    sign_of(s) * digits_val(sign_body(s))
}

/// `s` is a decimal literal that `i32` accepts.
pub open spec fn is_i32_literal(s: Seq<char>) -> bool {
    is_int_literal(s) && i32::MIN <= int_lit_val(s) && int_lit_val(s) <= i32::MAX
}

/// `s` is a well-formed unsigned decimal literal of any magnitude.
pub open spec fn is_uint_literal(s: Seq<char>) -> bool {
    all_digits(plus_body(s))
}

/// The value of an unsigned decimal literal.
pub open spec fn uint_lit_val(s: Seq<char>) -> int {
    digits_val(plus_body(s))
}

/// `s` is a decimal literal that `usize` accepts.
pub open spec fn is_usize_literal(s: Seq<char>) -> bool {
    is_uint_literal(s) && uint_lit_val(s) <= usize::MAX
}

/// A digit string's value is never negative.
proof fn lemma_digits_val_nonneg(s: Seq<char>)
    requires
        forall|i: int| 0 <= i < s.len() ==> is_digit(s[i]),
    ensures
        digits_val(s) >= 0,
    decreases s.len(),
{
    if s.len() > 0 {
        lemma_digits_val_nonneg(s.drop_last());
    }
}

/// Extending a digit string to the right never shrinks its value.
proof fn lemma_digits_val_prefix(s: Seq<char>, i: int)
    requires
        forall|k: int| 0 <= k < s.len() ==> is_digit(s[k]),
        0 <= i <= s.len(),
    ensures
        digits_val(s.subrange(0, i)) <= digits_val(s),
    decreases s.len() - i,
{
    if i == s.len() {
        assert(s.subrange(0, i) =~= s);
    } else {
        let shorter = s.drop_last();
        assert(s.subrange(0, i) =~= shorter.subrange(0, i));
        lemma_digits_val_prefix(shorter, i);
        lemma_digits_val_nonneg(shorter);
    }
}

/// One digit appended multiplies the prefix value by ten and adds the
/// digit.
proof fn lemma_digits_val_step(s: Seq<char>, j: int)
    requires
        0 <= j < s.len(),
    ensures
        digits_val(s.subrange(0, j + 1)) == digits_val(s.subrange(0, j)) * 10 + digit_val(s[j]),
{
    let p = s.subrange(0, j + 1);
    assert(p.drop_last() =~= s.subrange(0, j));
    assert(p.last() == s[j]);
}

/// Recognises a decimal literal in `i32`'s range and returns its value.
///
/// Returns `Some` exactly on the strings `str::parse::<i32>` accepts:
/// an optional sign, then only digits, with the value in range.
pub fn parse_i32(s: &str) -> (r: Option<i32>)
    ensures
        r is Some <==> is_i32_literal(s@),
        r matches Some(v) ==> v as int == int_lit_val(s@),
{
    let len = s.unicode_len();
    if len == 0 {
        return Option::None;
    }
    let c0 = s.get_char(0);
    let neg = c0 == '-';
    let start: usize = if c0 == '+' || c0 == '-' {
        1
    } else {
        0
    };
    let ghost body = sign_body(s@);
    proof {
        assert(body =~= s@.skip(start as int));
    }
    if start == len {
        return Option::None;
    }
    let mut acc: u64 = 0;
    let mut j: usize = start;
    while j < len
        invariant
            start <= j <= len,
            len == s@.len(),
            start <= 1,
            body == s@.skip(start as int),
            body == sign_body(s@),
            forall|k: int| start <= k < j ==> is_digit(s@[k]),
            acc == digits_val(s@.subrange(start as int, j as int)),
            acc <= 0x8000_0000u64,
        decreases len - j,
    {
        let c = s.get_char(j);
        let cv = c as u32;
        if cv < 48 || cv > 57 {
            assert(!is_digit(body[j - start]));
            return Option::None;
        }
        let d = (cv - 48) as u64;
        proof {
            assert(s@.subrange(start as int, j as int) =~= s@.skip(start as int).subrange(
                0,
                j - start,
            ));
            assert(s@.subrange(start as int, j + 1) =~= s@.skip(start as int).subrange(
                0,
                j - start + 1,
            ));
            lemma_digits_val_step(s@.skip(start as int), j - start);
        }
        acc = acc * 10 + d;
        if acc > 0x8000_0000u64 {
            proof {
                if all_digits(body) {
                    assert(body.subrange(0, j - start + 1) =~= s@.subrange(start as int, j + 1));
                    lemma_digits_val_prefix(body, j - start + 1);
                }
            }
            return Option::None;
        }
        j += 1;
    }
    proof {
        assert(s@.subrange(start as int, len as int) =~= body);
        assert(acc == digits_val(body));
        assert(all_digits(body));
    }
    if neg {
        if acc == 0x8000_0000u64 {
            Option::Some(i32::MIN)
        } else {
            Option::Some(0i32 - (acc as i32))
        }
    } else {
        if acc > 0x7FFF_FFFFu64 {
            Option::None
        } else {
            Option::Some(acc as i32)
        }
    }
}

/// Recognises a decimal literal in `usize`'s range and returns its value.
///
/// Returns `Some` exactly on the strings `str::parse::<usize>` accepts:
/// an optional `+`, then only digits, with the value in range.
pub fn parse_usize(s: &str) -> (r: Option<usize>)
    ensures
        r is Some <==> is_usize_literal(s@),
        r matches Some(v) ==> v as int == uint_lit_val(s@),
{
    let len = s.unicode_len();
    if len == 0 {
        return Option::None;
    }
    let c0 = s.get_char(0);
    let start: usize = if c0 == '+' {
        1
    } else {
        0
    };
    let ghost body = plus_body(s@);
    proof {
        assert(body =~= s@.skip(start as int));
    }
    if start == len {
        return Option::None;
    }
    let mut acc: usize = 0;
    let mut j: usize = start;
    while j < len
        invariant
            start <= j <= len,
            len == s@.len(),
            start <= 1,
            body == s@.skip(start as int),
            body == plus_body(s@),
            forall|k: int| start <= k < j ==> is_digit(s@[k]),
            acc == digits_val(s@.subrange(start as int, j as int)),
        decreases len - j,
    {
        let c = s.get_char(j);
        let cv = c as u32;
        if cv < 48 || cv > 57 {
            assert(!is_digit(body[j - start]));
            return Option::None;
        }
        let d = (cv - 48) as usize;
        proof {
            assert(s@.subrange(start as int, j as int) =~= s@.skip(start as int).subrange(
                0,
                j - start,
            ));
            assert(s@.subrange(start as int, j + 1) =~= s@.skip(start as int).subrange(
                0,
                j - start + 1,
            ));
            lemma_digits_val_step(s@.skip(start as int), j - start);
        }
        let next = match acc.checked_mul(10) {
            Option::Some(m) => m.checked_add(d),
            Option::None => Option::None,
        };
        match next {
            Option::Some(v) => {
                acc = v;
            },
            Option::None => {
                proof {
                    if all_digits(body) {
                        assert(body.subrange(0, j - start + 1) =~= s@.subrange(
                            start as int,
                            j + 1,
                        ));
                        lemma_digits_val_prefix(body, j - start + 1);
                        lemma_digits_val_nonneg(s@.subrange(start as int, j as int));
                    }
                }
                return Option::None;
            },
        }
        j += 1;
    }
    proof {
        assert(s@.subrange(start as int, len as int) =~= body);
        assert(acc == digits_val(body));
        assert(all_digits(body));
    }
    Option::Some(acc)
}

/// The canonical decimal digits of `n`, most significant first.
pub open spec fn dec_digits(n: int) -> Seq<char>
    decreases n,
{
    if n <= 0 {
        Seq::empty()
    } else {
        dec_digits(n / 10).push(((n % 10) + 48) as char)
    }
}

/// The canonical decimal rendering of a non-negative number: `0` stands
/// for zero, and no other rendering has a leading zero.
pub open spec fn spec_render_nat(n: int) -> Seq<char> {
    if n == 0 {
        seq!['0']
    } else {
        dec_digits(n)
    }
}

/// The canonical decimal rendering of a signed number.
pub open spec fn spec_render_int(n: int) -> Seq<char> {
    if n < 0 {
        seq!['-'] + spec_render_nat(-n)
    } else {
        spec_render_nat(n)
    }
}

/// Maps a digit value to its character, as text.
fn digit_str(d: usize) -> (r: &'static str)
    requires
        d < 10,
    ensures
        r@ =~= seq![((d + 48) as char)],
{
    proof {
        reveal_strlit("0");
        reveal_strlit("1");
        reveal_strlit("2");
        reveal_strlit("3");
        reveal_strlit("4");
        reveal_strlit("5");
        reveal_strlit("6");
        reveal_strlit("7");
        reveal_strlit("8");
        reveal_strlit("9");
    }
    match d {
        0 => "0",
        1 => "1",
        2 => "2",
        3 => "3",
        4 => "4",
        5 => "5",
        6 => "6",
        7 => "7",
        8 => "8",
        _ => "9",
    }
}

/// Renders a non-negative number in decimal.
pub fn render_usize(n: usize) -> (r: String)
    ensures
        r@ == spec_render_nat(n as int),
{
    if n == 0 {
        let z = strops::str_to_string(digit_str(0));
        return z;
    }
    let mut digits: Vec<usize> = Vec::new();
    let mut m: usize = n;
    while m > 0
        invariant
            0 <= m,
            forall|k: int| 0 <= k < digits@.len() ==> digits@[k] < 10,
            dec_digits(n as int) == dec_digits(m as int) + suffix_digits(digits@, 0),
        decreases m,
    {
        let d = m % 10;
        proof {
            lemma_suffix_push(digits@, d as int, 0);
            assert(dec_digits(m as int) + suffix_digits(digits@, 0) =~= dec_digits(
                m as int / 10,
            ) + suffix_digits(digits@.push(d as usize), 0));
        }
        digits.push(d);
        m = m / 10;
    }
    proof {
        assert(dec_digits(n as int) =~= suffix_digits(digits@, 0));
    }
    let mut out = String::new();
    let mut i: usize = digits.len();
    while i > 0
        invariant
            0 <= i <= digits@.len(),
            forall|k: int| 0 <= k < digits@.len() ==> digits@[k] < 10,
            dec_digits(n as int) == suffix_digits(digits@, 0),
            out@ == suffix_digits(digits@, i as int),
        decreases i,
    {
        i -= 1;
        out.append(digit_str(digits[i]));
        proof {
            assert(out@ =~= suffix_digits(digits@, i as int));
        }
    }
    out
}

/// Renders a signed number in decimal.
pub fn render_i32(n: i32) -> (r: String)
    ensures
        r@ == spec_render_int(n as int),
{
    if n >= 0 {
        let r = render_usize(n as usize);
        return r;
    }
    let mag: usize = if n == i32::MIN {
        0x8000_0000usize
    } else {
        (0i32 - n) as usize
    };
    let mut out = String::new();
    proof {
        reveal_strlit("-");
    }
    out.append("-");
    let rest = render_usize(mag);
    out.append(rest.as_str());
    proof {
        assert(out@ =~= seq!['-'] + spec_render_nat(mag as int));
    }
    out
}

/// The digit characters of `ds` read from index `i` down to the front,
/// most significant first: `ds` holds digits least significant first.
pub open spec fn suffix_digits(ds: Seq<usize>, i: int) -> Seq<char>
    decreases ds.len() - i,
{
    if i < 0 || i >= ds.len() {
        Seq::empty()
    } else {
        suffix_digits(ds, i + 1) + seq![((ds[i] + 48) as char)]
    }
}

/// Appending a digit to `ds` prepends its character to the rendering.
proof fn lemma_suffix_push(ds: Seq<usize>, d: int, i: int)
    requires
        0 <= i <= ds.len(),
        0 <= d < 10,
    ensures
        suffix_digits(ds.push(d as usize), i) =~= seq![((d + 48) as char)] + suffix_digits(
            ds,
            i,
        ),
    decreases ds.len() - i,
{
    let e = ds.push(d as usize);
    if i == ds.len() {
        assert(suffix_digits(e, i) =~= suffix_digits(e, i + 1) + seq![((e[i] + 48) as char)]);
        assert(suffix_digits(e, i + 1) =~= Seq::<char>::empty());
    } else {
        lemma_suffix_push(ds, d, i + 1);
        assert(e[i] == ds[i]);
    }
}

} // verus!
