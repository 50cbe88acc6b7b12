//! String helpers with specifications: equality, conversion between strings
//! and character vectors, and decimal rendering of integers.

use vstd::prelude::*;
use vstd::string::*;
use vstd::std_specs::iter::IteratorSpec;
use vstd::utf8::*;

verus! {

broadcast use {vstd::seq::group_seq_axioms, vstd::string::group_string_axioms};

/// Whether two strings hold the same characters.
pub fn str_eq(a: &str, b: &str) -> (r: bool)
    ensures
        r == (a@ == b@),
{
    let x = a.as_bytes();
    let y = b.as_bytes();
    proof {
        encode_utf8_decode_utf8(a@);
        encode_utf8_decode_utf8(b@);
    }
    if x.len() != y.len() {
        return false;
    }
    let mut i: usize = 0;
    while i < x.len()
        invariant
            x@.len() == y@.len(),
            i <= x@.len(),
            x@ == encode_utf8(a@),
            y@ == encode_utf8(b@),
            forall|j: int| 0 <= j < i ==> x@[j] == y@[j],
        decreases x@.len() - i,
    {
        if x[i] != y[i] {
            return false;
        }
        i = i + 1;
    }
    proof {
        assert(x@ =~= y@);
    }
    true
}


/// Append one character (`String::push`).
#[verifier::external_body]
pub(crate) fn push_char(s: &mut String, c: char)
    ensures
        final(s)@ == old(s)@.push(c),
{
    s.push(c);
}

/// Append a string.
pub fn push_str(s: &mut String, t: &str)
    ensures
        final(s)@ == old(s)@ + t@,
{
    s.append(t);
}

/// A string holding the characters of `t`.
pub fn to_string(t: &str) -> (s: String)
    ensures
        s@ == t@,
{
    String::from_str(t)
}

/// The characters of a string, in order.
pub fn chars_of(t: &str) -> (v: Vec<char>)
    ensures
        v@ == t@,
{
    let mut v: Vec<char> = Vec::new();
    let mut it = t.chars();
    let ghost all = t@;
    proof {
        assert(all.skip(0) =~= all);
        assert(v@ =~= all.take(0));
    }
    let mut done = false;
    while !done
        invariant
            all == t@,
            !done ==> it.remaining() == all.skip(v@.len() as int),
            done ==> v@ == all,
            v@ == all.take(v@.len() as int),
            v@.len() <= all.len(),
        decreases all.len() - v@.len() + (if done { 0int } else { 1int }),
    {
        match it.next() {
            Some(c) => {
                proof {
                    assert(all.skip(v@.len() as int).len() > 0);
                    assert(c == all[v@.len() as int]);
                }
                v.push(c);
                proof {
                    assert(v@ =~= all.take(v@.len() as int));
                }
            },
            None => {
                proof {
                    assert(all.skip(v@.len() as int).len() == 0);
                    assert(v@ =~= all);
                }
                done = true;
            },
        }
    }
    v
}

/// A string holding the characters of `v`.
pub fn string_of(v: &[char]) -> (s: String)
    ensures
        s@ == v@,
{
    let mut s = String::new();
    let mut i: usize = 0;
    while i < v.len()
        invariant
            i <= v@.len(),
            s@ == v@.take(i as int),
        decreases v@.len() - i,
    {
        push_char(&mut s, v[i]);
        proof {
            assert(v@.take(i + 1) =~= v@.take(i as int).push(v@[i as int]));
        }
        i = i + 1;
    }
    proof {
        assert(v@.take(v@.len() as int) =~= v@);
    }
    s
}

/// The decimal digit for `d < 10`.
pub open spec fn digit_char(d: nat) -> char {
    if d == 0 {
        '0'
    } else if d == 1 {
        '1'
    } else if d == 2 {
        '2'
    } else if d == 3 {
        '3'
    } else if d == 4 {
        '4'
    } else if d == 5 {
        '5'
    } else if d == 6 {
        '6'
    } else if d == 7 {
        '7'
    } else if d == 8 {
        '8'
    } else {
        '9'
    }
}

fn digit(d: u64) -> (c: char)
    requires
        d < 10,
    ensures
        c == digit_char(d as nat),
{
    if d == 0 {
        '0'
    } else if d == 1 {
        '1'
    } else if d == 2 {
        '2'
    } else if d == 3 {
        '3'
    } else if d == 4 {
        '4'
    } else if d == 5 {
        '5'
    } else if d == 6 {
        '6'
    } else if d == 7 {
        '7'
    } else if d == 8 {
        '8'
    } else {
        '9'
    }
}

/// Decimal digits of `n`, without leading zeros ("0" for zero).
pub open spec fn spec_decimal(n: nat) -> Seq<char>
    decreases n,
{
    if n < 10 {
        seq![digit_char(n)]
    } else {
        spec_decimal(n / 10).push(digit_char(n % 10))
    }
}

/// Decimal rendering of a signed integer.
pub open spec fn spec_signed_decimal(n: int) -> Seq<char> {
    if n < 0 {
        seq!['-'] + spec_decimal((-n) as nat)
    } else {
        spec_decimal(n as nat)
    }
}

/// Append the decimal digits of `n`.
pub fn push_decimal(s: &mut String, n: u64)
    ensures
        final(s)@ == old(s)@ + spec_decimal(n as nat),
    decreases n,
{
    if n >= 10 {
        push_decimal(s, n / 10);
    }
    push_char(s, digit(n % 10));
    proof {
        if n < 10 {
            assert(n % 10 == n);
        }
    }
}

/// Decimal rendering of an unsigned integer.
pub fn decimal(n: u64) -> (s: String)
    ensures
        s@ == spec_decimal(n as nat),
{
    let mut s = String::new();
    push_decimal(&mut s, n);
    proof {
        assert(s@ =~= spec_decimal(n as nat));
    }
    s
}

/// Decimal rendering of a signed integer, with a leading `-` when negative.
pub fn signed_decimal(n: i64) -> (s: String)
    ensures
        s@ == spec_signed_decimal(n as int),
{
    let mut s = String::new();
    if n < 0 {
        push_char(&mut s, '-');
        let m: u64 = if n == i64::MIN {
            9_223_372_036_854_775_808u64
        } else {
            (-n) as u64
        };
        push_decimal(&mut s, m);
    } else {
        push_decimal(&mut s, n as u64);
    }
    proof {
        assert(s@ =~= spec_signed_decimal(n as int));
    }
    s
}

/// The hexadecimal digit for `d < 16`, in upper or lower case.
pub open spec fn hex_char(d: nat, upper: bool) -> char {
    if d < 10 {
        digit_char(d)
    } else if upper {
        if d == 10 {
            'A'
        } else if d == 11 {
            'B'
        } else if d == 12 {
            'C'
        } else if d == 13 {
            'D'
        } else if d == 14 {
            'E'
        } else {
            'F'
        }
    } else {
        if d == 10 {
            'a'
        } else if d == 11 {
            'b'
        } else if d == 12 {
            'c'
        } else if d == 13 {
            'd'
        } else if d == 14 {
            'e'
        } else {
            'f'
        }
    }
}

/// The hexadecimal digits of `x`, zero-padded on the left to at least `w`
/// digits (and no digits at all for `x == 0, w == 0`).
pub open spec fn hex_pad(x: nat, w: nat, upper: bool) -> Seq<char>
    decreases x, w,
{
    if x == 0 && w == 0 {
        Seq::empty()
    } else {
        hex_pad(x / 16, if w > 0 { (w - 1) as nat } else { 0 }, upper).push(hex_char(x % 16, upper))
    }
}

fn hex_digit(d: u64, upper: bool) -> (c: char)
    requires
        d < 16,
    ensures
        c == hex_char(d as nat, upper),
{
    if d < 10 {
        digit(d)
    } else if upper {
        if d == 10 {
            'A'
        } else if d == 11 {
            'B'
        } else if d == 12 {
            'C'
        } else if d == 13 {
            'D'
        } else if d == 14 {
            'E'
        } else {
            'F'
        }
    } else {
        if d == 10 {
            'a'
        } else if d == 11 {
            'b'
        } else if d == 12 {
            'c'
        } else if d == 13 {
            'd'
        } else if d == 14 {
            'e'
        } else {
            'f'
        }
    }
}

/// Append the hexadecimal digits of `x`, zero-padded to at least `w` digits.
pub fn push_hex(s: &mut String, x: u64, w: u64, upper: bool)
    ensures
        final(s)@ == old(s)@ + hex_pad(x as nat, w as nat, upper),
    decreases x, w,
{
    if x == 0 && w == 0 {
        proof {
            assert(old(s)@ + hex_pad(0, 0, upper) =~= old(s)@);
        }
        return;
    }
    push_hex(s, x / 16, if w > 0 { w - 1 } else { 0 }, upper);
    push_char(s, hex_digit(x % 16, upper));
    proof {
        assert(s@ =~= old(s)@ + hex_pad(x as nat, w as nat, upper));
    }
}

// ── Integer text ─────────────────────────────────────────────────────────────

pub open spec fn is_digit(c: char) -> bool {
    '0' <= c && c <= '9'
}

pub open spec fn digit_value(c: char) -> nat {
    (c as nat - '0' as nat) as nat
}

/// The number written by a string of decimal digits.
pub open spec fn digits_value(s: Seq<char>) -> nat
    decreases s.len(),
{
    if s.len() == 0 {
        0
    } else {
        digits_value(s.drop_last()) * 10 + digit_value(s.last())
    }
}

/// A non-empty string of decimal digits.
pub open spec fn all_digits(s: Seq<char>) -> bool {
    s.len() > 0 && forall|i: int| 0 <= i < s.len() ==> is_digit(#[trigger] s[i])
}

proof fn lemma_digit_char(d: nat)
    requires
        d < 10,
    ensures
        is_digit(digit_char(d)),
        digit_value(digit_char(d)) == d,
{
}

/// The decimal rendering of `n` is a string of digits that reads back as `n`.
pub proof fn lemma_decimal_reads_back(n: nat)
    ensures
        all_digits(spec_decimal(n)),
        digits_value(spec_decimal(n)) == n,
    decreases n,
{
    if n < 10 {
        lemma_digit_char(n);
        let s = spec_decimal(n);
        assert(s.drop_last() =~= Seq::<char>::empty());
        assert(digits_value(s.drop_last()) == 0);
        assert(s.last() == digit_char(n));
        assert(digits_value(s) == digits_value(s.drop_last()) * 10 + digit_value(s.last()));
    } else {
        lemma_decimal_reads_back(n / 10);
        lemma_digit_char(n % 10);
        let s = spec_decimal(n);
        assert(s.drop_last() =~= spec_decimal(n / 10));
        assert(s.last() == digit_char(n % 10));
        assert(digits_value(s) == digits_value(s.drop_last()) * 10 + digit_value(s.last()));
        assert((n / 10) * 10 + n % 10 == n);
        assert forall|i: int| 0 <= i < s.len() implies is_digit(#[trigger] s[i]) by {
            if i < s.len() - 1 {
                assert(s[i] == spec_decimal(n / 10)[i]);
            }
        }
    }
}

/// Integers rendered in decimal parse back, signed ones with a leading `-`.
pub proof fn lemma_parse_decimal(x: int, signed: bool)
    requires
        x >= 0 || signed,
    ensures
        spec_parse_integer(
            if x < 0 {
                spec_signed_decimal(x)
            } else {
                spec_decimal(x as nat)
            },
            signed,
        ) == Some(x),
        x >= 0 ==> spec_signed_decimal(x) == spec_decimal(x as nat),
{
    if x < 0 {
        let m = (-x) as nat;
        lemma_decimal_reads_back(m);
        let s = spec_signed_decimal(x);
        assert(s.drop_first() =~= spec_decimal(m));
    } else {
        lemma_decimal_reads_back(x as nat);
        let s = spec_decimal(x as nat);
        assert(is_digit(s[0]));
    }
}

/// The integer written by `s` as `str::parse` reads integers: an optional `+`
/// (or `-`, for signed types) followed by at least one decimal digit.
pub open spec fn spec_parse_integer(s: Seq<char>, signed: bool) -> Option<int> {
    if s.len() > 0 && s[0] == '+' {
        if all_digits(s.drop_first()) {
            Some(digits_value(s.drop_first()) as int)
        } else {
            None
        }
    } else if s.len() > 0 && s[0] == '-' && signed {
        if all_digits(s.drop_first()) {
            Some(-(digits_value(s.drop_first()) as int))
        } else {
            None
        }
    } else if all_digits(s) {
        Some(digits_value(s) as int)
    } else {
        None
    }
}

/// Magnitudes at least this large are out of range for every integer type.
pub const INT_CAP: u128 = 0x1_0000_0000_0000_0000u128;

/// `x` clamped to `[-INT_CAP, INT_CAP]`.
pub open spec fn clamp_cap(x: int) -> int {
    if x > INT_CAP {
        INT_CAP as int
    } else if x < -(INT_CAP as int) {
        -(INT_CAP as int)
    } else {
        x
    }
}

/// The value of the digits `v[start..]`, capped at `INT_CAP`; `None` when
/// that range is empty or holds a non-digit.
fn digits_capped(v: &Vec<char>, start: usize) -> (r: Option<u128>)
    requires
        start <= v@.len(),
    ensures
        match r {
            Some(x) => all_digits(v@.skip(start as int)) && x as int == (if digits_value(
                v@.skip(start as int),
            ) >= INT_CAP {
                INT_CAP as int
            } else {
                digits_value(v@.skip(start as int)) as int
            }),
            None => !all_digits(v@.skip(start as int)),
        },
{
    let ghost d = v@.skip(start as int);
    if start >= v.len() {
        return None;
    }
    let mut acc: u128 = 0;
    let mut i: usize = start;
    while i < v.len()
        invariant
            start <= i <= v@.len(),
            d == v@.skip(start as int),
            forall|j: int| 0 <= j < i - start ==> is_digit(#[trigger] d[j]),
            acc <= INT_CAP,
            acc as int == (if digits_value(d.take(i - start)) >= INT_CAP {
                INT_CAP as int
            } else {
                digits_value(d.take(i - start)) as int
            }),
        decreases v@.len() - i,
    {
        let c = v[i];
        if !('0' <= c && c <= '9') {
            proof {
                assert(!is_digit(d[i - start]));
            }
            return None;
        }
        let dv = (c as u32 - '0' as u32) as u128;
        proof {
            let p = d.take(i - start);
            let q = d.take(i - start + 1);
            assert(q.drop_last() =~= p);
            assert(q.last() == c);
            assert(digits_value(q) == digits_value(p) * 10 + digit_value(c));
        }
        if acc >= INT_CAP {
            acc = INT_CAP;
        } else {
            let next = acc * 10 + dv;
            acc = if next >= INT_CAP {
                INT_CAP
            } else {
                next
            };
        }
        i = i + 1;
    }
    proof {
        assert(d.take(d.len() as int) =~= d);
    }
    Some(acc)
}

/// Read an integer as `str::parse` does, with magnitudes of `2^64` and above
/// reported as `±2^64`.
pub fn parse_integer(s: &str, signed: bool) -> (r: Option<i128>)
    ensures
        match spec_parse_integer(s@, signed) {
            Some(x) => r == Some(clamp_cap(x) as i128),
            None => r is None,
        },
{
    let v = chars_of(s);
    if v.len() > 0 && v[0] == '+' {
        proof {
            assert(v@.skip(1) =~= s@.drop_first());
        }
        match digits_capped(&v, 1) {
            Some(x) => Some(x as i128),
            None => None,
        }
    } else if v.len() > 0 && v[0] == '-' && signed {
        proof {
            assert(v@.skip(1) =~= s@.drop_first());
        }
        match digits_capped(&v, 1) {
            Some(x) => Some(-(x as i128)),
            None => None,
        }
    } else {
        proof {
            assert(v@.skip(0) =~= s@);
        }
        match digits_capped(&v, 0) {
            Some(x) => Some(x as i128),
            None => None,
        }
    }
}

/// Every character is ASCII.
pub open spec fn all_ascii(s: Seq<char>) -> bool {
    forall|i: int| 0 <= i < s.len() ==> (#[trigger] s[i] as u32) < 128
}

/// ASCII lowercasing: `A`–`Z` become `a`–`z`, every other character stays.
pub open spec fn ascii_lower(s: Seq<char>) -> Seq<char> {
    s.map_values(
        |c: char|
            if 'A' <= c && c <= 'Z' {
                ((c as u32) + 32) as char
            } else {
                c
            },
    )
}

/// The lowercase form of a string that is not all ASCII
/// (`str::to_lowercase`): the Unicode lowercase mapping of every character.
pub uninterp spec fn unicode_lowercase(s: Seq<char>) -> Seq<char>;

/// The lowercase form of a string (`str::to_lowercase`): for ASCII text,
/// `A`–`Z` become `a`–`z` and every other character stays; otherwise the
/// Unicode lowercase mapping, named [`unicode_lowercase`].
#[verifier::opaque]
pub open spec fn lowercase(s: Seq<char>) -> Seq<char> {
    if all_ascii(s) {
        ascii_lower(s)
    } else {
        unicode_lowercase(s)
    }
}

/// `str::to_lowercase`.  On ASCII text it maps `A`–`Z` to `a`–`z` and keeps
/// every other character; on other text its result is a fixed function of
/// the input (Unicode's lowercase mapping), named [`unicode_lowercase`].
#[verifier::external_body]
pub(crate) fn to_lowercase(s: &str) -> (r: String)
    ensures
        r@ == lowercase(s@),
        all_ascii(s@) ==> r@ == ascii_lower(s@),
        !all_ascii(s@) ==> r@ == unicode_lowercase(s@),
{
    s.to_lowercase()
}

// ── Replacing characters ─────────────────────────────────────────────────────

/// `s` with every occurrence of `c` replaced by `rep`.
pub open spec fn spec_replace_char(s: Seq<char>, c: char, rep: Seq<char>) -> Seq<char>
    decreases s.len(),
{
    if s.len() == 0 {
        Seq::empty()
    } else {
        spec_replace_char(s.drop_last(), c, rep) + if s.last() == c {
            rep
        } else {
            seq![s.last()]
        }
    }
}

/// Replace every occurrence of `c` in `s` by `rep` (`str::replace` with a
/// character pattern).
pub fn replace_char(s: &str, c: char, rep: &str) -> (r: String)
    ensures
        r@ == spec_replace_char(s@, c, rep@),
{
    let v = chars_of(s);
    let mut r = String::new();
    let mut i: usize = 0;
    while i < v.len()
        invariant
            v@ == s@,
            i <= v@.len(),
            r@ == spec_replace_char(v@.take(i as int), c, rep@),
        decreases v@.len() - i,
    {
        proof {
            assert(v@.take(i + 1).drop_last() =~= v@.take(i as int));
        }
        if v[i] == c {
            push_str(&mut r, rep);
        } else {
            push_char(&mut r, v[i]);
        }
        proof {
            assert(r@ =~= spec_replace_char(v@.take(i + 1), c, rep@));
        }
        i = i + 1;
    }
    proof {
        assert(v@.take(v@.len() as int) =~= v@);
    }
    r
}

// ── Ordering strings ─────────────────────────────────────────────────────────

/// `a` comes strictly before `b` in lexicographic order of characters (the
/// order of `str`, since UTF-8 preserves the order of code points).
pub open spec fn seq_less(a: Seq<char>, b: Seq<char>) -> bool
    decreases a.len(),
{
    if b.len() == 0 {
        false
    } else if a.len() == 0 {
        true
    } else if a[0] != b[0] {
        a[0] < b[0]
    } else {
        seq_less(a.drop_first(), b.drop_first())
    }
}

/// The order of strings is strict, transitive and total.
pub proof fn lemma_seq_less_order(a: Seq<char>, b: Seq<char>, c: Seq<char>)
    ensures
        !seq_less(a, a),
        seq_less(a, b) ==> !seq_less(b, a),
        seq_less(a, b) && seq_less(b, c) ==> seq_less(a, c),
        a != b ==> seq_less(a, b) || seq_less(b, a),
    decreases a.len(),
{
    if a.len() > 0 {
        lemma_seq_less_order(a.drop_first(), b.drop_first(), c.drop_first());
        lemma_seq_less_order(a.drop_first(), a.drop_first(), a.drop_first());
        if b.len() > 0 && a[0] == b[0] && a.drop_first() == b.drop_first() {
            assert(a =~= seq![a[0]] + a.drop_first());
            assert(b =~= seq![b[0]] + b.drop_first());
        }
    } else {
        if b.len() == 0 {
            assert(a =~= b);
        }
    }
}

proof fn lemma_seq_less_skip(a: Seq<char>, b: Seq<char>, i: int)
    requires
        0 <= i <= a.len(),
        i <= b.len(),
        a.take(i) == b.take(i),
    ensures
        seq_less(a, b) == seq_less(a.skip(i), b.skip(i)),
    decreases i,
{
    if i > 0 {
        assert(a[0] == a.take(i)[0]);
        assert(b[0] == b.take(i)[0]);
        assert(a.drop_first().take(i - 1) =~= a.take(i).drop_first());
        assert(b.drop_first().take(i - 1) =~= b.take(i).drop_first());
        lemma_seq_less_skip(a.drop_first(), b.drop_first(), i - 1);
        assert(a.drop_first().skip(i - 1) =~= a.skip(i));
        assert(b.drop_first().skip(i - 1) =~= b.skip(i));
    } else {
        assert(a.skip(0) =~= a);
        assert(b.skip(0) =~= b);
    }
}

/// Whether `a` comes strictly before `b`.
pub fn str_less(a: &str, b: &str) -> (r: bool)
    ensures
        r == seq_less(a@, b@),
{
    let x = chars_of(a);
    let y = chars_of(b);
    let mut i: usize = 0;
    while i < x.len() && i < y.len()
        invariant
            x@ == a@,
            y@ == b@,
            i <= x@.len(),
            i <= y@.len(),
            x@.take(i as int) == y@.take(i as int),
        decreases x@.len() - i,
    {
        if x[i] != y[i] {
            proof {
                lemma_seq_less_skip(x@, y@, i as int);
                assert(x@.skip(i as int)[0] == x@[i as int]);
                assert(y@.skip(i as int)[0] == y@[i as int]);
            }
            return x[i] < y[i];
        }
        proof {
            assert(x@.take(i + 1) =~= x@.take(i as int).push(x@[i as int]));
            assert(y@.take(i + 1) =~= y@.take(i as int).push(y@[i as int]));
        }
        i = i + 1;
    }
    proof {
        lemma_seq_less_skip(x@, y@, i as int);
    }
    i == x.len() && i < y.len()
}

} // verus!
