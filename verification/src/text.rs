//! Character-level helpers: string equality and decimal integer parsing.
use vstd::prelude::*;
use vstd::string::StringSliceAdditionalSpecFns;

verus! {

/// Compares two strings character by character.
pub fn str_eq(a: &str, b: &str) -> (r: bool)
    ensures
        r == (a@ == b@),
{
    let x = a.as_bytes();
    let y = b.as_bytes();
    if x.len() != y.len() {
        return false;
    }
    let mut i: usize = 0;
    while i < x.len()
        invariant
            x@ == a.spec_bytes(),
            y@ == b.spec_bytes(),
            x@.len() == y@.len(),
            i <= x@.len(),
            forall|j: int| 0 <= j < i ==> x@[j] == y@[j],
        decreases x@.len() - i,
    {
        if x[i] != y[i] {
            return false;
        }
        i = i + 1;
    }
    proof {
        assert(x@ =~= y@);
        vstd::utf8::encode_utf8_decode_utf8(a@);
        vstd::utf8::encode_utf8_decode_utf8(b@);
    }
    true
}

} // verus!

verus! {

/// True when `c` is an ASCII decimal digit.
pub open spec fn is_digit(c: char) -> bool {
    '0' <= c <= '9'
}

/// The numeric value of a digit character.
pub open spec fn digit_value(c: char) -> int {
    c as int - '0' as int
}

/// The value of a string of decimal digits, most significant first.
pub open spec fn digits_value(d: Seq<char>) -> int
    decreases d.len(),
{
    if d.len() == 0 {
        0
    } else {
        digits_value(d.drop_last()) * 10 + digit_value(d.last())
    }
}

/// True when every character of `d` is a decimal digit.
pub open spec fn all_digits(d: Seq<char>) -> bool {
    forall|i: int| 0 <= i < d.len() ==> is_digit(#[trigger] d[i])
}

/// The integer written in `s`: an optional `+` or `-` sign followed by at least one
/// decimal digit, with nothing else.
pub open spec fn decimal_value(s: Seq<char>) -> Option<int> {
    let neg = s.len() > 0 && s[0] == '-';
    let signed = s.len() > 0 && (s[0] == '-' || s[0] == '+');
    let body = if signed { s.drop_first() } else { s };
    if body.len() == 0 || !all_digits(body) {
        None
    } else if neg {
        Some(-digits_value(body))
    } else {
        Some(digits_value(body))
    }
}

/// The value of `s` as an integer between `lo` and `hi`, if it is written as one.
pub open spec fn bounded_decimal(s: Seq<char>, lo: int, hi: int) -> Option<int> {
    match decimal_value(s) {
        Some(v) => if lo <= v <= hi { Some(v) } else { None },
        None => None,
    }
}

proof fn lemma_digits_value_nonneg(d: Seq<char>)
    requires
        all_digits(d),
    ensures
        digits_value(d) >= 0,
    decreases d.len(),
{
    if d.len() > 0 {
        lemma_digits_value_nonneg(d.drop_last());
    }
}

/// A longer digit string is worth at least as much as each of its prefixes.
proof fn lemma_digits_value_prefix(d: Seq<char>, k: int)
    requires
        all_digits(d),
        0 <= k <= d.len(),
    ensures
        digits_value(d.take(k)) <= digits_value(d),
    decreases d.len() - k,
{
    if k < d.len() {
        lemma_digits_value_prefix(d, k + 1);
        assert(d.take(k + 1).drop_last() =~= d.take(k));
        lemma_digits_value_nonneg(d.take(k));
    } else {
        assert(d.take(k) =~= d);
    }
}

/// Parses a signed decimal integer between `lo` and `hi` (the bounds of a Rust integer type).
fn parse_bounded(s: &str, lo: i128, hi: i128) -> (r: Option<i128>)
    requires
        -0x8000_0000_0000_0000 <= lo <= 0,
        0 <= hi <= 0x7fff_ffff_ffff_ffff,
    ensures
        r == (match bounded_decimal(s@, lo as int, hi as int) {
            Some(v) => Some(v as i128),
            None => None,
        }),
{
    if !s.is_ascii() {
        proof {
            if decimal_value(s@).is_some() {
                let signed = s@.len() > 0 && (s@[0] == '-' || s@[0] == '+');
                let body = if signed { s@.drop_first() } else { s@ };
                assert forall|i: int| 0 <= i < s@.len() implies '\0' <= #[trigger] s@[i] <= '\u{7f}' by {
                    if i == 0 && signed {
                    } else {
                        let j = if signed { i - 1 } else { i };
                        assert(is_digit(body[j]));
                    }
                }
                assert(vstd::utf8::is_ascii_chars(s@));
            }
        }
        return None;
    }
    let len = s.unicode_len();
    if len == 0 {
        return None;
    }
    let first = s.get_ascii(0);
    proof {
        let c = s@[0];
        assert('\0' <= c <= '\u{7f}');
        let u = c as u32;
        assert(u as u8 == first);
        assert(first as u32 == u) by (bit_vector)
            requires
                u < 128,
                u as u8 == first;
        assert((first == 45u8) == (c == '-'));
        assert((first == 43u8) == (c == '+'));
    }
    let neg = first == 45u8;
    let start: usize = if first == 45u8 || first == 43u8 { 1 } else { 0 };
    if start >= len {
        return None;
    }
    let ghost body = s@.subrange(start as int, s@.len() as int);
    assert(body =~= if start == 1 { s@.drop_first() } else { s@ });
    let limit: i128 = if neg { -lo } else { hi };
    let mut acc: i128 = 0;
    let mut i: usize = start;
    while i < len
        invariant
            s.is_ascii(),
            len == s@.len(),
            start <= i <= len,
            body == s@.subrange(start as int, s@.len() as int),
            s@.len() > 0,
            body == (if s@[0] == '-' || s@[0] == '+' { s@.drop_first() } else { s@ }),
            neg == (s@[0] == '-'),
            limit == (if neg { -lo } else { hi as int }),
            -0x8000_0000_0000_0000 <= lo <= 0,
            0 <= hi <= 0x7fff_ffff_ffff_ffff,
            all_digits(body.take(i - start)),
            acc == digits_value(body.take(i - start)),
            0 <= acc <= limit,
            0 <= limit <= 0x8000_0000_0000_0000,
        decreases len - i,
    {
        let b = s.get_ascii(i);
        proof {
            let c = s@[i as int];
            assert('\0' <= c <= '\u{7f}');
            assert(c as u8 == b);
            assert((c as u32) < 128);
            let u = c as u32;
            assert(u as u8 == b);
            assert(b as u32 == u) by (bit_vector)
                requires
                    u < 128,
                    u as u8 == b;
        }
        if b < 48u8 || b > 57u8 {
            proof {
                assert(body[i - start] == s@[i as int]);
                assert(!is_digit(body[i - start]));
                assert(!all_digits(body));
            }
            return None;
        }
        proof {
            assert(body.take(i - start + 1).drop_last() =~= body.take(i - start));
            assert(body.take(i - start + 1).last() == s@[i as int]);
            assert(all_digits(body.take(i - start + 1)));
        }
        let next = acc * 10 + (b - 48u8) as i128;
        if next > limit {
            proof {
                if all_digits(body) {
                    lemma_digits_value_prefix(body, i - start + 1);
                }
            }
            return None;
        }
        acc = next;
        i = i + 1;
    }
    proof {
        assert(body.take(i - start) =~= body);
    }
    if neg {
        Some(-acc)
    } else {
        Some(acc)
    }
}

/// Parses a decimal `i64` as `str::parse::<i64>` reads one.
pub fn parse_i64(s: &str) -> (r: Option<i64>)
    ensures
        r == (match bounded_decimal(s@, i64::MIN as int, i64::MAX as int) {
            Some(v) => Some(v as i64),
            None => None,
        }),
{
    match parse_bounded(s, i64::MIN as i128, i64::MAX as i128) {
        Some(v) => Some(v as i64),
        None => None,
    }
}

/// Parses a decimal `i32` as `str::parse::<i32>` reads one.
pub fn parse_i32(s: &str) -> (r: Option<i32>)
    ensures
        r == (match bounded_decimal(s@, i32::MIN as int, i32::MAX as int) {
            Some(v) => Some(v as i32),
            None => None,
        }),
{
    match parse_bounded(s, i32::MIN as i128, i32::MAX as i128) {
        Some(v) => Some(v as i32),
        None => None,
    }
}

} // verus!

verus! {

/// The characters of `s`, in order.
pub fn chars_of(s: &str) -> (r: Vec<char>)
    ensures
        r@ == s@,
{
    broadcast use vstd::string::group_string_axioms;
    let mut out: Vec<char> = Vec::new();
    for c in it: s.chars()
        invariant
            out@ == it.seq().take(it.index() as int),
    {
        out.push(c);
    }
    out
}

} // verus!

verus! {

/// The pieces of `s` between occurrences of `sep`, as `str::split` yields them.
pub open spec fn split_on(s: Seq<char>, sep: char) -> Seq<Seq<char>>
    decreases s.len(),
{
    if s.len() == 0 {
        seq![Seq::<char>::empty()]
    } else {
        let prev = split_on(s.drop_last(), sep);
        if s.last() == sep {
            prev.push(Seq::<char>::empty())
        } else {
            prev.update(prev.len() - 1, prev.last().push(s.last()))
        }
    }
}

/// The position of the first `c` in `s`, or the length of `s` when there is none.
pub open spec fn find_char(s: Seq<char>, c: char) -> int
    decreases s.len(),
{
    if s.len() == 0 {
        0
    } else if s[0] == c {
        0
    } else {
        1 + find_char(s.drop_first(), c)
    }
}

/// `find_char` is the first position holding `c`, or the length when none does.
pub proof fn lemma_find_char(s: Seq<char>, c: char, j: int)
    requires
        0 <= j <= s.len(),
        forall|k: int| 0 <= k < j ==> s[k] != c,
        j == s.len() || s[j] == c,
    ensures
        find_char(s, c) == j,
    decreases s.len(),
{
    if s.len() > 0 && j > 0 {
        assert forall|k: int| 0 <= k < j - 1 implies s.drop_first()[k] != c by {
            assert(s.drop_first()[k] == s[k + 1]);
        }
        lemma_find_char(s.drop_first(), c, j - 1);
    }
}

/// Positions of `c` in `s[from..to]`: the first one, or `to` when there is none.
pub fn find_char_in(s: &Vec<char>, c: char, from: usize, to: usize) -> (r: usize)
    requires
        from <= to <= s@.len(),
    ensures
        from <= r <= to,
        r - from == find_char(s@.subrange(from as int, to as int), c),
        forall|k: int| from <= k < r ==> s@[k] != c,
        r < to ==> s@[r as int] == c,
{
    let mut j = from;
    while j < to
        invariant
            from <= j <= to <= s@.len(),
            forall|k: int| from <= k < j ==> s@[k] != c,
        ensures
            from <= j <= to,
            forall|k: int| from <= k < j ==> s@[k] != c,
            j < to ==> s@[j as int] == c,
        decreases to - j,
    {
        if s[j] == c {
            break;
        }
        j = j + 1;
    }
    proof {
        let sub = s@.subrange(from as int, to as int);
        assert forall|k: int| 0 <= k < j - from implies sub[k] != c by {
            assert(sub[k] == s@[from + k]);
        }
        lemma_find_char(sub, c, j - from);
    }
    j
}

} // verus!

verus! {

/// The character of decimal digit `d`.
pub open spec fn digit_char(d: int) -> char {
    (('0' as int) + d) as char
}

/// The decimal digits of `n`, most significant first, with no leading zero.
pub open spec fn nat_text(n: nat) -> Seq<char>
    decreases n,
{
    if n < 10 {
        seq![digit_char(n as int)]
    } else {
        nat_text(n / 10).push(digit_char((n % 10) as int))
    }
}

/// `n` written in decimal, as `to_string` writes an integer: a `-` before negative numbers.
pub open spec fn int_text(n: int) -> Seq<char> {
    if n < 0 {
        seq!['-'] + nat_text((-n) as nat)
    } else {
        nat_text(n as nat)
    }
}

fn push_digit(out: &mut String, d: u64)
    requires
        d < 10,
    ensures
        final(out)@ == old(out)@.push(digit_char(d as int)),
{
    proof {
        reveal_strlit("0");
        reveal_strlit("1");
        reveal_strlit("2");
        reveal_strlit("3");
        reveal_strlit("4");
        reveal_strlit("5");
        reveal_strlit("6");
        reveal_strlit("7");
        reveal_strlit("8");
        reveal_strlit("9");
    }
    let s: &str = if d == 0 {
        "0"
    } else if d == 1 {
        "1"
    } else if d == 2 {
        "2"
    } else if d == 3 {
        "3"
    } else if d == 4 {
        "4"
    } else if d == 5 {
        "5"
    } else if d == 6 {
        "6"
    } else if d == 7 {
        "7"
    } else if d == 8 {
        "8"
    } else {
        "9"
    };
    proof {
        assert(s@ =~= seq![digit_char(d as int)]);
    }
    out.append(s);
}

fn push_nat(out: &mut String, n: u64)
    ensures
        final(out)@ == old(out)@ + nat_text(n as nat),
    decreases n,
{
    if n >= 10 {
        push_nat(out, n / 10);
        push_digit(out, n % 10);
        proof {
            assert(old(out)@ + nat_text((n / 10) as nat) + seq![digit_char((n % 10) as int)]
                =~= old(out)@ + nat_text(n as nat));
        }
    } else {
        push_digit(out, n);
        proof {
            assert(old(out)@.push(digit_char(n as int)) =~= old(out)@ + nat_text(n as nat));
        }
    }
}

/// Appends `n` written in decimal.
pub fn push_int(out: &mut String, n: i64)
    ensures
        final(out)@ == old(out)@ + int_text(n as int),
{
    if n < 0 {
        proof {
            reveal_strlit("-");
        }
        out.append("-");
        let m: u64 = if n == i64::MIN { 0x8000_0000_0000_0000u64 } else { (-n) as u64 };
        push_nat(out, m);
        proof {
            assert(old(out)@ + seq!['-'] + nat_text(m as nat) =~= old(out)@ + int_text(n as int));
        }
    } else {
        push_nat(out, n as u64);
    }
}

} // verus!

verus! {

proof fn lemma_digit_char(d: int)
    requires
        0 <= d < 10,
    ensures
        is_digit(digit_char(d)),
        digit_value(digit_char(d)) == d,
{
    assert(digit_char(d) as int == 48 + d);
}

/// The decimal text of a number is a non-empty run of digits worth that number.
pub proof fn lemma_nat_text(n: nat)
    ensures
        nat_text(n).len() >= 1,
        all_digits(nat_text(n)),
        digits_value(nat_text(n)) == n,
    decreases n,
{
    if n < 10 {
        let s = nat_text(n);
        assert(s.drop_last() =~= Seq::<char>::empty());
        lemma_digit_char(n as int);
        assert(digits_value(s) == digits_value(s.drop_last()) * 10 + digit_value(s.last()));
    } else {
        lemma_nat_text(n / 10);
        lemma_digit_char((n % 10) as int);
        let s = nat_text(n);
        assert(s.drop_last() =~= nat_text(n / 10));
        assert(all_digits(s)) by {
            assert forall|i: int| 0 <= i < s.len() implies is_digit(#[trigger] s[i]) by {
                if i < s.len() - 1 {
                    assert(s[i] == nat_text(n / 10)[i]);
                }
            }
        }
        assert((n / 10) * 10 + n % 10 == n) by (nonlinear_arith);
        assert(s.last() == digit_char((n % 10) as int));
        assert(digits_value(s) == digits_value(s.drop_last()) * 10 + digit_value(s.last()));
    }
}

/// Reading back the decimal text of an integer gives the integer.
pub proof fn lemma_int_text_reads_back(n: int)
    ensures
        decimal_value(int_text(n)) == Some(n),
        forall|i: int| 0 <= i < int_text(n).len() ==> #[trigger] int_text(n)[i] == '-' || is_digit(int_text(n)[i]),
{
    if n < 0 {
        let m = (-n) as nat;
        lemma_nat_text(m);
        let s = int_text(n);
        assert(s.drop_first() =~= nat_text(m));
        assert forall|i: int| 0 <= i < s.len() implies #[trigger] s[i] == '-' || is_digit(s[i]) by {
            if i > 0 {
                assert(s[i] == nat_text(m)[i - 1]);
            }
        }
    } else {
        lemma_nat_text(n as nat);
        let s = int_text(n);
        assert(is_digit(s[0]));
    }
}

/// Splitting a text without `sep` gives the text alone.
pub proof fn lemma_split_on_plain(s: Seq<char>, sep: char)
    requires
        !s.contains(sep),
    ensures
        split_on(s, sep) == seq![s],
    decreases s.len(),
{
    if s.len() > 0 {
        assert(!s.drop_last().contains(sep)) by {
            if s.drop_last().contains(sep) {
                let k = choose|k: int| 0 <= k < s.drop_last().len() && s.drop_last()[k] == sep;
                assert(s[k] == sep);
            }
        }
        lemma_split_on_plain(s.drop_last(), sep);
        assert(s.last() != sep) by {
            assert(s[s.len() - 1] == s.last());
        }
        assert(s.drop_last().push(s.last()) =~= s);
    } else {
        assert(s =~= Seq::<char>::empty());
    }
}

/// Splitting `a`, `sep`, `b`, where `b` holds no `sep`, gives the pieces of `a` and then `b`.
pub proof fn lemma_split_on_join(a: Seq<char>, b: Seq<char>, sep: char)
    requires
        !b.contains(sep),
    ensures
        split_on(a + seq![sep] + b, sep) == split_on(a, sep).push(b),
    decreases b.len(),
{
    let s = a + seq![sep] + b;
    if b.len() == 0 {
        assert(s.drop_last() =~= a);
        assert(b =~= Seq::<char>::empty());
    } else {
        let b0 = b.drop_last();
        assert(!b0.contains(sep)) by {
            if b0.contains(sep) {
                let k = choose|k: int| 0 <= k < b0.len() && b0[k] == sep;
                assert(b[k] == sep);
            }
        }
        lemma_split_on_join(a, b0, sep);
        assert(s.drop_last() =~= a + seq![sep] + b0);
        assert(s.last() == b.last());
        assert(b.last() != sep) by {
            assert(b[b.len() - 1] == b.last());
        }
        let prev = split_on(a, sep).push(b0);
        assert(prev.update(prev.len() - 1, prev.last().push(b.last())) =~= split_on(a, sep).push(b)) by {
            assert(b0.push(b.last()) =~= b);
        }
    }
}

} // verus!
