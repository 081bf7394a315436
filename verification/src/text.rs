//! Text: decimal integers, splitting on a separator, and UTF-8.

use vstd::prelude::*;
use vstd::string::StringSliceAdditionalSpecFns;

verus! {

/// `String::push`: appends one `char`.
#[verifier::external_body]
pub(crate) fn push_char(s: &mut String, c: char)
    ensures
        final(s)@ == old(s)@.push(c),
{
    s.push(c)
}

/// `std::str::from_utf8`: the bytes read as a string slice when they are
/// valid UTF-8, whose bytes are then exactly the given ones.
#[verifier::external_body]
pub(crate) fn utf8_str(bytes: &[u8]) -> (r: Option<&str>)
    ensures
        r is Some <==> vstd::utf8::valid_utf8(bytes@),
        r matches Some(s) ==> s.spec_bytes() == bytes@,
{
    match std::str::from_utf8(bytes) {
        Ok(s) => Some(s),
        Err(_) => None,
    }
}

pub open spec fn split_on(s: Seq<char>, sep: char) -> Seq<Seq<char>>
    decreases s.len(),
{
    if s.len() == 0 {
        seq![Seq::<char>::empty()]
    } else {
        let init = split_on(s.drop_last(), sep);
        if s.last() == sep {
            init.push(Seq::<char>::empty())
        } else {
            init.update(init.len() - 1, init.last().push(s.last()))
        }
    }
}

pub proof fn lemma_split_nonempty(s: Seq<char>, sep: char)
    ensures
        split_on(s, sep).len() >= 1,
    decreases s.len(),
{
    if s.len() > 0 {
        lemma_split_nonempty(s.drop_last(), sep);
    }
}

pub fn split_string(s: &str, sep: char) -> (parts: Vec<String>)
    ensures
        parts@.map_values(|p: String| p@) == split_on(s@, sep),
{
    let mut parts: Vec<String> = Vec::new();
    let mut cur = String::new();
    let ghost mut seen: Seq<char> = Seq::empty();
    for c in it: s.chars()
        invariant
            it.seq() == s@,
            seen == s@.take(it.index() as int),
            split_on(seen, sep) == parts@.map_values(|p: String| p@).push(cur@),
    {
        proof { lemma_split_nonempty(seen, sep); }
        let ghost old_seen = seen;
        proof { seen = seen.push(c); }
        assert(seen.drop_last() == old_seen);
        if c == sep {
            let done = cur;
            parts.push(done);
            cur = String::new();
        } else {
            push_char(&mut cur, c);
        }
        assert(split_on(seen, sep) == parts@.map_values(|p: String| p@).push(cur@));
    }
    parts.push(cur);
    assert(s@.take(s@.len() as int) == s@);
    parts
}

/// The character of a decimal digit.
pub open spec fn digit_char(d: int) -> char {
    (48 + d) as char
}

pub open spec fn is_digit(c: char) -> bool {
    '0' <= c && c <= '9'
}

pub open spec fn digit_value(c: char) -> int {
    c as int - 48
}

/// The decimal digits of `n`, with no leading zero.
pub open spec fn decimal_nat(n: nat) -> Seq<char>
    decreases n,
{
    if n < 10 {
        seq![digit_char(n as int)]
    } else {
        decimal_nat(n / 10).push(digit_char((n % 10) as int))
    }
}

/// `v` written in decimal, as `Display` writes an integer: a `-` before the
/// digits of a negative number.
pub open spec fn decimal(v: int) -> Seq<char> {
    if v < 0 {
        seq!['-'] + decimal_nat((-v) as nat)
    } else {
        decimal_nat(v as nat)
    }
}

fn digit(d: u64) -> (c: char)
    requires
        d < 10,
    ensures
        c == digit_char(d as int),
{
    (48u8 + d as u8) as char
}

/// Appends `n` in decimal, as `write!(s, "{}", n)` does for an unsigned
/// integer.
pub fn push_decimal(s: &mut String, n: u64)
    ensures
        final(s)@ == old(s)@ + decimal_nat(n as nat),
    decreases n,
{
    if n >= 10 {
        push_decimal(s, n / 10);
    }
    push_char(s, digit(n % 10));
}

/// Appends `v` in decimal, as `write!(s, "{}", v)` does.
pub fn push_i32(s: &mut String, v: i32)
    ensures
        final(s)@ == old(s)@ + decimal(v as int),
{
    if v < 0 {
        push_char(s, '-');
        let mag: u64 = (-(v as i64)) as u64;
        push_decimal(s, mag);
    } else {
        push_decimal(s, v as u64);
    }
}

pub open spec fn all_digits(s: Seq<char>) -> bool {
    forall|i: int| 0 <= i < s.len() ==> #[trigger] is_digit(s[i])
}

/// The value of a run of decimal digits.
pub open spec fn digits_value(s: Seq<char>) -> int
    decreases s.len(),
{
    if s.len() == 0 {
        0
    } else {
        digits_value(s.drop_last()) * 10 + digit_value(s.last())
    }
}

/// What `str::parse::<i32>` gives: an optional `+` or `-`, then at least one
/// decimal digit and nothing else, of a value within `i32`; `None` where it
/// returns an error.
pub open spec fn parse_i32(s: Seq<char>) -> Option<i32> {
    let neg = s.len() > 0 && s[0] == '-';
    let body = if s.len() > 0 && (s[0] == '-' || s[0] == '+') {
        s.drop_first()
    } else {
        s
    };
    let v = if neg {
        -digits_value(body)
    } else {
        digits_value(body)
    };
    if body.len() == 0 || !all_digits(body) || v < i32::MIN || v > i32::MAX {
        None
    } else {
        Some(v as i32)
    }
}

proof fn lemma_digits_value_grows(s: Seq<char>, k: int)
    requires
        all_digits(s),
        0 <= k <= s.len(),
    ensures
        digits_value(s.take(k)) <= digits_value(s),
        0 <= digits_value(s.take(k)),
    decreases s.len() - k,
{
    if k < s.len() {
        lemma_digits_value_grows(s, k + 1);
        let t = s.take(k + 1);
        assert(t.drop_last() == s.take(k));
        assert(is_digit(s[k]));
        assert(t.last() == s[k]);
    } else {
        assert(s.take(k) == s);
        lemma_digits_value_nonneg(s);
    }
}

proof fn lemma_digits_value_nonneg(s: Seq<char>)
    requires
        all_digits(s),
    ensures
        0 <= digits_value(s),
    decreases s.len(),
{
    if s.len() > 0 {
        assert(is_digit(s[s.len() - 1]));
        lemma_digits_value_nonneg(s.drop_last());
    }
}

/// Collects the chars of a string slice.
fn chars_of(s: &str) -> (v: Vec<char>)
    ensures
        v@ == s@,
{
    let mut v: Vec<char> = Vec::new();
    for c in it: s.chars()
        invariant
            it.seq() == s@,
            v@ == s@.take(it.index() as int),
    {
        v.push(c);
        assert(v@ == s@.take(it.index() as int + 1));
    }
    assert(s@.take(s@.len() as int) == s@);
    v
}

/// `str::parse::<i32>`, with `None` in place of its error.
pub fn str_to_i32(s: &str) -> (r: Option<i32>)
    ensures
        r == parse_i32(s@),
{
    let cs = chars_of(s);
    let n = cs.len();
    if n == 0 {
        return None;
    }
    let neg = cs[0] == '-';
    let start: usize = if cs[0] == '-' || cs[0] == '+' {
        1
    } else {
        0
    };
    let ghost body = if cs@[0] == '-' || cs@[0] == '+' {
        cs@.drop_first()
    } else {
        cs@
    };
    assert(body == cs@.skip(start as int));
    if start == n {
        return None;
    }
    let mut acc: i64 = 0;
    let mut i: usize = start;
    while i < n
        invariant
            start <= i <= n,
            n == cs@.len(),
            cs@ == s@,
            n > 0,
            neg == (cs@[0] == '-'),
            body == (if cs@[0] == '-' || cs@[0] == '+' {
                cs@.drop_first()
            } else {
                cs@
            }),
            body == cs@.skip(start as int),
            all_digits(body.take(i - start)),
            acc == digits_value(body.take(i - start)),
            0 <= acc <= 2147483648,
        decreases n - i,
    {
        let c = cs[i];
        let ghost k = i - start;
        assert(body[k] == c);
        if !('0' <= c && c <= '9') {
            assert(!is_digit(body[k]));
            assert(!all_digits(body));
            return None;
        }
        let d = (c as u32 - 48) as i64;
        assert(body.take(k + 1).drop_last() == body.take(k));
        assert(all_digits(body.take(k + 1))) by {
            assert forall|j: int| 0 <= j < k + 1 implies #[trigger] is_digit(body.take(k + 1)[j]) by {
                if j < k {
                    assert(body.take(k + 1)[j] == body.take(k)[j]);
                }
            }
        }
        acc = acc * 10 + d;
        i = i + 1;
        if acc > 2147483648 {
            proof {
                if all_digits(body) {
                    lemma_digits_value_grows(body, k + 1);
                }
            }
            return None;
        }
    }
    assert(body.take(n - start) == body);
    let v: i64 = if neg {
        -acc
    } else {
        acc
    };
    if v < -2147483648 || v > 2147483647 {
        None
    } else {
        Some(v as i32)
    }
}

pub proof fn lemma_decimal_nat(n: nat)
    ensures
        decimal_nat(n).len() >= 1,
        all_digits(decimal_nat(n)),
        digits_value(decimal_nat(n)) == n,
    decreases n,
{
    if n < 10 {
        let c = digit_char(n as int);
        assert(c as int == 48 + n);
        assert(decimal_nat(n).drop_last() =~= Seq::<char>::empty());
        assert(decimal_nat(n).last() == c);
        assert(digits_value(Seq::<char>::empty()) == 0);
        assert(digits_value(decimal_nat(n)) == digits_value(decimal_nat(n).drop_last()) * 10
            + digit_value(c));
    } else {
        lemma_decimal_nat(n / 10);
        let c = digit_char((n % 10) as int);
        assert(c as int == 48 + n % 10);
        let s = decimal_nat(n);
        assert(s.drop_last() == decimal_nat(n / 10));
        assert(s.last() == c);
        assert(digits_value(s) == digits_value(decimal_nat(n / 10)) * 10 + digit_value(c));
        assert((n / 10) * 10 + n % 10 == n);
        assert forall|i: int| 0 <= i < s.len() implies #[trigger] is_digit(s[i]) by {
            if i < s.len() - 1 {
                assert(s[i] == decimal_nat(n / 10)[i]);
            }
        }
    }
}

/// Reading back a decimal `i32` gives the number: `str::parse::<i32>` undoes
/// `Display` on every `i32`.
pub proof fn law_parse_decimal(v: i32)
    ensures
        parse_i32(decimal(v as int)) == Some(v),
{
    if v < 0 {
        let m = (-v) as nat;
        lemma_decimal_nat(m);
        let s = decimal(v as int);
        assert(s.drop_first() == decimal_nat(m));
        assert(s[0] == '-');
    } else {
        lemma_decimal_nat(v as nat);
        let s = decimal(v as int);
        assert(is_digit(s[0]));
    }
}

/// Splitting text that holds no separator extends the last part.
pub proof fn lemma_split_no_sep(a: Seq<char>, b: Seq<char>, sep: char)
    requires
        !b.contains(sep),
    ensures
        split_on(a + b, sep) == split_on(a, sep).update(
            split_on(a, sep).len() - 1,
            split_on(a, sep).last() + b,
        ),
    decreases b.len(),
{
    lemma_split_nonempty(a, sep);
    if b.len() == 0 {
        assert(a + b =~= a);
        assert(split_on(a, sep).last() + b =~= split_on(a, sep).last());
        assert(split_on(a, sep).update(split_on(a, sep).len() - 1, split_on(a, sep).last())
            =~= split_on(a, sep));
    } else {
        let b0 = b.drop_last();
        assert(!b0.contains(sep)) by {
            if b0.contains(sep) {
                let i = choose|i: int| 0 <= i < b0.len() && b0[i] == sep;
                assert(b[i] == sep);
            }
        }
        lemma_split_no_sep(a, b0, sep);
        lemma_split_nonempty(a + b0, sep);
        assert((a + b).drop_last() =~= a + b0);
        assert((a + b).last() == b.last());
        assert(b.last() != sep) by {
            assert(b[b.len() - 1] == b.last());
        }
        let sa = split_on(a, sep);
        let init = split_on(a + b0, sep);
        assert(init.len() == sa.len());
        assert(init.last() == sa.last() + b0);
        assert(split_on(a + b, sep) == init.update(init.len() - 1, init.last().push(b.last())));
        assert((sa.last() + b0).push(b.last()) =~= sa.last() + b);
        assert(split_on(a + b, sep) =~= split_on(a, sep).update(
            split_on(a, sep).len() - 1,
            split_on(a, sep).last() + b,
        ));
    }
}

/// A separator followed by text without separators opens a new last part.
pub proof fn lemma_split_sep(a: Seq<char>, b: Seq<char>, sep: char)
    requires
        !b.contains(sep),
    ensures
        split_on(a + seq![sep] + b, sep) == split_on(a, sep).push(b),
{
    let a1 = a + seq![sep];
    assert(a1.drop_last() =~= a);
    assert(a1.last() == sep);
    assert(split_on(a1, sep) == split_on(a, sep).push(Seq::<char>::empty()));
    lemma_split_no_sep(a1, b, sep);
    assert(Seq::<char>::empty() + b =~= b);
    assert(split_on(a, sep).push(Seq::<char>::empty()).update(
        split_on(a, sep).len() as int,
        b,
    ) =~= split_on(a, sep).push(b));
}

/// Text without separators is one part.
pub proof fn lemma_split_single(b: Seq<char>, sep: char)
    requires
        !b.contains(sep),
    ensures
        split_on(b, sep) == seq![b],
{
    lemma_split_no_sep(Seq::<char>::empty(), b, sep);
    assert(Seq::<char>::empty() + b =~= b);
    assert(split_on(Seq::<char>::empty(), sep) == seq![Seq::<char>::empty()]);
    assert(seq![Seq::<char>::empty()].update(0, Seq::<char>::empty() + b) =~= seq![b]);
}

/// A decimal holds only digits and perhaps a leading `-`, so no other
/// character.
pub proof fn lemma_decimal_chars(v: int, c: char)
    requires
        !is_digit(c),
        c != '-',
    ensures
        !decimal(v).contains(c),
{
    let d = decimal_nat(if v < 0 { (-v) as nat } else { v as nat });
    lemma_decimal_nat(if v < 0 { (-v) as nat } else { v as nat });
    if decimal(v).contains(c) {
        let i = choose|i: int| 0 <= i < decimal(v).len() && decimal(v)[i] == c;
        if v < 0 {
            assert(i > 0);
            assert(decimal(v)[i] == d[i - 1]);
            assert(is_digit(d[i - 1]));
        } else {
            assert(is_digit(d[i]));
        }
    }
}

/// Decimal digits are the ASCII digits: the last character of the
/// digits of `n` is `'0'` plus `n % 10`, the digits before it are those of
/// `n / 10` (none when `n < 10`), every character lies in `'0'..='9'`, and
/// only zero itself opens with `'0'`.
pub proof fn law_decimal_digits(n: nat)
    ensures
        decimal_nat(n).len() >= 1,
        forall|i: int|
            0 <= i < decimal_nat(n).len() ==> '0' <= #[trigger] decimal_nat(n)[i] && decimal_nat(
                n,
            )[i] <= '9',
        decimal_nat(n).last() as int == 48 + n % 10,
        n < 10 ==> decimal_nat(n).len() == 1,
        n >= 10 ==> decimal_nat(n).drop_last() == decimal_nat(n / 10),
        decimal_nat(n)[0] == '0' ==> n == 0,
    decreases n,
{
    lemma_decimal_nat(n);
    let d = decimal_nat(n);
    assert forall|i: int| 0 <= i < d.len() implies '0' <= #[trigger] d[i] && d[i] <= '9' by {
        assert(is_digit(d[i]));
    }
    if n < 10 {
        assert(digit_char(n as int) as int == 48 + n);
    } else {
        assert(digit_char((n % 10) as int) as int == 48 + n % 10);
        law_decimal_digits(n / 10);
        assert(d[0] == decimal_nat(n / 10)[0]);
    }
}

/// A negative number is written as `-` and the digits of its magnitude; any
/// other as its digits alone.
pub proof fn law_decimal_sign(v: int)
    ensures
        v < 0 ==> decimal(v) == seq!['-'] + decimal_nat((-v) as nat),
        v >= 0 ==> decimal(v) == decimal_nat(v as nat),
        decimal(v)[0] == '-' <==> v < 0,
{
    law_decimal_digits(if v < 0 { (-v) as nat } else { v as nat });
}

/// `parse_i32` accepts only ASCII digits, after an optional leading sign,
/// and at least one of them.
pub proof fn law_parse_digits_only(s: Seq<char>)
    ensures
        parse_i32(s) is Some ==> {
            &&& s.len() >= 1
            &&& !(s.len() == 1 && (s[0] == '-' || s[0] == '+'))
            &&& forall|i: int|
                0 <= i < s.len() ==> ('0' <= #[trigger] s[i] && s[i] <= '9') || (i == 0 && (s[0]
                    == '-' || s[0] == '+'))
        },
{
    if parse_i32(s) is Some {
        let body = if s.len() > 0 && (s[0] == '-' || s[0] == '+') {
            s.drop_first()
        } else {
            s
        };
        assert forall|i: int| 0 <= i < s.len() implies ('0' <= #[trigger] s[i] && s[i] <= '9') || (i
            == 0 && (s[0] == '-' || s[0] == '+')) by {
            if s[0] == '-' || s[0] == '+' {
                if i > 0 {
                    assert(s[i] == body[i - 1]);
                    assert(is_digit(body[i - 1]));
                }
            } else {
                assert(is_digit(body[i]));
            }
        }
    }
}

/// Splitting on a separator cuts at every separator and nowhere else: no
/// part holds the separator, and the parts joined back with it give the
/// text.
pub proof fn law_split_parts(s: Seq<char>, sep: char)
    ensures
        forall|i: int|
            0 <= i < split_on(s, sep).len() ==> !(#[trigger] split_on(s, sep)[i]).contains(sep),
        joined(split_on(s, sep), sep) == s,
    decreases s.len(),
{
    lemma_split_nonempty(s, sep);
    if s.len() == 0 {
        let p = split_on(s, sep);
        assert(p == seq![Seq::<char>::empty()]);
        assert(joined(p, sep) =~= Seq::<char>::empty() + joined(Seq::<Seq<char>>::empty(), sep)) by {
            assert(p.drop_last() =~= Seq::<Seq<char>>::empty());
        }
        assert forall|i: int| 0 <= i < p.len() implies !(#[trigger] p[i]).contains(sep) by {
            assert(p[i] =~= Seq::<char>::empty());
        }
    } else {
        let init = split_on(s.drop_last(), sep);
        law_split_parts(s.drop_last(), sep);
        lemma_split_nonempty(s.drop_last(), sep);
        let p = split_on(s, sep);
        if s.last() == sep {
            assert(p == init.push(Seq::<char>::empty()));
            assert(p.drop_last() =~= init);
            assert(joined(p, sep) == joined(init, sep) + seq![sep] + Seq::<char>::empty());
            assert(joined(p, sep) =~= s);
            assert forall|i: int| 0 <= i < p.len() implies !(#[trigger] p[i]).contains(sep) by {
                if i < init.len() {
                    assert(p[i] == init[i]);
                } else {
                    assert(p[i] =~= Seq::<char>::empty());
                }
            }
        } else {
            let l = init.len() - 1;
            assert(p == init.update(l, init.last().push(s.last())));
            assert(init.last().push(s.last()).drop_last() =~= init.last());
            lemma_joined_last(init, sep, init.last().push(s.last()));
            assert(s =~= s.drop_last().push(s.last()));
            assert(joined(p, sep) =~= s);
            assert forall|i: int| 0 <= i < p.len() implies !(#[trigger] p[i]).contains(sep) by {
                if i < l {
                    assert(p[i] == init[i]);
                } else {
                    let q = init.last().push(s.last());
                    if q.contains(sep) {
                        let j = choose|j: int| 0 <= j < q.len() && q[j] == sep;
                        if j < q.len() - 1 {
                            assert(init[l].contains(sep)) by {
                                assert(init[l][j] == sep);
                            }
                        }
                    }
                }
            }
        }
    }
}

/// Parts joined with the separator between each two.
pub open spec fn joined(parts: Seq<Seq<char>>, sep: char) -> Seq<char>
    decreases parts.len(),
{
    if parts.len() == 0 {
        Seq::<char>::empty()
    } else if parts.len() == 1 {
        parts[0]
    } else {
        joined(parts.drop_last(), sep) + seq![sep] + parts.last()
    }
}

proof fn lemma_joined_last(parts: Seq<Seq<char>>, sep: char, q: Seq<char>)
    requires
        parts.len() >= 1,
        q.len() >= 1,
        q.drop_last() == parts.last(),
    ensures
        joined(parts.update(parts.len() - 1, q), sep) == joined(parts, sep).push(q.last()),
{
    let u = parts.update(parts.len() - 1, q);
    assert(u.drop_last() =~= parts.drop_last());
    if parts.len() == 1 {
        assert(joined(u, sep) == q);
        assert(joined(parts, sep) == parts[0]);
        assert(q =~= parts[0].push(q.last()));
    } else {
        assert(joined(u, sep) =~= joined(parts, sep).push(q.last()));
    }
}

} // verus!
