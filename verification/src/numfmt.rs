//! Decimal rendering and scanning of unsigned numbers, with the lemmas that
//! make length-prefixed framing round-trip.

use vstd::prelude::*;

verus! {

/// The character for one decimal digit.
pub open spec fn digit_char(d: int) -> char {
    if d == 0 {
        '0'
    } else if d == 1 {
        '1'
    } else if d == 2 {
        '2'
    } else if d == 3 {
        '3'
    } else if d == 4 {
        '4'
    } else if d == 5 {
        '5'
    } else if d == 6 {
        '6'
    } else if d == 7 {
        '7'
    } else if d == 8 {
        '8'
    } else {
        '9'
    }
}

/// The value of one decimal digit character, `-1` for any other character.
pub open spec fn digit_of(c: char) -> int {
    if c == '0' {
        0
    } else if c == '1' {
        1
    } else if c == '2' {
        2
    } else if c == '3' {
        3
    } else if c == '4' {
        4
    } else if c == '5' {
        5
    } else if c == '6' {
        6
    } else if c == '7' {
        7
    } else if c == '8' {
        8
    } else if c == '9' {
        9
    } else {
        -1
    }
}

pub open spec fn is_digit(c: char) -> bool {
    digit_of(c) >= 0
}

/// The decimal digits of `n`, most significant first.
pub open spec fn dec_digits(n: nat) -> Seq<char>
    decreases n,
{
    if n < 10 {
        seq![digit_char(n as int)]
    } else {
        dec_digits(n / 10) + seq![digit_char((n % 10) as int)]
    }
}

/// The number read from a digit string, most significant first.
pub open spec fn dec_val(s: Seq<char>) -> int
    decreases s.len(),
{
    if s.len() == 0 {
        0
    } else {
        dec_val(s.drop_last()) * 10 + digit_of(s.last())
    }
}

pub open spec fn all_digits(s: Seq<char>) -> bool {
    forall|i: int| 0 <= i < s.len() ==> is_digit(#[trigger] s[i])
}

pub proof fn lemma_dec_digits_wf(n: nat)
    ensures
        dec_digits(n).len() >= 1,
        all_digits(dec_digits(n)),
    decreases n,
{
    if n < 10 {
    } else {
        lemma_dec_digits_wf(n / 10);
        assert forall|i: int| 0 <= i < dec_digits(n).len() implies is_digit(
            #[trigger] dec_digits(n)[i],
        ) by {
            if i < dec_digits(n / 10).len() {
                assert(dec_digits(n)[i] == dec_digits(n / 10)[i]);
            }
        }
    }
}

/// Rendering then reading a number gives the number back.
pub proof fn lemma_dec_val_of_digits(n: nat)
    ensures
        dec_val(dec_digits(n)) == n,
    decreases n,
{
    if n < 10 {
        let s = dec_digits(n);
        assert(s.len() == 1);
        assert(dec_val(s) == dec_val(s.drop_last()) * 10 + digit_of(s.last()));
        assert(dec_val(s.drop_last()) == 0);
        assert(digit_of(digit_char(n as int)) == n);
    } else {
        lemma_dec_val_of_digits(n / 10);
        lemma_dec_digits_wf(n / 10);
        let s = dec_digits(n);
        assert(s.drop_last() =~= dec_digits(n / 10));
        assert(s.last() == digit_char((n % 10) as int));
        assert(digit_of(digit_char((n % 10) as int)) == n % 10);
        assert(n == (n / 10) * 10 + n % 10) by {
            vstd::arithmetic::div_mod::lemma_fundamental_div_mod(n as int, 10);
        }
    }
}

/// Digit strings read to nonnegative numbers.
pub proof fn lemma_dec_val_nonneg(s: Seq<char>)
    requires
        all_digits(s),
    ensures
        dec_val(s) >= 0,
    decreases s.len(),
{
    if s.len() > 0 {
        assert(all_digits(s.drop_last())) by {
            assert(forall|i: int| 0 <= i < s.len() - 1 ==> s.drop_last()[i] == s[i]);
        }
        lemma_dec_val_nonneg(s.drop_last());
        assert(is_digit(s.last()));
    }
}

/// Reading a prefix of a digit string never gives more than the whole.
pub proof fn lemma_dec_val_prefix(s: Seq<char>, i: int)
    requires
        all_digits(s),
        0 <= i <= s.len(),
    ensures
        dec_val(s.subrange(0, i)) <= dec_val(s),
    decreases s.len() - i,
{
    if i == s.len() {
        assert(s.subrange(0, i) =~= s);
    } else {
        lemma_dec_val_prefix(s, i + 1);
        let t = s.subrange(0, i + 1);
        assert(t.drop_last() =~= s.subrange(0, i));
        assert(all_digits(s.subrange(0, i))) by {
            assert(forall|j: int| 0 <= j < i ==> s.subrange(0, i)[j] == s[j]);
        }
        lemma_dec_val_nonneg(s.subrange(0, i));
        assert(dec_val(t) == dec_val(s.subrange(0, i)) * 10 + digit_of(t.last()));
        assert(is_digit(s[i]));
    }
}

/// The digit prefix of `s` and what follows it.
pub open spec fn split_digits(s: Seq<char>) -> (Seq<char>, Seq<char>)
    decreases s.len(),
{
    if s.len() == 0 || !is_digit(s[0]) {
        (Seq::empty(), s)
    } else {
        let (d, r) = split_digits(s.drop_first());
        (seq![s[0]] + d, r)
    }
}

/// `split_digits` really splits `s` into a maximal digit prefix and the rest.
pub proof fn lemma_split_digits_shape(s: Seq<char>)
    ensures
        s =~= split_digits(s).0 + split_digits(s).1,
        all_digits(split_digits(s).0),
        split_digits(s).1.len() > 0 ==> !is_digit(split_digits(s).1[0]),
    decreases s.len(),
{
    if s.len() == 0 || !is_digit(s[0]) {
    } else {
        lemma_split_digits_shape(s.drop_first());
        let (d, r) = split_digits(s.drop_first());
        assert(s.drop_first() =~= d + r);
        assert(s =~= seq![s[0]] + s.drop_first());
        assert(seq![s[0]] + (d + r) =~= (seq![s[0]] + d) + r);
        assert(all_digits(seq![s[0]] + d)) by {
            assert(forall|i: int| 1 <= i < d.len() + 1 ==> (seq![s[0]] + d)[i] == d[i - 1]);
        }
    }
}

/// Splitting a digit string followed by a non-digit boundary finds exactly
/// that digit string.
pub proof fn lemma_split_digits_exact(d: Seq<char>, rest: Seq<char>)
    requires
        all_digits(d),
        rest.len() > 0 ==> !is_digit(rest[0]),
    ensures
        split_digits(d + rest) == (d, rest),
    decreases d.len(),
{
    let s = d + rest;
    if d.len() == 0 {
        assert(s =~= rest);
        if rest.len() == 0 || !is_digit(rest[0]) {
            assert(split_digits(s) == (Seq::<char>::empty(), s));
            assert(Seq::<char>::empty() =~= d);
        }
    } else {
        assert(is_digit(s[0]));
        assert(s.drop_first() =~= d.drop_first() + rest);
        assert(all_digits(d.drop_first())) by {
            assert(forall|i: int| 0 <= i < d.len() - 1 ==> d.drop_first()[i] == d[i + 1]);
        }
        lemma_split_digits_exact(d.drop_first(), rest);
        assert(seq![s[0]] + d.drop_first() =~= d);
    }
}

/// Reading an unsigned number from the front of `s`: the maximal digit
/// prefix, rejected when empty or when its value does not fit in `u64`.
pub open spec fn parse_num(s: Seq<char>) -> Option<(int, Seq<char>)> {
    let (d, r) = split_digits(s);
    if d.len() == 0 {
        None
    } else if dec_val(d) > u64::MAX {
        None
    } else {
        Some((dec_val(d), r))
    }
}

/// Reading a rendered number back: the number and the untouched rest.
pub proof fn lemma_parse_num_of_digits(n: nat, rest: Seq<char>)
    requires
        n <= u64::MAX,
        rest.len() > 0 ==> !is_digit(rest[0]),
    ensures
        parse_num(dec_digits(n) + rest) == Some((n as int, rest)),
{
    lemma_dec_digits_wf(n);
    lemma_split_digits_exact(dec_digits(n), rest);
    lemma_dec_val_of_digits(n);
}

/// The decimal rendering of `n`.
pub fn u64_to_dec(n: u64) -> (r: String)
    ensures
        r@ == dec_digits(n as nat),
    decreases n,
{
    if n < 10 {
        digit_str(n).to_owned()
    } else {
        let mut s = u64_to_dec(n / 10);
        s.append(digit_str(n % 10));
        proof {
            assert(s@ =~= dec_digits(n as nat));
        }
        s
    }
}

/// The character for one decimal digit, as a string slice.
fn digit_str(d: u64) -> (r: &'static str)
    requires
        d < 10,
    ensures
        r@ =~= seq![digit_char(d as int)],
{
    proof {
        reveal_strlit("0");
        reveal_strlit("1");
        reveal_strlit("2");
        reveal_strlit("3");
        reveal_strlit("4");
        reveal_strlit("5");
        reveal_strlit("6");
        reveal_strlit("7");
        reveal_strlit("8");
        reveal_strlit("9");
    }
    match d {
        0 => "0",
        1 => "1",
        2 => "2",
        3 => "3",
        4 => "4",
        5 => "5",
        6 => "6",
        7 => "7",
        8 => "8",
        _ => "9",
    }
}

/// Whether `c` is a decimal digit; its value if so.
fn digit_value(c: char) -> (r: Option<u64>)
    ensures
        match r {
            Some(v) => is_digit(c) && v == digit_of(c),
            None => !is_digit(c),
        },
{
    match c {
        '0' => Some(0),
        '1' => Some(1),
        '2' => Some(2),
        '3' => Some(3),
        '4' => Some(4),
        '5' => Some(5),
        '6' => Some(6),
        '7' => Some(7),
        '8' => Some(8),
        '9' => Some(9),
        _ => None,
    }
}

/// The suffix of `s` from `i` on.
pub open spec fn suffix(s: Seq<char>, i: int) -> Seq<char> {
    s.subrange(i, s.len() as int)
}

/// Scans an unsigned decimal number at position `from` of `s`, mirroring
/// [`parse_num`] on the suffix.
pub fn scan_num(s: &str, from: usize) -> (r: Option<(u64, usize)>)
    requires
        from <= s@.len(),
    ensures
        match r {
            Some(v) => from < v.1 <= s@.len() && parse_num(suffix(s@, from as int)) == Some(
                (v.0 as int, suffix(s@, v.1 as int)),
            ),
            None => parse_num(suffix(s@, from as int)) is None,
        },
{
    let n = s.unicode_len();
    let mut i: usize = from;
    let mut acc: u64 = 0;
    proof {
        assert(s@.subrange(from as int, from as int) =~= Seq::<char>::empty());
    }
    while i < n
        invariant
            from <= i <= n,
            n == s@.len(),
            all_digits(s@.subrange(from as int, i as int)),
            acc == dec_val(s@.subrange(from as int, i as int)),
        decreases n - i,
    {
        let c = s.get_char(i);
        match digit_value(c) {
            None => {
                // The digit run ends here, on a non-digit.
                let ghost run = s@.subrange(from as int, i as int);
                proof {
                    assert(suffix(s@, i as int)[0] == s@[i as int]);
                    lemma_split_digits_exact(run, suffix(s@, i as int));
                    assert(run + suffix(s@, i as int) =~= suffix(s@, from as int));
                    lemma_dec_val_nonneg(run);
                }
                if i == from {
                    return None;
                }
                return Some((acc, i));
            },
            Some(d) => {
                let ghost run = s@.subrange(from as int, i as int);
                let ghost run1 = s@.subrange(from as int, i + 1 as int);
                proof {
                    assert(run1.drop_last() =~= run);
                    assert(run1.last() == s@[i as int]);
                    assert(all_digits(run1)) by {
                        assert(forall|j: int| 0 <= j < run.len() ==> run1[j] == run[j]);
                    }
                }
                let next = match acc.checked_mul(10) {
                    Some(m) => m.checked_add(d),
                    None => None,
                };
                match next {
                    Some(v) => {
                        acc = v;
                        i += 1;
                    },
                    None => {
                        // The run's value no longer fits in `u64`; the whole
                        // maximal run can only be larger.
                        proof {
                            lemma_scan_overflow(s@, from as int, i + 1 as int);
                        }
                        return None;
                    },
                }
            },
        }
    }
    // The digit run reaches the end of `s`.
    let ghost run = s@.subrange(from as int, i as int);
    proof {
        lemma_split_digits_exact(run, suffix(s@, i as int));
        assert(run + suffix(s@, i as int) =~= suffix(s@, from as int));
        lemma_dec_val_nonneg(run);
    }
    if i == from {
        None
    } else {
        Some((acc, i))
    }
}

/// If some digit prefix of the suffix at `from` exceeds `u64::MAX`, the
/// number scan at `from` fails.
proof fn lemma_scan_overflow(s: Seq<char>, from: int, over: int)
    requires
        0 <= from <= over <= s.len(),
        all_digits(s.subrange(from, over)),
        dec_val(s.subrange(from, over)) > u64::MAX,
    ensures
        parse_num(suffix(s, from)) is None,
{
    let u = suffix(s, from);
    let (d, r) = split_digits(u);
    lemma_split_digits_shape(u);
    if d.len() < over - from {
        // The maximal run would end inside the known digit run.
        assert(is_digit(u[d.len() as int]));
        assert(u[d.len() as int] == r[0]);
    } else {
        assert(s.subrange(from, over) =~= d.subrange(0, over - from));
        lemma_dec_val_prefix(d, over - from);
    }
}

} // verus!
