//! The preference file format: a verified codec between a preference list
//! and the text persisted in the source's preference file.
//!
//! Every string is length-prefixed (`<decimal length>:<characters>`), options
//! are tagged `n`/`s`, booleans `t`/`f`, and the file opens with the entry
//! count, so decoding is a single deterministic left-to-right scan.

use crate::input::{Input, InputV, inputs_view};
use crate::numfmt::{
    all_digits, dec_digits, dec_val, is_digit, parse_num, scan_num, split_digits, suffix,
    u64_to_dec, lemma_parse_num_of_digits, lemma_dec_digits_wf,
};
use vstd::prelude::*;

verus! {

// ---------------------------------------------------------------------------
// The rendered form.
// ---------------------------------------------------------------------------
/// A length-prefixed string.
pub open spec fn net(t: Seq<char>) -> Seq<char> {
    dec_digits(t.len()) + seq![':'] + t
}

pub open spec fn opt_str_chars(o: Option<Seq<char>>) -> Seq<char> {
    match o {
        None => seq!['n'],
        Some(t) => seq!['s'] + net(t),
    }
}

pub open spec fn opt_bool_chars(o: Option<bool>) -> Seq<char> {
    match o {
        None => seq!['n'],
        Some(b) => if b {
            seq!['t']
        } else {
            seq!['f']
        },
    }
}

/// A signed decimal number.
pub open spec fn int_chars(v: int) -> Seq<char> {
    if v >= 0 {
        dec_digits(v as nat)
    } else {
        seq!['-'] + dec_digits((-v) as nat)
    }
}

pub open spec fn opt_int_chars(o: Option<int>) -> Seq<char> {
    match o {
        None => seq!['n'],
        Some(v) => seq!['s'] + int_chars(v),
    }
}

/// The choices of a select input, one length-prefixed string each.
pub open spec fn values_chars(vs: Seq<Seq<char>>) -> Seq<char>
    decreases vs.len(),
{
    if vs.len() == 0 {
        Seq::empty()
    } else {
        net(vs[0]) + values_chars(vs.drop_first())
    }
}

/// One rendered preference entry.
pub open spec fn input_chars(iv: InputV) -> Seq<char> {
    match iv {
        InputV::Text { name, state } => seq!['t'] + net(name) + opt_str_chars(state),
        InputV::Checkbox { name, state } => seq!['b'] + net(name) + opt_bool_chars(state),
        InputV::Select { name, values, state } => seq!['c'] + net(name) + dec_digits(values.len())
            + seq![':'] + values_chars(values) + opt_int_chars(state),
    }
}

/// The rendered entries, back to back.
pub open spec fn inputs_body(es: Seq<InputV>) -> Seq<char>
    decreases es.len(),
{
    if es.len() == 0 {
        Seq::empty()
    } else {
        input_chars(es[0]) + inputs_body(es.drop_first())
    }
}

/// A whole preference file: the entry count, then the entries.
pub open spec fn inputs_chars(es: Seq<InputV>) -> Seq<char> {
    dec_digits(es.len()) + seq![':'] + inputs_body(es)
}

// ---------------------------------------------------------------------------
// Bounds under which every count and length fits the scanner.
// ---------------------------------------------------------------------------
pub open spec fn bounded_input(iv: InputV) -> bool {
    match iv {
        InputV::Text { name, state } => name.len() <= u64::MAX && (match state {
            Some(t) => t.len() <= u64::MAX,
            None => true,
        }),
        InputV::Checkbox { name, state: _ } => name.len() <= u64::MAX,
        InputV::Select { name, values, state } => name.len() <= u64::MAX && values.len()
            <= u64::MAX && (forall|i: int| 0 <= i < values.len() ==> (#[trigger] values[i]).len()
            <= u64::MAX) && (match state {
            Some(v) => i64::MIN <= v <= i64::MAX,
            None => true,
        }),
    }
}

pub open spec fn bounded_inputs(es: Seq<InputV>) -> bool {
    es.len() <= u64::MAX && forall|i: int| 0 <= i < es.len() ==> bounded_input(#[trigger] es[i])
}

// ---------------------------------------------------------------------------
// Reading the rendered form back, from the front.
// ---------------------------------------------------------------------------
/// Reads a length-prefixed string.
pub open spec fn parse_net(s: Seq<char>) -> Option<(Seq<char>, Seq<char>)> {
    match parse_num(s) {
        None => None,
        Some((n, r)) => {
            if r.len() < 1 || r[0] != ':' {
                None
            } else if r.len() - 1 < n {
                None
            } else {
                Some((r.subrange(1, 1 + n), r.subrange(1 + n, r.len() as int)))
            }
        },
    }
}

pub open spec fn parse_opt_str(s: Seq<char>) -> Option<(Option<Seq<char>>, Seq<char>)> {
    if s.len() == 0 {
        None
    } else if s[0] == 'n' {
        Some((None, s.drop_first()))
    } else if s[0] == 's' {
        match parse_net(s.drop_first()) {
            Some((t, r)) => Some((Some(t), r)),
            None => None,
        }
    } else {
        None
    }
}

pub open spec fn parse_opt_bool(s: Seq<char>) -> Option<(Option<bool>, Seq<char>)> {
    if s.len() == 0 {
        None
    } else if s[0] == 'n' {
        Some((None, s.drop_first()))
    } else if s[0] == 't' {
        Some((Some(true), s.drop_first()))
    } else if s[0] == 'f' {
        Some((Some(false), s.drop_first()))
    } else {
        None
    }
}

/// Reads a signed number that fits an `i64`.
pub open spec fn parse_int(s: Seq<char>) -> Option<(int, Seq<char>)> {
    if s.len() > 0 && s[0] == '-' {
        match parse_num(s.drop_first()) {
            Some((n, r)) => if 1 <= n <= -(i64::MIN as int) {
                Some((-n, r))
            } else {
                None
            },
            None => None,
        }
    } else {
        match parse_num(s) {
            Some((n, r)) => if n <= i64::MAX {
                Some((n, r))
            } else {
                None
            },
            None => None,
        }
    }
}

pub open spec fn parse_opt_int(s: Seq<char>) -> Option<(Option<int>, Seq<char>)> {
    if s.len() == 0 {
        None
    } else if s[0] == 'n' {
        Some((None, s.drop_first()))
    } else if s[0] == 's' {
        match parse_int(s.drop_first()) {
            Some((v, r)) => Some((Some(v), r)),
            None => None,
        }
    } else {
        None
    }
}

/// Reads `n` length-prefixed strings.
pub open spec fn parse_values(s: Seq<char>, n: nat) -> Option<(Seq<Seq<char>>, Seq<char>)>
    decreases n,
{
    if n == 0 {
        Some((Seq::empty(), s))
    } else {
        match parse_net(s) {
            Some((t, r)) => match parse_values(r, (n - 1) as nat) {
                Some((vs, r2)) => Some((seq![t] + vs, r2)),
                None => None,
            },
            None => None,
        }
    }
}

/// Reads one preference entry.
pub open spec fn parse_input(s: Seq<char>) -> Option<(InputV, Seq<char>)> {
    if s.len() == 0 {
        None
    } else if s[0] == 't' {
        match parse_net(s.drop_first()) {
            Some((name, r)) => match parse_opt_str(r) {
                Some((state, r2)) => Some((InputV::Text { name, state }, r2)),
                None => None,
            },
            None => None,
        }
    } else if s[0] == 'b' {
        match parse_net(s.drop_first()) {
            Some((name, r)) => match parse_opt_bool(r) {
                Some((state, r2)) => Some((InputV::Checkbox { name, state }, r2)),
                None => None,
            },
            None => None,
        }
    } else if s[0] == 'c' {
        match parse_net(s.drop_first()) {
            Some((name, r)) => match parse_num(r) {
                Some((cnt, r2)) => {
                    if r2.len() < 1 || r2[0] != ':' {
                        None
                    } else {
                        match parse_values(r2.drop_first(), cnt as nat) {
                            Some((values, r3)) => match parse_opt_int(r3) {
                                Some((state, r4)) => Some(
                                    (InputV::Select { name, values, state }, r4),
                                ),
                                None => None,
                            },
                            None => None,
                        }
                    }
                },
                None => None,
            },
            None => None,
        }
    } else {
        None
    }
}

/// Reads `n` preference entries.
pub open spec fn parse_inputs_n(s: Seq<char>, n: nat) -> Option<(Seq<InputV>, Seq<char>)>
    decreases n,
{
    if n == 0 {
        Some((Seq::empty(), s))
    } else {
        match parse_input(s) {
            Some((iv, r)) => match parse_inputs_n(r, (n - 1) as nat) {
                Some((es, r2)) => Some((seq![iv] + es, r2)),
                None => None,
            },
            None => None,
        }
    }
}

/// Reads a whole preference file; the file must hold nothing else.
pub open spec fn decode_spec(s: Seq<char>) -> Option<Seq<InputV>> {
    match parse_num(s) {
        None => None,
        Some((n, r)) => {
            if r.len() < 1 || r[0] != ':' {
                None
            } else {
                match parse_inputs_n(r.drop_first(), n as nat) {
                    Some((es, rest)) => if rest.len() == 0 {
                        Some(es)
                    } else {
                        None
                    },
                    None => None,
                }
            }
        },
    }
}

// ---------------------------------------------------------------------------
// The round trip: reading a rendered value gives the value back.
// ---------------------------------------------------------------------------
pub proof fn lemma_parse_net_of_net(t: Seq<char>, rest: Seq<char>)
    requires
        t.len() <= u64::MAX,
    ensures
        parse_net(net(t) + rest) == Some((t, rest)),
{
    let after = seq![':'] + t + rest;
    assert(net(t) + rest =~= dec_digits(t.len()) + after);
    assert(!is_digit(':'));
    lemma_parse_num_of_digits(t.len(), after);
    assert(after[0] == ':');
    assert(after.len() - 1 >= t.len());
    assert(after.subrange(1, 1 + t.len() as int) =~= t);
    assert(after.subrange(1 + t.len() as int, after.len() as int) =~= rest);
}

pub proof fn lemma_parse_opt_str_of(o: Option<Seq<char>>, rest: Seq<char>)
    requires
        match o {
            Some(t) => t.len() <= u64::MAX,
            None => true,
        },
    ensures
        parse_opt_str(opt_str_chars(o) + rest) == Some((o, rest)),
{
    match o {
        None => {
            let s = opt_str_chars(o) + rest;
            assert(s[0] == 'n');
            assert(s.drop_first() =~= rest);
        },
        Some(t) => {
            let s = opt_str_chars(o) + rest;
            assert(s[0] == 's');
            assert(s.drop_first() =~= net(t) + rest);
            lemma_parse_net_of_net(t, rest);
        },
    }
}

pub proof fn lemma_parse_opt_bool_of(o: Option<bool>, rest: Seq<char>)
    ensures
        parse_opt_bool(opt_bool_chars(o) + rest) == Some((o, rest)),
{
    let s = opt_bool_chars(o) + rest;
    assert(s.drop_first() =~= rest);
}

pub proof fn lemma_parse_int_of_int(v: int, rest: Seq<char>)
    requires
        i64::MIN <= v <= i64::MAX,
        rest.len() > 0 ==> !is_digit(rest[0]),
    ensures
        parse_int(int_chars(v) + rest) == Some((v, rest)),
{
    let s = int_chars(v) + rest;
    if v >= 0 {
        lemma_parse_num_of_digits(v as nat, rest);
        assert(s =~= dec_digits(v as nat) + rest);
        lemma_dec_digits_wf(v as nat);
        assert(is_digit(s[0]));
        assert(s[0] != '-');
    } else {
        assert(s[0] == '-');
        assert(s.drop_first() =~= dec_digits((-v) as nat) + rest);
        lemma_parse_num_of_digits((-v) as nat, rest);
    }
}

pub proof fn lemma_parse_opt_int_of(o: Option<int>, rest: Seq<char>)
    requires
        match o {
            Some(v) => i64::MIN <= v <= i64::MAX,
            None => true,
        },
        rest.len() > 0 ==> !is_digit(rest[0]),
    ensures
        parse_opt_int(opt_int_chars(o) + rest) == Some((o, rest)),
{
    match o {
        None => {
            let s = opt_int_chars(o) + rest;
            assert(s[0] == 'n');
            assert(s.drop_first() =~= rest);
        },
        Some(v) => {
            let s = opt_int_chars(o) + rest;
            assert(s[0] == 's');
            assert(s.drop_first() =~= int_chars(v) + rest);
            lemma_parse_int_of_int(v, rest);
        },
    }
}

pub proof fn lemma_parse_values_of(vs: Seq<Seq<char>>, rest: Seq<char>)
    requires
        forall|i: int| 0 <= i < vs.len() ==> (#[trigger] vs[i]).len() <= u64::MAX,
    ensures
        parse_values(values_chars(vs) + rest, vs.len()) == Some((vs, rest)),
    decreases vs.len(),
{
    if vs.len() == 0 {
        assert(values_chars(vs) + rest =~= rest);
        assert(seq![] + vs =~= vs);
        assert(Seq::<Seq<char>>::empty() =~= vs);
    } else {
        let s = values_chars(vs) + rest;
        assert(s =~= net(vs[0]) + (values_chars(vs.drop_first()) + rest));
        lemma_parse_net_of_net(vs[0], values_chars(vs.drop_first()) + rest);
        assert(forall|i: int|
            0 <= i < vs.drop_first().len() ==> (#[trigger] vs.drop_first()[i]).len()
                <= u64::MAX) by {
            assert(forall|i: int|
                0 <= i < vs.drop_first().len() ==> vs.drop_first()[i] == vs[i + 1]);
        }
        lemma_parse_values_of(vs.drop_first(), rest);
        assert(seq![vs[0]] + vs.drop_first() =~= vs);
    }
}

pub proof fn lemma_parse_input_of(iv: InputV, rest: Seq<char>)
    requires
        bounded_input(iv),
        rest.len() > 0 ==> !is_digit(rest[0]),
    ensures
        parse_input(input_chars(iv) + rest) == Some((iv, rest)),
{
    let s = input_chars(iv) + rest;
    match iv {
        InputV::Text { name, state } => {
            assert(s[0] == 't');
            assert(s.drop_first() =~= net(name) + (opt_str_chars(state) + rest));
            lemma_parse_net_of_net(name, opt_str_chars(state) + rest);
            lemma_parse_opt_str_of(state, rest);
        },
        InputV::Checkbox { name, state } => {
            assert(s[0] == 'b');
            assert(s.drop_first() =~= net(name) + (opt_bool_chars(state) + rest));
            lemma_parse_net_of_net(name, opt_bool_chars(state) + rest);
            lemma_parse_opt_bool_of(state, rest);
        },
        InputV::Select { name, values, state } => {
            lemma_parse_input_of_select(name, values, state, rest);
        },
    }
}

/// The select case of [`lemma_parse_input_of`].
#[verifier::rlimit(50)]
proof fn lemma_parse_input_of_select(
    name: Seq<char>,
    values: Seq<Seq<char>>,
    state: Option<int>,
    rest: Seq<char>,
)
    requires
        bounded_input(InputV::Select { name, values, state }),
        rest.len() > 0 ==> !is_digit(rest[0]),
    ensures
        parse_input(input_chars(InputV::Select { name, values, state }) + rest) == Some(
            (InputV::Select { name, values, state }, rest),
        ),
{
    let iv = InputV::Select { name, values, state };
    let s = input_chars(iv) + rest;
    assert(s[0] == 'c');
    let tail1 = dec_digits(values.len()) + seq![':'] + values_chars(values) + opt_int_chars(state)
        + rest;
    assert(s.drop_first() =~= net(name) + tail1);
    lemma_parse_net_of_net(name, tail1);
    let tail2 = seq![':'] + (values_chars(values) + (opt_int_chars(state) + rest));
    assert(tail1 =~= dec_digits(values.len()) + tail2);
    assert(!is_digit(':'));
    lemma_parse_num_of_digits(values.len(), tail2);
    assert(tail2[0] == ':');
    let tail3 = values_chars(values) + (opt_int_chars(state) + rest);
    assert(tail2.drop_first() =~= tail3);
    lemma_parse_values_of(values, opt_int_chars(state) + rest);
    lemma_parse_opt_int_of(state, rest);
}

pub proof fn lemma_parse_inputs_n_of(es: Seq<InputV>, rest: Seq<char>)
    requires
        forall|i: int| 0 <= i < es.len() ==> bounded_input(#[trigger] es[i]),
        rest.len() > 0 ==> !is_digit(rest[0]),
    ensures
        parse_inputs_n(inputs_body(es) + rest, es.len()) == Some((es, rest)),
    decreases es.len(),
{
    if es.len() == 0 {
        assert(inputs_body(es) + rest =~= rest);
        assert(Seq::<InputV>::empty() =~= es);
    } else {
        let s = inputs_body(es) + rest;
        let tail = inputs_body(es.drop_first()) + rest;
        assert(s =~= input_chars(es[0]) + tail);
        assert(tail.len() > 0 ==> !is_digit(tail[0])) by {
            if es.drop_first().len() > 0 {
                lemma_inputs_body_head(es.drop_first());
                assert(tail[0] == inputs_body(es.drop_first())[0]);
            }
        }
        lemma_parse_input_of(es[0], tail);
        assert(forall|i: int|
            0 <= i < es.drop_first().len() ==> bounded_input(#[trigger] es.drop_first()[i])) by {
            assert(forall|i: int|
                0 <= i < es.drop_first().len() ==> es.drop_first()[i] == es[i + 1]);
        }
        lemma_parse_inputs_n_of(es.drop_first(), rest);
        assert(seq![es[0]] + es.drop_first() =~= es);
    }
}

/// A rendered entry list starts with an entry tag, never a digit.
proof fn lemma_inputs_body_head(es: Seq<InputV>)
    requires
        es.len() > 0,
    ensures
        inputs_body(es).len() > 0,
        !is_digit(inputs_body(es)[0]),
{
    assert(inputs_body(es)[0] == input_chars(es[0])[0]);
    match es[0] {
        InputV::Text { .. } => {},
        InputV::Checkbox { .. } => {},
        InputV::Select { .. } => {},
    }
}

/// THE round trip: any bounded preference list, rendered and read back, is
/// itself again; in particular the file written by `encode_inputs` always
/// decodes, and to the same entries.
pub proof fn lemma_decode_of_encode(es: Seq<InputV>)
    requires
        bounded_inputs(es),
    ensures
        decode_spec(inputs_chars(es)) == Some(es),
{
    let s = inputs_chars(es);
    let tail = seq![':'] + inputs_body(es);
    assert(s =~= dec_digits(es.len()) + tail);
    assert(!is_digit(':'));
    lemma_parse_num_of_digits(es.len(), tail);
    assert(tail[0] == ':');
    assert(tail.drop_first() =~= inputs_body(es) + Seq::<char>::empty());
    lemma_parse_inputs_n_of(es, Seq::empty());
}

// ---------------------------------------------------------------------------
// Rendering, executably.
// ---------------------------------------------------------------------------
/// Appending one more rendered choice.
proof fn lemma_values_chars_push(vs: Seq<Seq<char>>, t: Seq<char>)
    ensures
        values_chars(vs.push(t)) == values_chars(vs) + net(t),
    decreases vs.len(),
{
    if vs.len() == 0 {
        let p = vs.push(t);
        assert(p[0] == t);
        assert(p.drop_first() =~= Seq::<Seq<char>>::empty());
        assert(values_chars(p.drop_first()) == Seq::<char>::empty());
        assert(values_chars(p) == net(t) + Seq::<char>::empty());
        assert(values_chars(vs) == Seq::<char>::empty());
        assert(net(t) + Seq::<char>::empty() =~= Seq::<char>::empty() + net(t));
    } else {
        assert(vs.push(t)[0] == vs[0]);
        assert(vs.push(t).drop_first() =~= vs.drop_first().push(t));
        lemma_values_chars_push(vs.drop_first(), t);
        assert(net(vs[0]) + (values_chars(vs.drop_first()) + net(t)) =~= (net(vs[0])
            + values_chars(vs.drop_first())) + net(t));
    }
}

/// Appending one more rendered entry.
proof fn lemma_inputs_body_push(es: Seq<InputV>, iv: InputV)
    ensures
        inputs_body(es.push(iv)) == inputs_body(es) + input_chars(iv),
    decreases es.len(),
{
    if es.len() == 0 {
        let p = es.push(iv);
        assert(p[0] == iv);
        assert(p.drop_first() =~= Seq::<InputV>::empty());
        assert(inputs_body(p.drop_first()) == Seq::<char>::empty());
        assert(inputs_body(p) == input_chars(iv) + Seq::<char>::empty());
        assert(inputs_body(es) == Seq::<char>::empty());
        assert(input_chars(iv) + Seq::<char>::empty() =~= Seq::<char>::empty() + input_chars(iv));
    } else {
        assert(es.push(iv)[0] == es[0]);
        assert(es.push(iv).drop_first() =~= es.drop_first().push(iv));
        lemma_inputs_body_push(es.drop_first(), iv);
        assert(input_chars(es[0]) + (inputs_body(es.drop_first()) + input_chars(iv)) =~= (
        input_chars(es[0]) + inputs_body(es.drop_first())) + input_chars(iv));
    }
}

/// A colon, as a string slice with a known view.
fn colon_str() -> (r: &'static str)
    ensures
        r@ =~= seq![':'],
{
    proof {
        reveal_strlit(":");
    }
    ":"
}

/// Appends the length-prefixed form of `t`.
fn append_net(out: &mut String, t: &str)
    ensures
        final(out)@ == old(out)@ + net(t@),
        t@.len() <= u64::MAX,
{
    let n = t.unicode_len();
    let digits = u64_to_dec(n as u64);
    out.append(digits.as_str());
    out.append(colon_str());
    out.append(t);
    proof {
        assert(final(out)@ =~= old(out)@ + net(t@));
    }
}

/// Appends the signed decimal form of `v`.
fn append_int(out: &mut String, v: i64)
    ensures
        final(out)@ == old(out)@ + int_chars(v as int),
{
    if v >= 0 {
        let digits = u64_to_dec(v as u64);
        out.append(digits.as_str());
    } else {
        proof {
            reveal_strlit("-");
        }
        out.append("-");
        let mag: u64 = ((-(v + 1)) as u64) + 1;
        assert(mag == -(v as int));
        let digits = u64_to_dec(mag);
        out.append(digits.as_str());
        proof {
            assert(final(out)@ =~= old(out)@ + int_chars(v as int));
        }
    }
}

/// The marker for an absent value.
fn none_str() -> (r: &'static str)
    ensures
        r@ =~= seq!['n'],
{
    proof {
        reveal_strlit("n");
    }
    "n"
}

/// The marker for a present value.
fn some_str() -> (r: &'static str)
    ensures
        r@ =~= seq!['s'],
{
    proof {
        reveal_strlit("s");
    }
    "s"
}

/// Appends one rendered entry.
fn append_input(out: &mut String, inp: &Input)
    ensures
        final(out)@ == old(out)@ + input_chars(inp@),
        bounded_input(inp@),
{
    match inp {
        Input::Text { name, state } => {
            proof {
                reveal_strlit("t");
            }
            out.append("t");
            append_net(out, name.as_str());
            match state {
                None => out.append(none_str()),
                Some(t) => {
                    out.append(some_str());
                    append_net(out, t.as_str());
                },
            }
            proof {
                assert(final(out)@ =~= old(out)@ + input_chars(inp@));
            }
        },
        Input::Checkbox { name, state } => {
            proof {
                reveal_strlit("b");
                reveal_strlit("t");
                reveal_strlit("f");
            }
            out.append("b");
            append_net(out, name.as_str());
            match state {
                None => out.append(none_str()),
                Some(b) => if *b {
                    out.append("t")
                } else {
                    out.append("f")
                },
            }
            proof {
                assert(final(out)@ =~= old(out)@ + input_chars(inp@));
            }
        },
        Input::Select { name, values, state } => {
            proof {
                reveal_strlit("c");
            }
            out.append("c");
            append_net(out, name.as_str());
            let cnt = values.len();
            let digits = u64_to_dec(cnt as u64);
            out.append(digits.as_str());
            out.append(colon_str());
            let ghost vv = values@.map_values(|v: String| v@);
            let ghost mark = out@;
            let mut i: usize = 0;
            while i < cnt
                invariant
                    i <= cnt,
                    cnt == values@.len(),
                    vv == values@.map_values(|v: String| v@),
                    out@ == mark + values_chars(vv.subrange(0, i as int)),
                    forall|j: int| 0 <= j < i ==> (#[trigger] vv[j]).len() <= u64::MAX,
                decreases cnt - i,
            {
                let ghost pre = vv.subrange(0, i as int);
                append_net(out, values[i].as_str());
                proof {
                    assert(vv[i as int] == values@[i as int]@);
                    lemma_values_chars_push(pre, vv[i as int]);
                    assert(pre.push(vv[i as int]) =~= vv.subrange(0, i + 1 as int));
                    assert(mark + values_chars(pre) + net(vv[i as int]) =~= mark + (values_chars(
                        pre,
                    ) + net(vv[i as int])));
                }
                i += 1;
            }
            proof {
                assert(vv.subrange(0, cnt as int) =~= vv);
            }
            match state {
                None => out.append(none_str()),
                Some(v) => {
                    out.append(some_str());
                    append_int(out, *v);
                },
            }
            proof {
                assert(final(out)@ =~= old(out)@ + input_chars(inp@));
            }
        },
    }
}

/// Renders a whole preference list as the text of its preference file.
///
/// The second clause records that any list executable code holds is bounded,
/// so [`lemma_decode_of_encode`] applies to the result.
pub fn encode_inputs(inputs: &Vec<Input>) -> (r: String)
    ensures
        r@ == inputs_chars(inputs_view(inputs@)),
        bounded_inputs(inputs_view(inputs@)),
{
    let ghost es = inputs_view(inputs@);
    let cnt = inputs.len();
    let mut out = u64_to_dec(cnt as u64);
    out.append(colon_str());
    let ghost mark = out@;
    let mut i: usize = 0;
    while i < cnt
        invariant
            i <= cnt,
            cnt == inputs@.len(),
            es == inputs_view(inputs@),
            mark == dec_digits(cnt as nat) + seq![':'],
            out@ == mark + inputs_body(es.subrange(0, i as int)),
            forall|j: int| 0 <= j < i ==> bounded_input(#[trigger] es[j]),
        decreases cnt - i,
    {
        let ghost pre = es.subrange(0, i as int);
        append_input(&mut out, &inputs[i]);
        proof {
            assert(es[i as int] == inputs@[i as int]@);
            lemma_inputs_body_push(pre, es[i as int]);
            assert(pre.push(es[i as int]) =~= es.subrange(0, i + 1 as int));
            assert(mark + inputs_body(pre) + input_chars(es[i as int]) =~= mark + (inputs_body(pre)
                + input_chars(es[i as int])));
        }
        i += 1;
    }
    proof {
        assert(es.subrange(0, cnt as int) =~= es);
        assert(out@ =~= inputs_chars(es));
    }
    out
}

// ---------------------------------------------------------------------------
// Reading, executably.
// ---------------------------------------------------------------------------
/// Scans a length-prefixed string at `from`, mirroring [`parse_net`] on the
/// suffix.
fn scan_net(s: &str, from: usize) -> (r: Option<(String, usize)>)
    requires
        from <= s@.len(),
    ensures
        match r {
            Some(v) => from <= v.1 <= s@.len() && parse_net(suffix(s@, from as int)) == Some(
                (v.0@, suffix(s@, v.1 as int)),
            ),
            None => parse_net(suffix(s@, from as int)) is None,
        },
{
    let n = s.unicode_len();
    match scan_num(s, from) {
        None => None,
        Some((len, p)) => {
            let ghost r0 = suffix(s@, p as int);
            if p == n {
                return None;
            }
            let c = s.get_char(p);
            proof {
                assert(r0[0] == s@[p as int]);
            }
            if c != ':' {
                return None;
            }
            let avail = n - p - 1;
            if len > avail as u64 {
                proof {
                    assert(r0.len() - 1 < len);
                }
                return None;
            }
            let lenu: usize = len as usize;
            let t = s.substring_char(p + 1, p + 1 + lenu).to_owned();
            proof {
                assert(r0.subrange(1, 1 + len as int) =~= s@.subrange(
                    p + 1 as int,
                    p + 1 + len as int,
                ));
                assert(r0.subrange(1 + len as int, r0.len() as int) =~= suffix(
                    s@,
                    p + 1 + len as int,
                ));
            }
            Some((t, p + 1 + lenu))
        },
    }
}

/// Scans a signed number at `from`, mirroring [`parse_int`] on the suffix.
fn scan_int(s: &str, from: usize) -> (r: Option<(i64, usize)>)
    requires
        from <= s@.len(),
    ensures
        match r {
            Some(v) => from <= v.1 <= s@.len() && parse_int(suffix(s@, from as int)) == Some(
                (v.0 as int, suffix(s@, v.1 as int)),
            ),
            None => parse_int(suffix(s@, from as int)) is None,
        },
{
    let n = s.unicode_len();
    let ghost u = suffix(s@, from as int);
    if from < n && s.get_char(from) == '-' {
        proof {
            assert(u[0] == s@[from as int]);
            assert(u.drop_first() =~= suffix(s@, (from + 1) as int));
        }
        match scan_num(s, from + 1) {
            None => None,
            Some((mag, p)) => {
                if mag == 0 {
                    None
                } else if mag <= i64::MAX as u64 {
                    Some((-(mag as i64), p))
                } else if mag == i64::MAX as u64 + 1 {
                    Some((i64::MIN, p))
                } else {
                    None
                }
            },
        }
    } else {
        proof {
            if u.len() > 0 {
                assert(u[0] == s@[from as int]);
            }
        }
        match scan_num(s, from) {
            None => None,
            Some((v, p)) => if v <= i64::MAX as u64 {
                Some((v as i64, p))
            } else {
                None
            },
        }
    }
}

/// Scans an optional string at `from`, mirroring [`parse_opt_str`].
fn scan_opt_str(s: &str, from: usize) -> (r: Option<(Option<String>, usize)>)
    requires
        from <= s@.len(),
    ensures
        match r {
            Some(v) => from <= v.1 <= s@.len() && parse_opt_str(suffix(s@, from as int)) == Some(
                (
                    match v.0 {
                        Some(t) => Some(t@),
                        None => None,
                    },
                    suffix(s@, v.1 as int),
                ),
            ),
            None => parse_opt_str(suffix(s@, from as int)) is None,
        },
{
    let n = s.unicode_len();
    if from == n {
        return None;
    }
    let c = s.get_char(from);
    proof {
        assert(suffix(s@, from as int)[0] == s@[from as int]);
        assert(suffix(s@, from as int).drop_first() =~= suffix(s@, (from + 1) as int));
    }
    if c == 'n' {
        Some((None, from + 1))
    } else if c == 's' {
        match scan_net(s, from + 1) {
            None => None,
            Some((t, p)) => Some((Some(t), p)),
        }
    } else {
        None
    }
}

/// Scans an optional boolean at `from`, mirroring [`parse_opt_bool`].
fn scan_opt_bool(s: &str, from: usize) -> (r: Option<(Option<bool>, usize)>)
    requires
        from <= s@.len(),
    ensures
        match r {
            Some(v) => from <= v.1 <= s@.len() && parse_opt_bool(suffix(s@, from as int)) == Some(
                (v.0, suffix(s@, v.1 as int)),
            ),
            None => parse_opt_bool(suffix(s@, from as int)) is None,
        },
{
    let n = s.unicode_len();
    if from == n {
        return None;
    }
    let c = s.get_char(from);
    proof {
        assert(suffix(s@, from as int)[0] == s@[from as int]);
        assert(suffix(s@, from as int).drop_first() =~= suffix(s@, (from + 1) as int));
    }
    if c == 'n' {
        Some((None, from + 1))
    } else if c == 't' {
        Some((Some(true), from + 1))
    } else if c == 'f' {
        Some((Some(false), from + 1))
    } else {
        None
    }
}

/// Scans an optional signed number at `from`, mirroring [`parse_opt_int`].
fn scan_opt_int(s: &str, from: usize) -> (r: Option<(Option<i64>, usize)>)
    requires
        from <= s@.len(),
    ensures
        match r {
            Some(v) => from <= v.1 <= s@.len() && parse_opt_int(suffix(s@, from as int)) == Some(
                (
                    match v.0 {
                        Some(x) => Some(x as int),
                        None => None,
                    },
                    suffix(s@, v.1 as int),
                ),
            ),
            None => parse_opt_int(suffix(s@, from as int)) is None,
        },
{
    let n = s.unicode_len();
    if from == n {
        return None;
    }
    let c = s.get_char(from);
    proof {
        assert(suffix(s@, from as int)[0] == s@[from as int]);
        assert(suffix(s@, from as int).drop_first() =~= suffix(s@, (from + 1) as int));
    }
    if c == 'n' {
        Some((None, from + 1))
    } else if c == 's' {
        match scan_int(s, from + 1) {
            None => None,
            Some((v, p)) => Some((Some(v), p)),
        }
    } else {
        None
    }
}

/// Scans `cnt` length-prefixed strings at `from`, mirroring [`parse_values`].
fn scan_values(s: &str, from: usize, cnt: u64) -> (r: Option<(Vec<String>, usize)>)
    requires
        from <= s@.len(),
    ensures
        match r {
            Some(v) => from <= v.1 <= s@.len() && parse_values(suffix(s@, from as int), cnt as nat)
                == Some((v.0@.map_values(|t: String| t@), suffix(s@, v.1 as int))),
            None => parse_values(suffix(s@, from as int), cnt as nat) is None,
        },
{
    let mut acc: Vec<String> = Vec::new();
    let mut p = from;
    let mut k: u64 = 0;
    proof {
        assert(acc@.map_values(|t: String| t@) =~= Seq::<Seq<char>>::empty());
        assert(Seq::<Seq<char>>::empty() + parse_values(
            suffix(s@, p as int),
            cnt as nat,
        )->Some_0.0 =~= parse_values(suffix(s@, p as int), cnt as nat)->Some_0.0);
    }
    while k < cnt
        invariant
            from <= p <= s@.len(),
            k <= cnt,
            ({
                let av = acc@.map_values(|t: String| t@);
                match parse_values(suffix(s@, p as int), (cnt - k) as nat) {
                    Some(tl) => parse_values(suffix(s@, from as int), cnt as nat) == Some(
                        (av + tl.0, tl.1),
                    ),
                    None => parse_values(suffix(s@, from as int), cnt as nat) is None,
                }
            }),
        decreases cnt - k,
    {
        let ghost m = (cnt - k) as nat;
        let ghost av = acc@.map_values(|t: String| t@);
        match scan_net(s, p) {
            None => {
                return None;
            },
            Some((t, next)) => {
                proof {
                    let inner = parse_values(suffix(s@, next as int), (m - 1) as nat);
                    if inner is Some {
                        let vs = inner->Some_0.0;
                        assert(av + (seq![t@] + vs) =~= (av + seq![t@]) + vs);
                        assert(acc@.push(t).map_values(|x: String| x@) =~= av + seq![t@]);
                    }
                }
                acc.push(t);
                p = next;
                k = k + 1;
            },
        }
    }
    proof {
        let av = acc@.map_values(|t: String| t@);
        assert(av + Seq::<Seq<char>>::empty() =~= av);
    }
    Some((acc, p))
}

/// Scans one preference entry at `from`, mirroring [`parse_input`].
fn scan_input(s: &str, from: usize) -> (r: Option<(Input, usize)>)
    requires
        from <= s@.len(),
    ensures
        match r {
            Some(v) => from <= v.1 <= s@.len() && parse_input(suffix(s@, from as int)) == Some(
                (v.0@, suffix(s@, v.1 as int)),
            ),
            None => parse_input(suffix(s@, from as int)) is None,
        },
{
    let n = s.unicode_len();
    if from == n {
        return None;
    }
    let c = s.get_char(from);
    proof {
        assert(suffix(s@, from as int)[0] == s@[from as int]);
        assert(suffix(s@, from as int).drop_first() =~= suffix(s@, (from + 1) as int));
    }
    if c == 't' {
        match scan_net(s, from + 1) {
            None => None,
            Some((name, p)) => match scan_opt_str(s, p) {
                None => None,
                Some((state, p2)) => Some((Input::Text { name, state }, p2)),
            },
        }
    } else if c == 'b' {
        match scan_net(s, from + 1) {
            None => None,
            Some((name, p)) => match scan_opt_bool(s, p) {
                None => None,
                Some((state, p2)) => Some((Input::Checkbox { name, state }, p2)),
            },
        }
    } else if c == 'c' {
        match scan_net(s, from + 1) {
            None => None,
            Some((name, p)) => match scan_num(s, p) {
                None => None,
                Some((cnt, p2)) => {
                    let ghost r2 = suffix(s@, p2 as int);
                    if p2 == n {
                        return None;
                    }
                    let cc = s.get_char(p2);
                    proof {
                        assert(r2[0] == s@[p2 as int]);
                        assert(r2.drop_first() =~= suffix(s@, (p2 + 1) as int));
                    }
                    if cc != ':' {
                        return None;
                    }
                    match scan_values(s, p2 + 1, cnt) {
                        None => None,
                        Some((values, p3)) => match scan_opt_int(s, p3) {
                            None => None,
                            Some((state, p4)) => Some((Input::Select { name, values, state }, p4)),
                        },
                    }
                },
            },
        }
    } else {
        None
    }
}

/// Reads a whole preference file back into its entries; `None` on any
/// malformation, including trailing content.
#[verifier::loop_isolation(false)]
pub fn decode_inputs(s: &str) -> (r: Option<Vec<Input>>)
    ensures
        match r {
            Some(v) => decode_spec(s@) == Some(inputs_view(v@)),
            None => decode_spec(s@) is None,
        },
{
    let n = s.unicode_len();
    proof {
        assert(suffix(s@, 0) =~= s@);
    }
    match scan_num(s, 0) {
        None => None,
        Some((cnt, p0)) => {
            let ghost r0 = suffix(s@, p0 as int);
            if p0 == n {
                return None;
            }
            let c = s.get_char(p0);
            proof {
                assert(r0[0] == s@[p0 as int]);
                assert(r0.drop_first() =~= suffix(s@, (p0 + 1) as int));
            }
            if c != ':' {
                return None;
            }
            let mut acc: Vec<Input> = Vec::new();
            let mut p = p0 + 1;
            let mut k: u64 = 0;
            proof {
                assert(inputs_view(acc@) =~= Seq::<InputV>::empty());
                assert(Seq::<InputV>::empty() + parse_inputs_n(
                    suffix(s@, p as int),
                    cnt as nat,
                )->Some_0.0 =~= parse_inputs_n(suffix(s@, p as int), cnt as nat)->Some_0.0);
            }
            while k < cnt
                invariant
                    p0 + 1 <= p <= s@.len(),
                    k <= cnt,
                    ({
                        let av = inputs_view(acc@);
                        match parse_inputs_n(suffix(s@, p as int), (cnt - k) as nat) {
                            Some(tl) => parse_inputs_n(
                                suffix(s@, (p0 + 1) as int),
                                cnt as nat,
                            ) == Some((av + tl.0, tl.1)),
                            None => parse_inputs_n(
                                suffix(s@, (p0 + 1) as int),
                                cnt as nat,
                            ) is None,
                        }
                    }),
                decreases cnt - k,
            {
                let ghost m = (cnt - k) as nat;
                let ghost av = inputs_view(acc@);
                match scan_input(s, p) {
                    None => {
                        proof {
                            assert(parse_inputs_n(suffix(s@, p as int), m) is None);
                        }
                        return None;
                    },
                    Some((inp, next)) => {
                        proof {
                            let inner = parse_inputs_n(suffix(s@, next as int), (m - 1) as nat);
                            if inner is Some {
                                let es = inner->Some_0.0;
                                assert(av + (seq![inp@] + es) =~= (av + seq![inp@]) + es);
                                assert(inputs_view(acc@.push(inp)) =~= av + seq![inp@]);
                            }
                        }
                        acc.push(inp);
                        p = next;
                        k = k + 1;
                    },
                }
            }
            if p == n {
                proof {
                    let av = inputs_view(acc@);
                    assert(suffix(s@, p as int).len() == 0);
                    assert(av + Seq::<InputV>::empty() =~= av);
                }
                Some(acc)
            } else {
                proof {
                    assert(suffix(s@, p as int).len() > 0);
                }
                None
            }
        },
    }
}

} // verus!
