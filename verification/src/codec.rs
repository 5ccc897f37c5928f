use vstd::prelude::*;
use crate::json::{JsonVal, JsonValue, jv, jv_seq, jv_pairs, lemma_jv_seq_index,
    lemma_jv_pairs_index, str_to_chars, chars_to_string, str_eq_string};
use crate::response::{ErrorCode, RespV, Response};
use vstd::string::StringExecFns;

verus! {

// ------------------------------------------------------------------
// Serialization: a canonical JSON text for a document.
// ------------------------------------------------------------------

/// A string body with `"` and `\` escaped.
pub open spec fn esc_char(c: char) -> Seq<char> {
    if c == '"' || c == '\\' {
        seq!['\\', c]
    } else {
        seq![c]
    }
}

pub open spec fn esc(s: Seq<char>) -> Seq<char>
    decreases s.len(),
{
    if s.len() == 0 {
        Seq::empty()
    } else {
        esc_char(s[0]) + esc(s.drop_first())
    }
}

pub open spec fn digit_char(n: int) -> char {
    if n == 0 {
        '0'
    } else if n == 1 {
        '1'
    } else if n == 2 {
        '2'
    } else if n == 3 {
        '3'
    } else if n == 4 {
        '4'
    } else if n == 5 {
        '5'
    } else if n == 6 {
        '6'
    } else if n == 7 {
        '7'
    } else if n == 8 {
        '8'
    } else {
        '9'
    }
}

/// The decimal digits of a non-negative integer, most significant first.
pub open spec fn dec_rep(n: int) -> Seq<char>
    decreases n when n >= 0
{
    if n < 10 {
        seq![digit_char(n)]
    } else {
        dec_rep(n / 10) + seq![digit_char(n % 10)]
    }
}

pub open spec fn ser_int(i: int) -> Seq<char> {
    if i < 0 {
        seq!['-'] + dec_rep(-i)
    } else {
        dec_rep(i)
    }
}

pub open spec fn ser_str(s: Seq<char>) -> Seq<char> {
    seq!['"'] + esc(s) + seq!['"']
}

/// The canonical wire text of a document: no whitespace, object fields in
/// their stored order.
pub open spec fn ser_json(j: JsonVal) -> Seq<char>
    decreases j,
{
    match j {
        JsonVal::Null => seq!['n', 'u', 'l', 'l'],
        JsonVal::Bool(b) => if b {
            seq!['t', 'r', 'u', 'e']
        } else {
            seq!['f', 'a', 'l', 's', 'e']
        },
        JsonVal::Int(i) => ser_int(i),
        JsonVal::Str(s) => ser_str(s),
        JsonVal::Arr(items) => seq!['['] + ser_items(items) + seq![']'],
        JsonVal::Obj(pairs) => seq!['{'] + ser_pairs(pairs) + seq!['}'],
    }
}

pub open spec fn ser_items(items: Seq<JsonVal>) -> Seq<char>
    decreases items,
{
    if items.len() == 0 {
        Seq::empty()
    } else if items.len() == 1 {
        ser_json(items[0])
    } else {
        ser_json(items[0]) + seq![','] + ser_items(items.drop_first())
    }
}

pub open spec fn ser_pair(p: (Seq<char>, JsonVal)) -> Seq<char>
    decreases p,
{
    ser_str(p.0) + seq![':'] + ser_json(p.1)
}

pub open spec fn ser_pairs(pairs: Seq<(Seq<char>, JsonVal)>) -> Seq<char>
    decreases pairs,
{
    if pairs.len() == 0 {
        Seq::empty()
    } else if pairs.len() == 1 {
        ser_pair(pairs[0])
    } else {
        ser_pair(pairs[0]) + seq![','] + ser_pairs(pairs.drop_first())
    }
}

/// Well-formedness of a document model: every integer fits the payload type.
pub open spec fn json_wf(j: JsonVal) -> bool
    decreases j,
{
    match j {
        JsonVal::Int(i) => i64::MIN <= i <= i64::MAX,
        JsonVal::Arr(items) => forall|k: int|
            0 <= k < items.len() ==> json_wf(#[trigger] items[k]),
        JsonVal::Obj(pairs) => forall|k: int|
            0 <= k < pairs.len() ==> json_wf(#[trigger] pairs[k].1),
        _ => true,
    }
}

/// The model of every payload value is well-formed.
pub proof fn lemma_jv_wf(v: JsonValue)
    ensures
        json_wf(jv(v)),
    decreases v,
{
    match v {
        JsonValue::Arr(items) => {
            lemma_jv_seq_index(items@);
            assert forall|k: int| 0 <= k < jv_seq(items@).len() implies json_wf(
                #[trigger] jv_seq(items@)[k],
            ) by {
                lemma_jv_wf(items@[k]);
            }
        },
        JsonValue::Obj(pairs) => {
            lemma_jv_pairs_index(pairs@);
            assert forall|k: int| 0 <= k < jv_pairs(pairs@).len() implies json_wf(
                #[trigger] jv_pairs(pairs@)[k].1,
            ) by {
                lemma_jv_wf(pairs@[k].1);
            }
        },
        _ => {},
    }
}

proof fn lemma_esc_push(t: Seq<char>, c: char)
    ensures
        esc(t.push(c)) == esc(t) + esc_char(c),
    decreases t.len(),
{
    if t.len() == 0 {
        assert(t.push(c) =~= seq![c]);
        assert(t.push(c)[0] == c);
        assert(t.push(c).drop_first() =~= Seq::<char>::empty());
        assert(esc(Seq::<char>::empty()) == Seq::<char>::empty());
        assert(esc(t.push(c)) =~= esc_char(c));
        assert(esc(t) + esc_char(c) =~= esc_char(c));
    } else {
        assert(t.push(c).drop_first() =~= t.drop_first().push(c));
        lemma_esc_push(t.drop_first(), c);
        assert(esc(t.push(c)) =~= esc(t) + esc_char(c));
    }
}

proof fn lemma_ser_items_push(t: Seq<JsonVal>, x: JsonVal)
    ensures
        ser_items(t.push(x)) == if t.len() == 0 {
            ser_json(x)
        } else {
            ser_items(t) + seq![','] + ser_json(x)
        },
    decreases t.len(),
{
    if t.len() == 0 {
        assert(t.push(x).len() == 1);
        assert(t.push(x)[0] == x);
    } else {
        assert(t.push(x)[0] == t[0]);
        assert(t.push(x).drop_first() =~= t.drop_first().push(x));
        lemma_ser_items_push(t.drop_first(), x);
        if t.len() == 1 {
            assert(ser_items(t) == ser_json(t[0]));
            assert(ser_items(t.push(x)) =~= ser_items(t) + seq![','] + ser_json(x));
        } else {
            assert(ser_items(t.push(x)) =~= ser_items(t) + seq![','] + ser_json(x));
        }
    }
}

proof fn lemma_ser_pairs_push(t: Seq<(Seq<char>, JsonVal)>, x: (Seq<char>, JsonVal))
    ensures
        ser_pairs(t.push(x)) == if t.len() == 0 {
            ser_pair(x)
        } else {
            ser_pairs(t) + seq![','] + ser_pair(x)
        },
    decreases t.len(),
{
    if t.len() == 0 {
        assert(t.push(x).len() == 1);
        assert(t.push(x)[0] == x);
    } else {
        assert(t.push(x)[0] == t[0]);
        assert(t.push(x).drop_first() =~= t.drop_first().push(x));
        lemma_ser_pairs_push(t.drop_first(), x);
        if t.len() == 1 {
            assert(ser_pairs(t.push(x)) =~= ser_pairs(t) + seq![','] + ser_pair(x));
        } else {
            assert(ser_pairs(t.push(x)) =~= ser_pairs(t) + seq![','] + ser_pair(x));
        }
    }
}

fn push_digit(d: u64, out: &mut Vec<char>)
    requires
        d < 10,
    ensures
        final(out)@ == old(out)@ + seq![digit_char(d as int)],
{
    let c: char;
    if d == 0 {
        c = '0';
    } else if d == 1 {
        c = '1';
    } else if d == 2 {
        c = '2';
    } else if d == 3 {
        c = '3';
    } else if d == 4 {
        c = '4';
    } else if d == 5 {
        c = '5';
    } else if d == 6 {
        c = '6';
    } else if d == 7 {
        c = '7';
    } else if d == 8 {
        c = '8';
    } else {
        c = '9';
    }
    out.push(c);
    proof {
        assert(out@ =~= old(out)@ + seq![digit_char(d as int)]);
    }
}

fn write_u64(n: u64, out: &mut Vec<char>)
    ensures
        final(out)@ == old(out)@ + dec_rep(n as int),
    decreases n,
{
    if n < 10 {
        push_digit(n, out);
    } else {
        write_u64(n / 10, out);
        push_digit(n % 10, out);
        proof {
            assert(out@ =~= old(out)@ + dec_rep(n as int));
        }
    }
}

fn write_i64(i: i64, out: &mut Vec<char>)
    ensures
        final(out)@ == old(out)@ + ser_int(i as int),
{
    if i < 0 {
        out.push('-');
        let mag: u64;
        if i == -9223372036854775808i64 {
            mag = 9223372036854775808u64;
        } else {
            mag = (-i) as u64;
        }
        write_u64(mag, out);
        proof {
            assert(out@ =~= old(out)@ + ser_int(i as int));
        }
    } else {
        write_u64(i as u64, out);
    }
}

fn write_str(s: &str, out: &mut Vec<char>)
    ensures
        final(out)@ == old(out)@ + ser_str(s@),
{
    let cs = str_to_chars(s);
    out.push('"');
    let n = cs.len();
    let mut k: usize = 0;
    while k < n
        invariant
            n == cs.len(),
            cs@ == s@,
            0 <= k <= n,
            out@ == old(out)@ + seq!['"'] + esc(cs@.subrange(0, k as int)),
        decreases n - k,
    {
        let c = cs[k];
        if c == '"' || c == '\\' {
            out.push('\\');
            out.push(c);
        } else {
            out.push(c);
        }
        proof {
            let pre = cs@.subrange(0, k as int);
            assert(cs@.subrange(0, k + 1 as int) =~= pre.push(c));
            lemma_esc_push(pre, c);
            assert(out@ =~= old(out)@ + seq!['"'] + esc(cs@.subrange(0, k + 1 as int)));
        }
        k += 1;
    }
    out.push('"');
    proof {
        assert(cs@.subrange(0, n as int) =~= s@);
        assert(out@ =~= old(out)@ + ser_str(s@));
    }
}

/// Appends the canonical wire text of a payload value.
pub fn write_json(v: &JsonValue, out: &mut Vec<char>)
    ensures
        final(out)@ == old(out)@ + ser_json(jv(*v)),
    decreases *v,
{
    match v {
        JsonValue::Null => {
            out.push('n');
            out.push('u');
            out.push('l');
            out.push('l');
            proof {
                assert(out@ =~= old(out)@ + ser_json(jv(*v)));
            }
        },
        JsonValue::Bool(b) => {
            if *b {
                out.push('t');
                out.push('r');
                out.push('u');
                out.push('e');
            } else {
                out.push('f');
                out.push('a');
                out.push('l');
                out.push('s');
                out.push('e');
            }
            proof {
                assert(out@ =~= old(out)@ + ser_json(jv(*v)));
            }
        },
        JsonValue::Int(i) => {
            write_i64(*i, out);
        },
        JsonValue::Str(s) => {
            write_str(s.as_str(), out);
        },
        JsonValue::Arr(items) => {
            proof {
                lemma_jv_seq_index(items@);
            }
            out.push('[');
            let n = items.len();
            let mut k: usize = 0;
            while k < n
                invariant
                    *v == JsonValue::Arr(*items),
                    n == items.len(),
                    0 <= k <= n,
                    jv_seq(items@).len() == items@.len(),
                    forall|j: int|
                        0 <= j < items@.len() ==> #[trigger] jv_seq(items@)[j] == jv(items@[j]),
                    out@ == old(out)@ + seq!['['] + ser_items(jv_seq(items@).subrange(0, k as int)),
                decreases n - k,
            {
                if k > 0 {
                    out.push(',');
                }
                proof {
                    assert(decreases_to!(*v => v->Arr_0));
                    assert(v->Arr_0 == *items);
                    assert(decreases_to!(*items => items@));
                    assert(decreases_to!(items@ => items@[k as int]));
                }
                write_json(&items[k], out);
                proof {
                    let pre = jv_seq(items@).subrange(0, k as int);
                    assert(jv_seq(items@).subrange(0, k + 1 as int) =~= pre.push(
                        jv(items@[k as int]),
                    ));
                    lemma_ser_items_push(pre, jv(items@[k as int]));
                    assert(out@ =~= old(out)@ + seq!['['] + ser_items(
                        jv_seq(items@).subrange(0, k + 1 as int),
                    ));
                }
                k += 1;
            }
            out.push(']');
            proof {
                assert(jv_seq(items@).subrange(0, n as int) =~= jv_seq(items@));
                assert(out@ =~= old(out)@ + ser_json(jv(*v)));
            }
        },
        JsonValue::Obj(pairs) => {
            proof {
                lemma_jv_pairs_index(pairs@);
            }
            out.push('{');
            let n = pairs.len();
            let mut k: usize = 0;
            while k < n
                invariant
                    *v == JsonValue::Obj(*pairs),
                    n == pairs.len(),
                    0 <= k <= n,
                    jv_pairs(pairs@).len() == pairs@.len(),
                    forall|j: int|
                        0 <= j < pairs@.len() ==> #[trigger] jv_pairs(pairs@)[j] == (
                        pairs@[j].0@,
                        jv(pairs@[j].1),
                        ),
                    out@ == old(out)@ + seq!['{'] + ser_pairs(
                        jv_pairs(pairs@).subrange(0, k as int),
                    ),
                decreases n - k,
            {
                if k > 0 {
                    out.push(',');
                }
                write_str(pairs[k].0.as_str(), out);
                out.push(':');
                proof {
                    assert(decreases_to!(*v => v->Obj_0));
                    assert(v->Obj_0 == *pairs);
                    assert(decreases_to!(*pairs => pairs@));
                    assert(decreases_to!(pairs@ => pairs@[k as int]));
                    assert(decreases_to!(pairs@[k as int] => pairs@[k as int].1));
                }
                write_json(&pairs[k].1, out);
                proof {
                    let pre = jv_pairs(pairs@).subrange(0, k as int);
                    assert(jv_pairs(pairs@).subrange(0, k + 1 as int) =~= pre.push(
                        jv_pairs(pairs@)[k as int],
                    ));
                    lemma_ser_pairs_push(pre, jv_pairs(pairs@)[k as int]);
                    assert(ser_pair(jv_pairs(pairs@)[k as int]) == ser_str(pairs@[k as int].0@)
                        + seq![':'] + ser_json(jv(pairs@[k as int].1)));
                    assert(out@ =~= old(out)@ + seq!['{'] + ser_pairs(
                        jv_pairs(pairs@).subrange(0, k + 1 as int),
                    ));
                }
                k += 1;
            }
            out.push('}');
            proof {
                assert(jv_pairs(pairs@).subrange(0, n as int) =~= jv_pairs(pairs@));
                assert(out@ =~= old(out)@ + ser_json(jv(*v)));
            }
        },
    }
}

/// The canonical wire text of a payload value, as a string.
pub fn json_to_string(v: &JsonValue) -> (s: String)
    ensures
        s@ == ser_json(jv(*v)),
{
    let mut out: Vec<char> = Vec::new();
    write_json(v, &mut out);
    chars_to_string(&out)
}


// ------------------------------------------------------------------
// Parsing: the inverse of serialization, on the canonical wire text.
// ------------------------------------------------------------------

pub open spec fn is_digit(c: char) -> bool {
    48 <= c as u32 <= 57
}

pub open spec fn dval(c: char) -> int {
    c as u32 - 48
}

/// The first index at or past `i` holding a non-digit, or the length.
pub open spec fn digits_end(s: Seq<char>, i: int) -> int
    decreases s.len() - i when 0 <= i <= s.len()
{
    if i >= s.len() {
        i
    } else if is_digit(s[i]) {
        digits_end(s, i + 1)
    } else {
        i
    }
}

/// The value of the decimal digits in `[i, j)`.
pub open spec fn digits_val(s: Seq<char>, i: int, j: int) -> int
    decreases j - i when i <= j
{
    if j <= i {
        0
    } else {
        digits_val(s, i, j - 1) * 10 + dval(s[j - 1])
    }
}

/// A string body up to and including the closing quote, unescaping.
pub open spec fn parse_str_body(s: Seq<char>, i: int) -> Option<(Seq<char>, nat)>
    decreases s.len() - i when 0 <= i <= s.len()
{
    if i >= s.len() {
        None
    } else if s[i] == '"' {
        Some((Seq::empty(), 1nat))
    } else if s[i] == '\\' {
        if s.len() - i >= 2 {
            match parse_str_body(s, i + 2) {
                Some((b, n)) => Some((seq![s[i + 1]] + b, n + 2)),
                None => None,
            }
        } else {
            None
        }
    } else {
        match parse_str_body(s, i + 1) {
            Some((b, n)) => Some((seq![s[i]] + b, n + 1)),
            None => None,
        }
    }
}

/// A document value starting at `i`, with the count of characters consumed.
pub open spec fn parse_val(s: Seq<char>, i: int) -> Option<(JsonVal, nat)>
    decreases s.len() - i, 0int when 0 <= i <= s.len()
{
    if i >= s.len() {
        None
    } else {
        let c = s[i];
        if c == 'n' {
            if s.len() - i >= 4 && s[i + 1] == 'u' && s[i + 2] == 'l' && s[i + 3] == 'l' {
                Some((JsonVal::Null, 4nat))
            } else {
                None
            }
        } else if c == 't' {
            if s.len() - i >= 4 && s[i + 1] == 'r' && s[i + 2] == 'u' && s[i + 3] == 'e' {
                Some((JsonVal::Bool(true), 4nat))
            } else {
                None
            }
        } else if c == 'f' {
            if i + 5 <= s.len() && s[i + 1] == 'a' && s[i + 2] == 'l' && s[i + 3] == 's' && s[i + 4]
                == 'e' {
                Some((JsonVal::Bool(false), 5nat))
            } else {
                None
            }
        } else if c == '"' {
            match parse_str_body(s, i + 1) {
                Some((b, n)) => Some((JsonVal::Str(b), n + 1)),
                None => None,
            }
        } else if c == '-' {
            if i + 1 < s.len() && is_digit(s[i + 1]) {
                let e = digits_end(s, i + 1);
                if s[i + 1] as u32 == 48 && e > i + 2 {
                    None
                } else {
                    let v = digits_val(s, i + 1, e);
                    if v <= 9223372036854775808 {
                        Some((JsonVal::Int(-v), (e - i) as nat))
                    } else {
                        None
                    }
                }
            } else {
                None
            }
        } else if is_digit(c) {
            let e = digits_end(s, i);
            if c as u32 == 48 && e > i + 1 {
                None
            } else {
                let v = digits_val(s, i, e);
                if v <= 9223372036854775807 {
                    Some((JsonVal::Int(v), (e - i) as nat))
                } else {
                    None
                }
            }
        } else if c == '[' {
            if i + 1 < s.len() && s[i + 1] == ']' {
                Some((JsonVal::Arr(Seq::empty()), 2nat))
            } else {
                match parse_items(s, i + 1) {
                    Some((items, n)) => Some((JsonVal::Arr(items), n + 1)),
                    None => None,
                }
            }
        } else if c == '{' {
            if i + 1 < s.len() && s[i + 1] == '}' {
                Some((JsonVal::Obj(Seq::empty()), 2nat))
            } else {
                match parse_pairs(s, i + 1) {
                    Some((pairs, n)) => Some((JsonVal::Obj(pairs), n + 1)),
                    None => None,
                }
            }
        } else {
            None
        }
    }
}

/// One or more comma-separated values, up to and including the closing `]`.
pub open spec fn parse_items(s: Seq<char>, i: int) -> Option<(Seq<JsonVal>, nat)>
    decreases s.len() - i, 1int when 0 <= i <= s.len()
{
    match parse_val(s, i) {
        None => None,
        Some((v, n)) => {
            let j = i + n;
            if j < s.len() && s[j] == ',' {
                match parse_items(s, j + 1) {
                    Some((rest, m)) => Some((seq![v] + rest, n + 1 + m)),
                    None => None,
                }
            } else if j < s.len() && s[j] == ']' {
                Some((seq![v], n + 1))
            } else {
                None
            }
        },
    }
}

/// One or more comma-separated key/value pairs, up to and including the
/// closing `}`.
pub open spec fn parse_pairs(s: Seq<char>, i: int) -> Option<(Seq<(Seq<char>, JsonVal)>, nat)>
    decreases s.len() - i, 1int when 0 <= i <= s.len()
{
    if i < s.len() && s[i] == '"' {
        match parse_str_body(s, i + 1) {
            None => None,
            Some((key, kn)) => {
                let j = i + 1 + kn;
                if j < s.len() && s[j] == ':' {
                    match parse_val(s, j + 1) {
                        None => None,
                        Some((v, vn)) => {
                            let k2 = j + 1 + vn;
                            if k2 < s.len() && s[k2] == ',' {
                                match parse_pairs(s, k2 + 1) {
                                    Some((rest, m)) => Some(
                                        (seq![(key, v)] + rest, kn + vn + 3 + m),
                                    ),
                                    None => None,
                                }
                            } else if k2 < s.len() && s[k2] == '}' {
                                Some((seq![(key, v)], kn + vn + 3))
                            } else {
                                None
                            }
                        },
                    }
                } else {
                    None
                }
            },
        }
    } else {
        None
    }
}

/// A whole wire text: one value consuming every character.
pub open spec fn parse_json(w: Seq<char>) -> Option<JsonVal> {
    match parse_val(w, 0int) {
        Some(r) => {
            if r.1 == w.len() {
                Some(r.0)
            } else {
                None
            }
        },
        None => None,
    }
}


// ------------------------------------------------------------------
// Round trip: parsing a canonical wire text recovers the document.
// ------------------------------------------------------------------

proof fn lemma_dec_rep_digits(n: int)
    requires
        n >= 0,
    ensures
        dec_rep(n).len() >= 1,
        forall|k: int| 0 <= k < dec_rep(n).len() ==> is_digit(#[trigger] dec_rep(n)[k]),
        n < 10 ==> dec_rep(n).len() == 1,
        dec_rep(n)[0] as u32 == 48 ==> n == 0,
    decreases n,
{
    if n < 10 {
        assert(dec_rep(n) =~= seq![digit_char(n)]);
        assert(is_digit(digit_char(n)));
        assert(n >= 1 ==> digit_char(n) as u32 != 48);
    } else {
        lemma_dec_rep_digits(n / 10);
        assert(dec_rep(n) == dec_rep(n / 10) + seq![digit_char(n % 10)]);
        assert forall|k: int| 0 <= k < dec_rep(n).len() implies is_digit(
            #[trigger] dec_rep(n)[k],
        ) by {
            if k < dec_rep(n / 10).len() {
                assert(dec_rep(n)[k] == dec_rep(n / 10)[k]);
            } else {
                assert(dec_rep(n)[k] == digit_char(n % 10));
            }
        }
        assert(dec_rep(n)[0] == dec_rep(n / 10)[0]);
    }
}

proof fn lemma_digits_end_run(s: Seq<char>, i: int, j: int)
    requires
        0 <= i <= j <= s.len(),
        forall|k: int| i <= k < j ==> is_digit(#[trigger] s[k]),
        j == s.len() || !is_digit(s[j]),
    ensures
        digits_end(s, i) == j,
    decreases j - i,
{
    if i < j {
        assert(is_digit(s[i]));
        lemma_digits_end_run(s, i + 1, j);
    }
}

proof fn lemma_digits_val_rep(n: int, s: Seq<char>, i: int)
    requires
        n >= 0,
        0 <= i,
        i + dec_rep(n).len() <= s.len(),
        s.subrange(i, i + dec_rep(n).len()) == dec_rep(n),
    ensures
        digits_val(s, i, i + dec_rep(n).len()) == n,
    decreases n,
{
    let rep = dec_rep(n);
    let l = rep.len();
    assert forall|k: int| i <= k < i + l implies #[trigger] s[k] == rep[k - i] by {
        assert(s.subrange(i, i + l)[k - i] == s[k]);
    }
    lemma_dec_rep_digits(n);
    if n < 10 {
        assert(s[i] == digit_char(n));
        assert(digits_val(s, i, i + 1) == digits_val(s, i, i) * 10 + dval(s[i]));
        assert(dval(digit_char(n)) == n);
    } else {
        assert(rep == dec_rep(n / 10) + seq![digit_char(n % 10)]);
        let l0 = dec_rep(n / 10).len();
        assert(s.subrange(i, i + l0) =~= dec_rep(n / 10));
        lemma_digits_val_rep(n / 10, s, i);
        assert(s[i + l - 1] == rep[l - 1]);
        assert(rep[l - 1] == digit_char(n % 10));
        assert(dval(digit_char(n % 10)) == n % 10);
        assert(digits_val(s, i, i + l) == digits_val(s, i, i + l - 1) * 10 + dval(s[i + l - 1]));
        assert(n == n / 10 * 10 + n % 10);
    }
}

proof fn lemma_parse_esc(body: Seq<char>, s: Seq<char>, i: int)
    requires
        0 <= i,
        i + esc(body).len() + 1 <= s.len(),
        s.subrange(i, i + esc(body).len() + 1) == esc(body) + seq!['"'],
    ensures
        parse_str_body(s, i) == Some((body, (esc(body).len() + 1) as nat)),
    decreases body.len(),
{
    let el = esc(body).len();
    assert forall|k: int| i <= k < i + el + 1 implies #[trigger] s[k] == (esc(body)
        + seq!['"'])[k - i] by {
        assert(s.subrange(i, i + el + 1)[k - i] == s[k]);
    }
    if body.len() == 0 {
        assert(esc(body) =~= Seq::<char>::empty());
        assert(s[i] == '"');
        assert(body =~= Seq::<char>::empty());
    } else {
        let c = body[0];
        let rest = body.drop_first();
        assert(esc(body) == esc_char(c) + esc(rest));
        let erl = esc(rest).len();
        if c == '"' || c == '\\' {
            assert(esc_char(c) =~= seq!['\\', c]);
            assert(s[i] == '\\');
            assert(s[i + 1] == c);
            assert(s.subrange(i + 2, i + 2 + erl + 1) =~= esc(rest) + seq!['"']);
            lemma_parse_esc(rest, s, i + 2);
            assert(seq![s[i + 1]] + rest =~= body);
        } else {
            assert(esc_char(c) =~= seq![c]);
            assert(s[i] == c);
            assert(s.subrange(i + 1, i + 1 + erl + 1) =~= esc(rest) + seq!['"']);
            lemma_parse_esc(rest, s, i + 1);
            assert(seq![s[i]] + rest =~= body);
        }
    }
}

proof fn lemma_ser_first(j: JsonVal)
    ensures
        ser_json(j).len() >= 1,
        ser_json(j)[0] != ']',
        ser_json(j)[0] != '}',
        ser_json(j)[0] != ',',
{
    match j {
        JsonVal::Int(i) => {
            if i < 0 {
            } else {
                lemma_dec_rep_digits(i);
                assert(is_digit(ser_json(j)[0]));
                assert(']' as u32 == 93);
                assert('}' as u32 == 125);
                assert(',' as u32 == 44);
            }
        },
        _ => {},
    }
}

/// Parsing the wire text of a well-formed document, embedded at `i` and not
/// followed by a digit, recovers exactly that document.
#[verifier::rlimit(100)]
#[verifier::spinoff_prover]
pub proof fn lemma_parse_ser(j: JsonVal, s: Seq<char>, i: int)
    requires
        json_wf(j),
        0 <= i,
        i + ser_json(j).len() <= s.len(),
        s.subrange(i, i + ser_json(j).len()) == ser_json(j),
        i + ser_json(j).len() == s.len() || !is_digit(s[i + ser_json(j).len()]),
    ensures
        parse_val(s, i) == Some((j, ser_json(j).len() as nat)),
    decreases j,
{
    let l = ser_json(j).len();
    assert forall|k: int| i <= k < i + l implies #[trigger] s[k] == ser_json(j)[k - i] by {
        assert(s.subrange(i, i + l)[k - i] == s[k]);
    }
    match j {
        JsonVal::Null => {
            assert(s[i] == 'n' && s[i + 1] == 'u' && s[i + 2] == 'l' && s[i + 3] == 'l');
        },
        JsonVal::Bool(b) => {
            if b {
                assert(s[i] == 't' && s[i + 1] == 'r' && s[i + 2] == 'u' && s[i + 3] == 'e');
            } else {
                assert(s[i] == 'f' && s[i + 1] == 'a' && s[i + 2] == 'l' && s[i + 3] == 's' && s[i
                    + 4] == 'e');
            }
        },
        JsonVal::Int(v) => {
            if v >= 0 {
                lemma_dec_rep_digits(v);
                assert forall|k: int| i <= k < i + l implies is_digit(#[trigger] s[k]) by {
                    assert(s[k] == ser_json(j)[k - i]);
                }
                assert(is_digit(s[i]));
                assert('n' as u32 == 110 && 't' as u32 == 116 && 'f' as u32 == 102 && '"' as u32
                    == 34 && '-' as u32 == 45);
                lemma_digits_end_run(s, i, i + l);
                assert(s.subrange(i, i + l) == dec_rep(v));
                lemma_digits_val_rep(v, s, i);
                if v >= 10 {
                    assert(s[i] == dec_rep(v)[0]);
                    assert(s[i] as u32 != 48);
                } else {
                    assert(l == 1);
                }
                assert(v <= 9223372036854775807);
            } else {
                let m = -v;
                lemma_dec_rep_digits(m);
                assert(ser_json(j) == seq!['-'] + dec_rep(m));
                assert(s[i] == '-');
                assert forall|k: int| i + 1 <= k < i + l implies is_digit(#[trigger] s[k]) by {
                    assert(s[k] == ser_json(j)[k - i]);
                    assert(ser_json(j)[k - i] == dec_rep(m)[k - i - 1]);
                }
                assert(is_digit(s[i + 1]));
                lemma_digits_end_run(s, i + 1, i + l);
                assert(s.subrange(i + 1, i + 1 + dec_rep(m).len()) =~= dec_rep(m));
                lemma_digits_val_rep(m, s, i + 1);
                if m >= 10 {
                    assert(s[i + 1] == dec_rep(m)[0]);
                    assert(s[i + 1] as u32 != 48);
                } else {
                    assert(l == 2);
                }
                assert(m <= 9223372036854775808);
            }
        },
        JsonVal::Str(b) => {
            assert(ser_json(j) == seq!['"'] + esc(b) + seq!['"']);
            assert(s[i] == '"');
            assert('"' as u32 == 34 && 'n' as u32 == 110 && 't' as u32 == 116 && 'f' as u32
                == 102);
            let el = esc(b).len();
            assert(s.subrange(i + 1, i + 1 + el + 1) =~= esc(b) + seq!['"']);
            lemma_parse_esc(b, s, i + 1);
        },
        JsonVal::Arr(items) => {
            assert(s[i] == '[');
            if items.len() == 0 {
                assert(ser_items(items) =~= Seq::<char>::empty());
                assert(s[i + 1] == ']');
                assert(items =~= Seq::<JsonVal>::empty());
            } else {
                let li = ser_items(items).len();
                lemma_ser_first(items[0]);
                if items.len() == 1 {
                    assert(ser_items(items)[0] == ser_json(items[0])[0]);
                } else {
                    assert(ser_items(items) == ser_json(items[0]) + seq![','] + ser_items(
                        items.drop_first(),
                    ));
                    assert(ser_items(items)[0] == ser_json(items[0])[0]);
                }
                assert(s[i + 1] == ser_items(items)[0]);
                assert(s[i + 1] != ']');
                assert(s.subrange(i + 1, i + 1 + li) =~= ser_items(items));
                assert(s[i + 1 + li] == ser_json(j)[l - 1]);
                assert(s[i + 1 + li] == ']');
                assert forall|k: int| 0 <= k < items.len() implies json_wf(
                    #[trigger] items[k],
                ) by {}
                lemma_parse_items(items, s, i + 1);
            }
        },
        JsonVal::Obj(pairs) => {
            assert(s[i] == '{');
            if pairs.len() == 0 {
                assert(ser_pairs(pairs) =~= Seq::<char>::empty());
                assert(s[i + 1] == '}');
                assert(pairs =~= Seq::<(Seq<char>, JsonVal)>::empty());
            } else {
                let lp = ser_pairs(pairs).len();
                if pairs.len() == 1 {
                    assert(ser_pairs(pairs)[0] == ser_pair(pairs[0])[0]);
                } else {
                    assert(ser_pairs(pairs) == ser_pair(pairs[0]) + seq![','] + ser_pairs(
                        pairs.drop_first(),
                    ));
                    assert(ser_pairs(pairs)[0] == ser_pair(pairs[0])[0]);
                }
                assert(ser_pair(pairs[0])[0] == '"');
                assert(s[i + 1] == ser_pairs(pairs)[0]);
                assert(s[i + 1] != '}');
                assert(s.subrange(i + 1, i + 1 + lp) =~= ser_pairs(pairs));
                assert(s[i + 1 + lp] == ser_json(j)[l - 1]);
                assert(s[i + 1 + lp] == '}');
                assert forall|k: int| 0 <= k < pairs.len() implies json_wf(
                    #[trigger] pairs[k].1,
                ) by {}
                lemma_parse_pairs(pairs, s, i + 1);
            }
        },
    }
}

proof fn lemma_parse_items(items: Seq<JsonVal>, s: Seq<char>, i: int)
    requires
        items.len() >= 1,
        forall|k: int| 0 <= k < items.len() ==> json_wf(#[trigger] items[k]),
        0 <= i,
        i + ser_items(items).len() < s.len(),
        s.subrange(i, i + ser_items(items).len()) == ser_items(items),
        s[i + ser_items(items).len()] == ']',
    ensures
        parse_items(s, i) == Some((items, (ser_items(items).len() + 1) as nat)),
    decreases items,
{
    let li = ser_items(items).len();
    let l0 = ser_json(items[0]).len();
    assert forall|k: int| i <= k < i + li implies #[trigger] s[k] == ser_items(items)[k - i] by {
        assert(s.subrange(i, i + li)[k - i] == s[k]);
    }
    assert(']' as u32 == 93 && ',' as u32 == 44);
    if items.len() == 1 {
        assert(ser_items(items) == ser_json(items[0]));
        lemma_parse_ser(items[0], s, i);
        assert(s[i + l0] == ']');
        assert(items =~= seq![items[0]]);
    } else {
        assert(ser_items(items) == ser_json(items[0]) + seq![','] + ser_items(
            items.drop_first(),
        ));
        assert(s.subrange(i, i + l0) =~= ser_json(items[0]));
        assert(s[i + l0] == ser_items(items)[l0 as int]);
        assert(s[i + l0] == ',');
        lemma_parse_ser(items[0], s, i);
        let rest = items.drop_first();
        let lr = ser_items(rest).len();
        assert(li == l0 + 1 + lr);
        assert(s.subrange(i + l0 + 1, i + l0 + 1 + lr) =~= ser_items(rest));
        assert(s[i + l0 + 1 + lr] == ']');
        assert forall|k: int| 0 <= k < rest.len() implies json_wf(#[trigger] rest[k]) by {
            assert(rest[k] == items[k + 1]);
        }
        lemma_parse_items(rest, s, i + l0 + 1);
        assert(seq![items[0]] + rest =~= items);
    }
}

#[verifier::rlimit(100)]
#[verifier::spinoff_prover]
proof fn lemma_parse_pairs(pairs: Seq<(Seq<char>, JsonVal)>, s: Seq<char>, i: int)
    requires
        pairs.len() >= 1,
        forall|k: int| 0 <= k < pairs.len() ==> json_wf(#[trigger] pairs[k].1),
        0 <= i,
        i + ser_pairs(pairs).len() < s.len(),
        s.subrange(i, i + ser_pairs(pairs).len()) == ser_pairs(pairs),
        s[i + ser_pairs(pairs).len()] == '}',
    ensures
        parse_pairs(s, i) == Some((pairs, (ser_pairs(pairs).len() + 1) as nat)),
    decreases pairs,
{
    let lp = ser_pairs(pairs).len();
    let key = pairs[0].0;
    let v0 = pairs[0].1;
    let el = esc(key).len();
    let lv = ser_json(v0).len();
    let p0 = ser_pair(pairs[0]);
    let p0l = p0.len();
    assert('}' as u32 == 125 && ',' as u32 == 44 && ':' as u32 == 58 && '"' as u32 == 34);
    assert(p0 == seq!['"'] + esc(key) + seq!['"'] + seq![':'] + ser_json(v0));
    assert(p0l == el + 3 + lv);
    if pairs.len() > 1 {
        assert(ser_pairs(pairs) == p0 + seq![','] + ser_pairs(pairs.drop_first()));
    }
    assert(s.subrange(i, i + p0l) =~= p0) by {
        assert forall|m: int| 0 <= m < p0l implies s.subrange(i, i + p0l)[m] == p0[m] by {
            assert(s.subrange(i, i + lp)[m] == s[i + m]);
            assert(s.subrange(i, i + p0l)[m] == s[i + m]);
            assert(ser_pairs(pairs)[m] == p0[m]);
        }
    }
    let sp = s.subrange(i, i + p0l);
    assert(s[i] == '"') by {
        assert(sp[0int] == s[i]);
        assert(p0[0int] == '"');
    }
    assert(s.subrange(i + 1, i + 1 + el + 1) =~= esc(key) + seq!['"']) by {
        assert forall|m: int| 0 <= m < el + 1 implies s.subrange(i + 1, i + 1 + el + 1)[m] == (
        esc(key) + seq!['"'])[m] by {
            assert(s.subrange(i + 1, i + 1 + el + 1)[m] == s[i + 1 + m]);
            assert(sp[1 + m] == s[i + 1 + m]);
            assert(p0[1 + m] == (esc(key) + seq!['"'])[m]);
        }
    }
    lemma_parse_esc(key, s, i + 1);
    let j = i + 1 + (el + 1);
    assert(s[j] == ':') by {
        assert(sp[el + 2 as int] == s[j]);
        assert(p0[el + 2 as int] == ':');
    }
    assert(s.subrange(j + 1, j + 1 + lv) =~= ser_json(v0)) by {
        assert forall|m: int| 0 <= m < lv implies s.subrange(j + 1, j + 1 + lv)[m] == ser_json(
            v0,
        )[m] by {
            assert(s.subrange(j + 1, j + 1 + lv)[m] == s[j + 1 + m]);
            assert(sp[el + 3 + m] == s[j + 1 + m]);
            assert(p0[el + 3 + m] == ser_json(v0)[m]);
        }
    }
    let k2 = j + 1 + lv;
    assert(k2 == i + p0l);
    if pairs.len() == 1 {
        assert(s[k2] == '}');
        lemma_parse_ser(v0, s, j + 1);
        assert(pairs =~= seq![(key, v0)]);
    } else {
        let rest = pairs.drop_first();
        let lr = ser_pairs(rest).len();
        assert(lp == p0l + 1 + lr);
        assert(s[k2] == ',') by {
            assert(s.subrange(i, i + lp)[p0l as int] == s[i + p0l]);
            assert(ser_pairs(pairs)[p0l as int] == ',');
        }
        lemma_parse_ser(v0, s, j + 1);
        assert(s.subrange(k2 + 1, k2 + 1 + lr) =~= ser_pairs(rest)) by {
            assert forall|m: int| 0 <= m < lr implies s.subrange(k2 + 1, k2 + 1 + lr)[m]
                == ser_pairs(rest)[m] by {
                assert(s.subrange(i, i + lp)[p0l + 1 + m] == s[i + p0l + 1 + m]);
                assert(s.subrange(k2 + 1, k2 + 1 + lr)[m] == s[k2 + 1 + m]);
                assert(ser_pairs(pairs)[p0l + 1 + m] == ser_pairs(rest)[m]);
            }
        }
        assert(s[k2 + 1 + lr] == '}');
        assert forall|k: int| 0 <= k < rest.len() implies json_wf(#[trigger] rest[k].1) by {
            assert(rest[k] == pairs[k + 1]);
        }
        lemma_parse_pairs(rest, s, k2 + 1);
        assert(seq![(key, v0)] + rest =~= pairs);
    }
}

/// Round trip: parsing the canonical wire text of any well-formed document
/// recovers exactly that document.
pub proof fn lemma_json_round_trip(j: JsonVal)
    requires
        json_wf(j),
    ensures
        parse_json(ser_json(j)) == Some(j),
{
    let s = ser_json(j);
    assert(s.subrange(0, s.len() as int) =~= s);
    lemma_parse_ser(j, s, 0);
}


// ------------------------------------------------------------------
// The executable parser, verified against the parsing specification.
// ------------------------------------------------------------------

fn is_digit_exec(c: char) -> (r: bool)
    ensures
        r == is_digit(c),
{
    let u = c as u32;
    48 <= u && u <= 57
}

fn digits_end_exec(s: &Vec<char>, i: usize) -> (j: usize)
    requires
        i <= s@.len(),
    ensures
        j == digits_end(s@, i as int),
        i <= j <= s@.len(),
        forall|k: int| i <= k < j ==> is_digit(#[trigger] s@[k]),
{
    let mut j = i;
    while j < s.len() && is_digit_exec(s[j])
        invariant
            i <= j <= s@.len(),
            digits_end(s@, i as int) == digits_end(s@, j as int),
            forall|k: int| i <= k < j ==> is_digit(#[trigger] s@[k]),
        decreases s@.len() - j,
    {
        j += 1;
    }
    j
}

pub open spec fn pow10(k: nat) -> int
    decreases k,
{
    if k == 0 {
        1
    } else {
        10 * pow10((k - 1) as nat)
    }
}

proof fn lemma_pow10_pos(k: nat)
    ensures
        pow10(k) >= 1,
    decreases k,
{
    if k > 0 {
        lemma_pow10_pos((k - 1) as nat);
    }
}

proof fn lemma_pow10_mono(a: nat, b: nat)
    requires
        a <= b,
    ensures
        pow10(a) <= pow10(b),
    decreases b,
{
    if a < b {
        lemma_pow10_mono(a, (b - 1) as nat);
        lemma_pow10_pos((b - 1) as nat);
    }
}

proof fn lemma_digits_end_lb(s: Seq<char>, i: int)
    requires
        0 <= i <= s.len(),
    ensures
        i <= digits_end(s, i) <= s.len(),
    decreases s.len() - i,
{
    if i < s.len() && is_digit(s[i]) {
        lemma_digits_end_lb(s, i + 1);
    }
}

proof fn lemma_digits_val_lower(s: Seq<char>, i: int, j: int)
    requires
        0 <= i < j <= s.len(),
        forall|k: int| i <= k < j ==> is_digit(#[trigger] s[k]),
        dval(s[i]) >= 1,
    ensures
        digits_val(s, i, j) >= pow10((j - i - 1) as nat),
    decreases j - i,
{
    if j - i == 1 {
        assert(digits_val(s, i, j) == digits_val(s, i, i) * 10 + dval(s[j - 1]));
    } else {
        lemma_digits_val_lower(s, i, j - 1);
        assert(pow10((j - i - 1) as nat) == 10 * pow10((j - i - 2) as nat));
        assert(dval(s[j - 1]) >= 0);
    }
}

fn digits_value_u64(s: &Vec<char>, i: usize, e: usize) -> (u: u64)
    requires
        i <= e <= s@.len(),
        e - i >= 1,
        e - i <= 19,
        forall|k: int| i <= k < e ==> is_digit(#[trigger] s@[k]),
    ensures
        u as int == digits_val(s@, i as int, e as int),
{
    let mut acc: u64 = 0;
    let mut k = i;
    proof {
        lemma_pow10_pos(0);
    }
    while k < e
        invariant
            i <= k <= e <= s@.len(),
            e - i <= 19,
            forall|j: int| i <= j < e ==> is_digit(#[trigger] s@[j]),
            acc as int == digits_val(s@, i as int, k as int),
            acc < pow10((k - i) as nat),
        decreases e - k,
    {
        let c = s[k];
        let u = c as u32;
        let d = (u - 48) as u64;
        proof {
            assert(is_digit(s@[k as int]));
            assert(d < 10);
            assert(pow10((k + 1 - i) as nat) == 10 * pow10((k - i) as nat));
            lemma_pow10_mono((k + 1 - i) as nat, 19);
            assert(pow10(19) == 10000000000000000000) by {
                reveal_with_fuel(pow10, 20);
            }
            assert(acc * 10 + d < pow10((k + 1 - i) as nat));
        }
        acc = acc * 10 + d;
        k += 1;
    }
    acc
}

fn p_number(s: &Vec<char>, i: usize, start: usize) -> (r: Option<(JsonValue, usize)>)
    requires
        i <= start < s@.len(),
        start - i <= 1,
        start > i ==> s@[i as int] == '-',
        is_digit(s@[start as int]),
    ensures
        ({
            let neg = start > i;
            let e = digits_end(s@, start as int);
            let v = digits_val(s@, start as int, e);
            let lead0 = s@[start as int] as u32 == 48 && e > start + 1;
            match r {
                Some(p) => {
                    &&& !lead0
                    &&& (if neg {
                        v <= 9223372036854775808 && jv(p.0) == JsonVal::Int(-v)
                    } else {
                        v <= 9223372036854775807 && jv(p.0) == JsonVal::Int(v)
                    })
                    &&& p.1 == e - i
                    &&& i + p.1 <= s@.len()
                    &&& p.1 >= 1
                },
                None => lead0 || (if neg {
                    v > 9223372036854775808
                } else {
                    v > 9223372036854775807
                }),
            }
        }),
{
    let slen = s.len();
    let neg = start > i;
    let e = digits_end_exec(s, start);
    proof {
        lemma_digits_end_lb(s@, start as int + 1);
        assert(digits_end(s@, start as int) == digits_end(s@, start as int + 1));
    }
    let len = e - start;
    if s[start] as u32 == 48 {
        if e - start > 1 {
            return None;
        }
        proof {
            assert(dval(s@[start as int]) == 0);
            assert(e == start + 1);
            assert(digits_val(s@, start as int, start as int) == 0);
            assert(digits_val(s@, start as int, e as int) == 0);
        }
        return Some((JsonValue::Int(0), e - i));
    }
    if len >= 20 {
        proof {
            assert('0' as u32 == 48);
            assert(dval(s@[start as int]) >= 1);
            lemma_digits_val_lower(s@, start as int, e as int);
            lemma_pow10_mono(19, (e - start - 1) as nat);
            assert(pow10(19) == 10000000000000000000) by {
                reveal_with_fuel(pow10, 20);
            }
        }
        return None;
    }
    let u = digits_value_u64(s, start, e);
    if neg {
        if u > 9223372036854775808u64 {
            None
        } else {
            let x: i64;
            if u == 9223372036854775808u64 {
                x = i64::MIN;
            } else {
                x = -(u as i64);
            }
            Some((JsonValue::Int(x), e - i))
        }
    } else {
        if u > 9223372036854775807u64 {
            None
        } else {
            Some((JsonValue::Int(u as i64), e - i))
        }
    }
}

fn p_str_body(s: &Vec<char>, i: usize) -> (r: Option<(Vec<char>, usize)>)
    requires
        i <= s@.len(),
    ensures
        match r {
            Some(p) => parse_str_body(s@, i as int) == Some((p.0@, p.1 as nat)) && i + p.1
                <= s@.len() && p.1 >= 1,
            None => parse_str_body(s@, i as int) is None,
        },
    decreases s@.len() - i,
{
    if i >= s.len() {
        return None;
    }
    let c = s[i];
    if c == '"' {
        let v: Vec<char> = Vec::new();
        Some((v, 1))
    } else if c == '\\' {
        if s.len() - i >= 2 {
            match p_str_body(s, i + 2) {
                Some((mut b, n)) => {
                    let mut v: Vec<char> = Vec::new();
                    v.push(s[i + 1]);
                    v.append(&mut b);
                    Some((v, n + 2))
                },
                None => None,
            }
        } else {
            None
        }
    } else {
        match p_str_body(s, i + 1) {
            Some((mut b, n)) => {
                let mut v: Vec<char> = Vec::new();
                v.push(c);
                v.append(&mut b);
                Some((v, n + 1))
            },
            None => None,
        }
    }
}

proof fn lemma_jv_seq_cons(v: JsonValue, rest: Seq<JsonValue>)
    ensures
        jv_seq(seq![v] + rest) == seq![jv(v)] + jv_seq(rest),
{
    let s = seq![v] + rest;
    assert(s.len() >= 1);
    assert(s[0] == v);
    assert(s.drop_first() =~= rest);
}

proof fn lemma_jv_pairs_cons(k: String, v: JsonValue, rest: Seq<(String, JsonValue)>)
    ensures
        jv_pairs(seq![(k, v)] + rest) == seq![(k@, jv(v))] + jv_pairs(rest),
{
    let s = seq![(k, v)] + rest;
    assert(s.len() >= 1);
    assert(s[0] == (k, v));
    assert(s.drop_first() =~= rest);
}

/// Parses one document value starting at `i`.
pub fn p_val(s: &Vec<char>, i: usize) -> (r: Option<(JsonValue, usize)>)
    requires
        i <= s@.len(),
    ensures
        match r {
            Some(p) => parse_val(s@, i as int) == Some((jv(p.0), p.1 as nat)) && i + p.1
                <= s@.len() && p.1 >= 1,
            None => parse_val(s@, i as int) is None,
        },
    decreases s@.len() - i, 2int,
{
    if i >= s.len() {
        return None;
    }
    let c = s[i];
    if c == 'n' {
        if s.len() - i >= 4 && s[i + 1] == 'u' && s[i + 2] == 'l' && s[i + 3] == 'l' {
            Some((JsonValue::Null, 4))
        } else {
            None
        }
    } else if c == 't' {
        if s.len() - i >= 4 && s[i + 1] == 'r' && s[i + 2] == 'u' && s[i + 3] == 'e' {
            Some((JsonValue::Bool(true), 4))
        } else {
            None
        }
    } else if c == 'f' {
        if s.len() - i >= 5 && s[i + 1] == 'a' && s[i + 2] == 'l' && s[i + 3] == 's' && s[i + 4]
            == 'e' {
            Some((JsonValue::Bool(false), 5))
        } else {
            None
        }
    } else if c == '"' {
        match p_str_body(s, i + 1) {
            Some((b, n)) => Some((JsonValue::Str(chars_to_string(&b)), n + 1)),
            None => None,
        }
    } else if c == '-' {
        if i + 1 < s.len() && is_digit_exec(s[i + 1]) {
            p_number(s, i, i + 1)
        } else {
            None
        }
    } else if is_digit_exec(c) {
        p_number(s, i, i)
    } else if c == '[' {
        if i + 1 < s.len() && s[i + 1] == ']' {
            let items: Vec<JsonValue> = Vec::new();
            proof {
                assert(jv_seq(items@) =~= Seq::<JsonVal>::empty());
            }
            Some((JsonValue::Arr(items), 2))
        } else {
            match p_items(s, i + 1) {
                Some((items, n)) => Some((JsonValue::Arr(items), n + 1)),
                None => None,
            }
        }
    } else if c == '{' {
        if i + 1 < s.len() && s[i + 1] == '}' {
            let pairs: Vec<(String, JsonValue)> = Vec::new();
            proof {
                assert(jv_pairs(pairs@) =~= Seq::<(Seq<char>, JsonVal)>::empty());
            }
            Some((JsonValue::Obj(pairs), 2))
        } else {
            match p_pairs(s, i + 1) {
                Some((pairs, n)) => Some((JsonValue::Obj(pairs), n + 1)),
                None => None,
            }
        }
    } else {
        None
    }
}

fn p_items(s: &Vec<char>, i: usize) -> (r: Option<(Vec<JsonValue>, usize)>)
    requires
        i <= s@.len(),
    ensures
        match r {
            Some(p) => parse_items(s@, i as int) == Some((jv_seq(p.0@), p.1 as nat)) && i + p.1
                <= s@.len() && p.1 >= 1,
            None => parse_items(s@, i as int) is None,
        },
    decreases s@.len() - i, 3int,
{
    let slen = s.len();
    match p_val(s, i) {
        None => None,
        Some((v, n)) => {
            let j = i + n;
            if j < slen && s[j] == ',' {
                match p_items(s, j + 1) {
                    Some((mut rest, m)) => {
                        let ghost grest = rest@;
                        let mut items: Vec<JsonValue> = Vec::new();
                        items.push(v);
                        items.append(&mut rest);
                        proof {
                            assert(items@ =~= seq![v] + grest);
                            lemma_jv_seq_cons(v, grest);
                        }
                        Some((items, n + 1 + m))
                    },
                    None => None,
                }
            } else if j < slen && s[j] == ']' {
                let mut items: Vec<JsonValue> = Vec::new();
                items.push(v);
                proof {
                    assert(items@ =~= seq![v] + Seq::<JsonValue>::empty());
                    lemma_jv_seq_cons(v, Seq::empty());
                    assert(jv_seq(Seq::<JsonValue>::empty()) =~= Seq::<JsonVal>::empty());
                    assert(jv_seq(items@) =~= seq![jv(v)]);
                }
                Some((items, n + 1))
            } else {
                None
            }
        },
    }
}

fn p_pairs(s: &Vec<char>, i: usize) -> (r: Option<(Vec<(String, JsonValue)>, usize)>)
    requires
        i <= s@.len(),
    ensures
        match r {
            Some(p) => parse_pairs(s@, i as int) == Some((jv_pairs(p.0@), p.1 as nat)) && i + p.1
                <= s@.len() && p.1 >= 1,
            None => parse_pairs(s@, i as int) is None,
        },
    decreases s@.len() - i, 3int,
{
    if i < s.len() && s[i] == '"' {
        match p_str_body(s, i + 1) {
            None => None,
            Some((kb, kn)) => {
                let key = chars_to_string(&kb);
                let j = i + 1 + kn;
                if j < s.len() && s[j] == ':' {
                    match p_val(s, j + 1) {
                        None => None,
                        Some((v, vn)) => {
                            let k2 = j + 1 + vn;
                            if k2 < s.len() && s[k2] == ',' {
                                match p_pairs(s, k2 + 1) {
                                    Some((mut rest, m)) => {
                                        let ghost grest = rest@;
                                        let ghost gkey = key@;
                                        let ghost gv = jv(v);
                                        let mut pairs: Vec<(String, JsonValue)> = Vec::new();
                                        pairs.push((key, v));
                                        pairs.append(&mut rest);
                                        proof {
                                            assert(pairs@ =~= seq![pairs@[0]] + grest);
                                            lemma_jv_pairs_cons(pairs@[0].0, pairs@[0].1, grest);
                                            assert(jv_pairs(pairs@) =~= seq![(gkey, gv)]
                                                + jv_pairs(grest));
                                        }
                                        Some((pairs, kn + vn + 3 + m))
                                    },
                                    None => None,
                                }
                            } else if k2 < s.len() && s[k2] == '}' {
                                let ghost gkey = key@;
                                let ghost gv = jv(v);
                                let mut pairs: Vec<(String, JsonValue)> = Vec::new();
                                pairs.push((key, v));
                                proof {
                                    assert(pairs@ =~= seq![pairs@[0]]
                                        + Seq::<(String, JsonValue)>::empty());
                                    lemma_jv_pairs_cons(pairs@[0].0, pairs@[0].1, Seq::empty());
                                    assert(jv_pairs(Seq::<(String, JsonValue)>::empty())
                                        =~= Seq::<(Seq<char>, JsonVal)>::empty());
                                    assert(jv_pairs(pairs@) =~= seq![(gkey, gv)]);
                                }
                                Some((pairs, kn + vn + 3))
                            } else {
                                None
                            }
                        },
                    }
                } else {
                    None
                }
            },
        }
    } else {
        None
    }
}

/// Parses a whole wire text into a payload value.
pub fn chars_to_json(s: &Vec<char>) -> (r: Option<JsonValue>)
    ensures
        match r {
            Some(v) => parse_json(s@) == Some(jv(v)),
            None => parse_json(s@) is None,
        },
{
    match p_val(s, 0) {
        None => None,
        Some((v, n)) => {
            if n == s.len() {
                Some(v)
            } else {
                None
            }
        },
    }
}


// ------------------------------------------------------------------
// The response wire: a response framed as a document and serialized.
// ------------------------------------------------------------------

pub open spec fn code_name(c: ErrorCode) -> Seq<char> {
    match c {
        ErrorCode::BadRequest => "BadRequest"@,
        ErrorCode::Unauthorized => "Unauthorized"@,
        ErrorCode::NotFound => "NotFound"@,
        ErrorCode::InternalServerError => "InternalServerError"@,
    }
}

pub open spec fn code_of_name(s: Seq<char>) -> Option<ErrorCode> {
    if s == "BadRequest"@ {
        Some(ErrorCode::BadRequest)
    } else if s == "Unauthorized"@ {
        Some(ErrorCode::Unauthorized)
    } else if s == "NotFound"@ {
        Some(ErrorCode::NotFound)
    } else if s == "InternalServerError"@ {
        Some(ErrorCode::InternalServerError)
    } else {
        None
    }
}

/// The fields a response carries on the wire; absent options are absent
/// fields.
pub open spec fn resp_pairs(r: RespV) -> Seq<(Seq<char>, JsonVal)> {
    match r {
        RespV::Success { msg, data } => seq![("success"@, JsonVal::Bool(true))] + (match data {
            Some(d) => seq![("data"@, d)],
            None => Seq::empty(),
        }) + (match msg {
            Some(m) => seq![("msg"@, JsonVal::Str(m))],
            None => Seq::empty(),
        }),
        RespV::Error { code, msg } => seq![
            ("success"@, JsonVal::Bool(false)),
            ("code"@, JsonVal::Str(code_name(code))),
        ] + (match msg {
            Some(m) => seq![("message"@, JsonVal::Str(m))],
            None => Seq::empty(),
        }),
    }
}

pub open spec fn resp_to_json(r: RespV) -> JsonVal {
    JsonVal::Obj(resp_pairs(r))
}

/// The wire text of a response.
pub open spec fn wire_spec(r: RespV) -> Seq<char> {
    ser_json(resp_to_json(r))
}

pub open spec fn success_of_pairs(rest: Seq<(Seq<char>, JsonVal)>) -> Option<RespV> {
    if rest.len() == 0 {
        Some(RespV::Success { msg: None, data: None })
    } else if rest.len() == 1 {
        if rest[0].0 == "data"@ {
            Some(RespV::Success { msg: None, data: Some(rest[0].1) })
        } else if rest[0].0 == "msg"@ && rest[0].1 is Str {
            Some(RespV::Success { msg: Some(rest[0].1->Str_0), data: None })
        } else {
            None
        }
    } else if rest.len() == 2 {
        if rest[0].0 == "data"@ && rest[1].0 == "msg"@ && rest[1].1 is Str {
            Some(RespV::Success { msg: Some(rest[1].1->Str_0), data: Some(rest[0].1) })
        } else {
            None
        }
    } else {
        None
    }
}

pub open spec fn error_of_pairs(rest: Seq<(Seq<char>, JsonVal)>) -> Option<RespV> {
    if 1 <= rest.len() <= 2 && rest[0].0 == "code"@ && rest[0].1 is Str && code_of_name(
        rest[0].1->Str_0,
    ) is Some {
        let code = code_of_name(rest[0].1->Str_0)->0;
        if rest.len() == 1 {
            Some(RespV::Error { code, msg: None })
        } else if rest[1].0 == "message"@ && rest[1].1 is Str {
            Some(RespV::Error { code, msg: Some(rest[1].1->Str_0) })
        } else {
            None
        }
    } else {
        None
    }
}

/// The response a parsed wire document denotes, if it has the right shape.
pub open spec fn json_to_resp(v: JsonVal) -> Option<RespV> {
    match v {
        JsonVal::Obj(pairs) => {
            if pairs.len() >= 1 && pairs[0] == ("success"@, JsonVal::Bool(true)) {
                success_of_pairs(pairs.drop_first())
            } else if pairs.len() >= 1 && pairs[0] == ("success"@, JsonVal::Bool(false)) {
                error_of_pairs(pairs.drop_first())
            } else {
                None
            }
        },
        _ => None,
    }
}

/// What parsing a wire text yields.
pub open spec fn wire_parse_spec(s: Seq<char>) -> Option<RespV> {
    match parse_json(s) {
        Some(v) => json_to_resp(v),
        None => None,
    }
}

/// A deep copy of a payload value, with the same model.
pub fn copy_json(v: &JsonValue) -> (r: JsonValue)
    ensures
        jv(r) == jv(*v),
    decreases *v,
{
    match v {
        JsonValue::Null => JsonValue::Null,
        JsonValue::Bool(b) => JsonValue::Bool(*b),
        JsonValue::Int(i) => JsonValue::Int(*i),
        JsonValue::Str(st) => JsonValue::Str(st.clone()),
        JsonValue::Arr(items) => {
            proof {
                lemma_jv_seq_index(items@);
            }
            let n = items.len();
            let mut out: Vec<JsonValue> = Vec::new();
            let mut k: usize = 0;
            while k < n
                invariant
                    *v == JsonValue::Arr(*items),
                    n == items.len(),
                    0 <= k <= n,
                    out@.len() == k,
                    forall|j: int| 0 <= j < k ==> jv(#[trigger] out@[j]) == jv(items@[j]),
                decreases n - k,
            {
                proof {
                    assert(decreases_to!(*v => v->Arr_0));
                    assert(v->Arr_0 == *items);
                    assert(decreases_to!(*items => items@));
                    assert(decreases_to!(items@ => items@[k as int]));
                }
                let c = copy_json(&items[k]);
                out.push(c);
                k += 1;
            }
            proof {
                lemma_jv_seq_index(out@);
                assert(jv_seq(out@) =~= jv_seq(items@));
            }
            JsonValue::Arr(out)
        },
        JsonValue::Obj(pairs) => {
            proof {
                lemma_jv_pairs_index(pairs@);
            }
            let n = pairs.len();
            let mut out: Vec<(String, JsonValue)> = Vec::new();
            let mut k: usize = 0;
            while k < n
                invariant
                    *v == JsonValue::Obj(*pairs),
                    n == pairs.len(),
                    0 <= k <= n,
                    out@.len() == k,
                    forall|j: int|
                        0 <= j < k ==> (#[trigger] out@[j]).0@ == pairs@[j].0@ && jv(out@[j].1)
                            == jv(pairs@[j].1),
                decreases n - k,
            {
                proof {
                    assert(decreases_to!(*v => v->Obj_0));
                    assert(v->Obj_0 == *pairs);
                    assert(decreases_to!(*pairs => pairs@));
                    assert(decreases_to!(pairs@ => pairs@[k as int]));
                    assert(decreases_to!(pairs@[k as int] => pairs@[k as int].1));
                }
                let c = copy_json(&pairs[k].1);
                let key = pairs[k].0.clone();
                out.push((key, c));
                k += 1;
            }
            proof {
                lemma_jv_pairs_index(out@);
                assert(jv_pairs(out@) =~= jv_pairs(pairs@));
            }
            JsonValue::Obj(out)
        },
    }
}

/// Serializes a response to its wire text.
pub fn to_wire(r: &Response) -> (w: String)
    ensures
        w@ == wire_spec(r@),
{
    let mut pairs: Vec<(String, JsonValue)> = Vec::new();
    match r {
        Response::Success { msg, data } => {
            pairs.push((String::from_str("success"), JsonValue::Bool(true)));
            match data {
                Some(d) => {
                    pairs.push((String::from_str("data"), copy_json(d)));
                },
                None => {},
            }
            match msg {
                Some(m) => {
                    pairs.push((String::from_str("msg"), JsonValue::Str(m.clone())));
                },
                None => {},
            }
        },
        Response::Error { code, msg } => {
            pairs.push((String::from_str("success"), JsonValue::Bool(false)));
            let name: &str = match code {
                ErrorCode::BadRequest => "BadRequest",
                ErrorCode::Unauthorized => "Unauthorized",
                ErrorCode::NotFound => "NotFound",
                ErrorCode::InternalServerError => "InternalServerError",
            };
            pairs.push((String::from_str("code"), JsonValue::Str(String::from_str(name))));
            match msg {
                Some(m) => {
                    pairs.push((String::from_str("message"), JsonValue::Str(m.clone())));
                },
                None => {},
            }
        },
    }
    proof {
        lemma_jv_pairs_index(pairs@);
        assert(jv_pairs(pairs@) =~= resp_pairs(r@));
    }
    let doc = JsonValue::Obj(pairs);
    json_to_string(&doc)
}

fn code_from_string(s: &String) -> (r: Option<ErrorCode>)
    ensures
        r == code_of_name(s@),
{
    if str_eq_string("BadRequest", s) {
        Some(ErrorCode::BadRequest)
    } else if str_eq_string("Unauthorized", s) {
        Some(ErrorCode::Unauthorized)
    } else if str_eq_string("NotFound", s) {
        Some(ErrorCode::NotFound)
    } else if str_eq_string("InternalServerError", s) {
        Some(ErrorCode::InternalServerError)
    } else {
        None
    }
}

fn resp_from_json(v: &JsonValue) -> (r: Option<Response>)
    ensures
        match r {
            Some(resp) => json_to_resp(jv(*v)) == Some(resp@),
            None => json_to_resp(jv(*v)) is None,
        },
{
    match v {
        JsonValue::Obj(pairs) => {
            proof {
                assert(*v == JsonValue::Obj(*pairs));
                lemma_jv_pairs_index(pairs@);
            }
            if pairs.len() < 1 {
                return None;
            }
            if !str_eq_string("success", &pairs[0].0) {
                return None;
            }
            let flag = match &pairs[0].1 {
                JsonValue::Bool(b) => *b,
                _ => {
                    return None;
                },
            };
            proof {
                assert(jv_pairs(pairs@)[0] == (pairs@[0].0@, jv(pairs@[0].1)));
            }
            if flag {
                if pairs.len() == 1 {
                    proof {
                        assert(jv_pairs(pairs@).drop_first() =~= Seq::<(Seq<char>, JsonVal)>::empty());
                    }
                    Some(Response::Success { msg: None, data: None })
                } else if pairs.len() == 2 {
                    proof {
                        assert(jv_pairs(pairs@).drop_first()[0] == jv_pairs(pairs@)[1]);
                    }
                    if str_eq_string("data", &pairs[1].0) {
                        Some(Response::Success { msg: None, data: Some(copy_json(&pairs[1].1)) })
                    } else if str_eq_string("msg", &pairs[1].0) {
                        match &pairs[1].1 {
                            JsonValue::Str(m) => Some(
                                Response::Success { msg: Some(m.clone()), data: None },
                            ),
                            _ => None,
                        }
                    } else {
                        None
                    }
                } else if pairs.len() == 3 {
                    proof {
                        assert(jv_pairs(pairs@).drop_first()[0] == jv_pairs(pairs@)[1]);
                        assert(jv_pairs(pairs@).drop_first()[1] == jv_pairs(pairs@)[2]);
                    }
                    if str_eq_string("data", &pairs[1].0) && str_eq_string("msg", &pairs[2].0) {
                        match &pairs[2].1 {
                            JsonValue::Str(m) => Some(
                                Response::Success {
                                    msg: Some(m.clone()),
                                    data: Some(copy_json(&pairs[1].1)),
                                },
                            ),
                            _ => None,
                        }
                    } else {
                        None
                    }
                } else {
                    None
                }
            } else {
                if pairs.len() < 2 || pairs.len() > 3 {
                    return None;
                }
                proof {
                    assert(jv_pairs(pairs@).drop_first()[0] == jv_pairs(pairs@)[1]);
                }
                if !str_eq_string("code", &pairs[1].0) {
                    return None;
                }
                let code = match &pairs[1].1 {
                    JsonValue::Str(nm) => match code_from_string(nm) {
                        Some(c) => c,
                        None => {
                            return None;
                        },
                    },
                    _ => {
                        return None;
                    },
                };
                if pairs.len() == 2 {
                    Some(Response::Error { code, msg: None })
                } else {
                    proof {
                        assert(jv_pairs(pairs@).drop_first()[1] == jv_pairs(pairs@)[2]);
                    }
                    if str_eq_string("message", &pairs[2].0) {
                        match &pairs[2].1 {
                            JsonValue::Str(m) => Some(
                                Response::Error { code, msg: Some(m.clone()) },
                            ),
                            _ => None,
                        }
                    } else {
                        None
                    }
                }
            }
        },
        _ => None,
    }
}

/// Parses a wire text back into a response.
pub fn from_wire(w: &str) -> (r: Option<Response>)
    ensures
        match r {
            Some(resp) => wire_parse_spec(w@) == Some(resp@),
            None => wire_parse_spec(w@) is None,
        },
{
    let cs = str_to_chars(w);
    match chars_to_json(&cs) {
        None => None,
        Some(v) => resp_from_json(&v),
    }
}

proof fn lemma_resp_wf(r: RespV)
    requires
        (r matches RespV::Success { data: Some(d), .. } ==> json_wf(d)),
    ensures
        json_wf(resp_to_json(r)),
{
    let pairs = resp_pairs(r);
    assert forall|k: int| 0 <= k < pairs.len() implies json_wf(#[trigger] pairs[k].1) by {}
}

/// Round trip: the wire text of any response parses back to a response with
/// the same success flag, code, message and payload.
pub proof fn lemma_response_round_trip(r: Response)
    ensures
        wire_parse_spec(wire_spec(r@)) == Some(r@),
{
    reveal_strlit("success");
    reveal_strlit("data");
    reveal_strlit("msg");
    reveal_strlit("code");
    reveal_strlit("message");
    reveal_strlit("BadRequest");
    reveal_strlit("Unauthorized");
    reveal_strlit("NotFound");
    reveal_strlit("InternalServerError");
    match r {
        Response::Success { msg, data } => {
            match data {
                Some(d) => {
                    lemma_jv_wf(d);
                },
                None => {},
            }
        },
        Response::Error { .. } => {},
    }
    lemma_resp_wf(r@);
    lemma_json_round_trip(resp_to_json(r@));
    let pairs = resp_pairs(r@);
    assert(json_to_resp(resp_to_json(r@)) == Some(r@)) by {
        match r@ {
            RespV::Success { msg, data } => {
                assert(pairs[0] == ("success"@, JsonVal::Bool(true)));
                let rest = pairs.drop_first();
                match (data, msg) {
                    (None, None) => {
                        assert(rest =~= Seq::<(Seq<char>, JsonVal)>::empty());
                    },
                    (Some(d), None) => {
                        assert(rest =~= seq![("data"@, d)]);
                    },
                    (None, Some(m)) => {
                        assert(rest =~= seq![("msg"@, JsonVal::Str(m))]);
                        assert("msg"@.len() == 3 && "data"@.len() == 4) by {
                            reveal_strlit("msg");
                            reveal_strlit("data");
                        }
                        assert(rest[0].0 != "data"@);
                    },
                    (Some(d), Some(m)) => {
                        assert(rest =~= seq![("data"@, d), ("msg"@, JsonVal::Str(m))]);
                    },
                }
            },
            RespV::Error { code, msg } => {
                assert(pairs[0] == ("success"@, JsonVal::Bool(false)));
                let rest = pairs.drop_first();
                assert("BadRequest"@.len() == 10 && "Unauthorized"@.len() == 12 && "NotFound"@.len()
                    == 8 && "InternalServerError"@.len() == 19) by {
                    reveal_strlit("BadRequest");
                    reveal_strlit("Unauthorized");
                    reveal_strlit("NotFound");
                    reveal_strlit("InternalServerError");
                }
                assert(code_of_name(code_name(code)) == Some(code));
                match msg {
                    None => {
                        assert(rest =~= seq![("code"@, JsonVal::Str(code_name(code)))]);
                    },
                    Some(m) => {
                        assert(rest =~= seq![
                            ("code"@, JsonVal::Str(code_name(code))),
                            ("message"@, JsonVal::Str(m)),
                        ]);
                    },
                }
            },
        }
    }
}

} // verus!
