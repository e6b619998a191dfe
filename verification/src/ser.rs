//! JSON serialization.
//!
//! `to_json_string` prints a `JsonValue` exactly as the spec-level `ser`
//! describes: objects and arrays without whitespace, strings quoted with
//! the minimal escapes (quote, backslash, and control characters).

use vstd::prelude::*;
use crate::json::{JsonValue, JsonModel, json_model_seq, json_model_entries,
    lemma_json_model_seq_len, lemma_json_model_seq_index,
    lemma_json_model_entries_len, lemma_json_model_entries_index};
use crate::shim::push_char;

verus! {

/// The hexadecimal digit for a value below 16.
pub open spec fn hex_digit(n: u32) -> char {
    if n == 0 { '0' } else if n == 1 { '1' } else if n == 2 { '2' } else if n == 3 { '3' }
    else if n == 4 { '4' } else if n == 5 { '5' } else if n == 6 { '6' } else if n == 7 { '7' }
    else if n == 8 { '8' } else if n == 9 { '9' } else if n == 10 { 'a' } else if n == 11 { 'b' }
    else if n == 12 { 'c' } else if n == 13 { 'd' } else if n == 14 { 'e' } else { 'f' }
}

/// How one character appears inside a JSON string literal.
pub open spec fn escape_char(c: char) -> Seq<char> {
    if c == '"' {
        seq!['\\', '"']
    } else if c == '\\' {
        seq!['\\', '\\']
    } else if (c as u32) < 32 {
        seq!['\\', 'u', '0', '0', hex_digit((c as u32) / 16), hex_digit((c as u32) % 16)]
    } else {
        seq![c]
    }
}

pub open spec fn escape(s: Seq<char>) -> Seq<char>
    decreases s.len(),
{
    if s.len() == 0 {
        Seq::empty()
    } else {
        escape_char(s[0]) + escape(s.drop_first())
    }
}

/// A quoted JSON string literal.
pub open spec fn quoted(s: Seq<char>) -> Seq<char> {
    seq!['"'] + escape(s) + seq!['"']
}

/// The serialized text of a JSON value.
pub open spec fn ser(m: JsonModel) -> Seq<char>
    decreases m,
{
    match m {
        JsonModel::Null => "null"@,
        JsonModel::Bool(b) => if b { "true"@ } else { "false"@ },
        JsonModel::Num(s) => s,
        JsonModel::Str(s) => quoted(s),
        JsonModel::Arr(vs) => seq!['['] + ser_items(vs) + seq![']'],
        JsonModel::Obj(es) => seq!['{'] + ser_entries(es) + seq!['}'],
    }
}

pub open spec fn ser_items(vs: Seq<JsonModel>) -> Seq<char>
    decreases vs,
{
    if vs.len() == 0 {
        Seq::empty()
    } else if vs.len() == 1 {
        ser(vs.last())
    } else {
        ser_items(vs.drop_last()) + seq![','] + ser(vs.last())
    }
}

pub open spec fn ser_entries(es: Seq<(Seq<char>, JsonModel)>) -> Seq<char>
    decreases es,
{
    if es.len() == 0 {
        Seq::empty()
    } else if es.len() == 1 {
        quoted(es.last().0) + seq![':'] + ser(es.last().1)
    } else {
        ser_entries(es.drop_last()) + seq![','] + quoted(es.last().0) + seq![':'] + ser(
            es.last().1,
        )
    }
}

pub fn hex_digit_char(n: u32) -> (c: char)
    requires
        n < 16,
    ensures
        c == hex_digit(n),
{
    if n == 0 { '0' } else if n == 1 { '1' } else if n == 2 { '2' } else if n == 3 { '3' }
    else if n == 4 { '4' } else if n == 5 { '5' } else if n == 6 { '6' } else if n == 7 { '7' }
    else if n == 8 { '8' } else if n == 9 { '9' } else if n == 10 { 'a' } else if n == 11 { 'b' }
    else if n == 12 { 'c' } else if n == 13 { 'd' } else if n == 14 { 'e' } else { 'f' }
}

/// Append the escaped form of `s` to `out`.
fn push_escaped(out: &mut String, s: &str)
    ensures
        final(out)@ == old(out)@ + escape(s@),
{
    let n = s.unicode_len();
    let mut i: usize = 0;
    while i < n
        invariant
            n == s@.len(),
            i <= n,
            out@ == old(out)@ + escape(s@.take(i as int)),
        decreases n - i,
    {
        let c = s.get_char(i);
        let cu = c as u32;
        if c == '"' {
            push_char(out, '\\');
            push_char(out, '"');
        } else if c == '\\' {
            push_char(out, '\\');
            push_char(out, '\\');
        } else if cu < 32 {
            push_char(out, '\\');
            push_char(out, 'u');
            push_char(out, '0');
            push_char(out, '0');
            push_char(out, hex_digit_char(cu / 16));
            push_char(out, hex_digit_char(cu % 16));
        } else {
            push_char(out, c);
        }
        proof {
            lemma_escape_snoc(s@, i as int);
            assert(out@ =~= old(out)@ + escape(s@.take(i + 1)));
        }
        i = i + 1;
    }
    proof {
        assert(s@.take(n as int) =~= s@);
    }
}

proof fn lemma_escape_snoc(s: Seq<char>, i: int)
    requires
        0 <= i < s.len(),
    ensures
        escape(s.take(i + 1)) =~= escape(s.take(i)) + escape_char(s[i]),
    decreases i,
{
    if i == 0 {
        assert(s.take(1) =~= seq![s[0]]);
        assert(s.take(1)[0] == s[0]);
        assert(s.take(1).drop_first() =~= Seq::<char>::empty());
        assert(escape(Seq::<char>::empty()) =~= Seq::<char>::empty());
        assert(escape(s.take(1)) =~= escape_char(s[0]) + escape(Seq::<char>::empty()));
        assert(escape(s.take(0)) =~= Seq::<char>::empty());
        assert(escape(s.take(1)) =~= escape_char(s[0]));
    } else {
        let t = s.drop_first();
        assert(s.take(i + 1).drop_first() =~= t.take(i));
        assert(s.take(i).drop_first() =~= t.take(i - 1));
        assert(s.take(i + 1)[0] == s[0]);
        assert(s.take(i)[0] == s[0]);
        lemma_escape_snoc(t, i - 1);
        assert(escape(s.take(i + 1)) =~= escape_char(s[0]) + escape(t.take(i)));
        assert(escape(s.take(i)) =~= escape_char(s[0]) + escape(t.take(i - 1)));
        assert(t[i - 1] == s[i]);
    }
}

/// Append the quoted, escaped form of `s` to `out`.
fn push_quoted(out: &mut String, s: &str)
    ensures
        final(out)@ == old(out)@ + quoted(s@),
{
    push_char(out, '"');
    push_escaped(out, s);
    push_char(out, '"');
    proof {
        assert(final(out)@ =~= old(out)@ + quoted(s@));
    }
}

/// Append the serialized text of `v` to `out`.
fn push_json(out: &mut String, v: &JsonValue)
    ensures
        final(out)@ == old(out)@ + ser(v@),
    decreases v,
{
    match v {
        JsonValue::Null => {
            out.append("null");
        },
        JsonValue::Bool(b) => {
            if *b {
                out.append("true");
            } else {
                out.append("false");
            }
        },
        JsonValue::Num(s) => {
            out.append(s.as_str());
        },
        JsonValue::Str(s) => {
            push_quoted(out, s.as_str());
        },
        JsonValue::Arr(vs) => {
            push_char(out, '[');
            let ghost mvs = json_model_seq(vs@);
            proof {
                lemma_json_model_seq_len(vs@);
            }
            let n = vs.len();
            let mut i: usize = 0;
            while i < n
                invariant
                    n == vs@.len(),
                    mvs == json_model_seq(vs@),
                    mvs.len() == n,
                    i <= n,
                    *v == JsonValue::Arr(*vs),
                    out@ == old(out)@ + seq!['['] + ser_items(mvs.take(i as int)),
                decreases n - i,
            {
                if i > 0 {
                    push_char(out, ',');
                }
                proof {
                    let vsg = (*v)->Arr_0;
                    assert(decreases_to!(*v => vsg@));
                    assert(vsg@ == vs@);
                }
                push_json(out, &vs[i]);
                proof {
                    lemma_json_model_seq_index(vs@, i as int);
                    assert(mvs.take(i + 1).drop_last() =~= mvs.take(i as int));
                    assert(mvs.take(i + 1).last() == mvs[i as int]);
                    if i == 0 {
                        assert(ser_items(mvs.take(0int)) =~= Seq::<char>::empty());
                        assert(out@ =~= old(out)@ + seq!['['] + ser_items(mvs.take(1int)));
                    } else {
                        assert(out@ =~= old(out)@ + seq!['['] + ser_items(mvs.take(i + 1)));
                    }
                }
                i = i + 1;
            }
            push_char(out, ']');
            proof {
                assert(mvs.take(n as int) =~= mvs);
                assert(final(out)@ =~= old(out)@ + ser(v@));
            }
        },
        JsonValue::Obj(es) => {
            push_char(out, '{');
            let ghost mes = json_model_entries(es@);
            proof {
                lemma_json_model_entries_len(es@);
            }
            let n = es.len();
            let mut i: usize = 0;
            while i < n
                invariant
                    n == es@.len(),
                    mes == json_model_entries(es@),
                    mes.len() == n,
                    i <= n,
                    *v == JsonValue::Obj(*es),
                    out@ == old(out)@ + seq!['{'] + ser_entries(mes.take(i as int)),
                decreases n - i,
            {
                if i > 0 {
                    push_char(out, ',');
                }
                push_quoted(out, es[i].0.as_str());
                push_char(out, ':');
                proof {
                    let esg = (*v)->Obj_0;
                    assert(decreases_to!(*v => esg@));
                    assert(esg@ == es@);
                    assert(decreases_to!(es@[i as int] => es@[i as int].1));
                }
                push_json(out, &es[i].1);
                proof {
                    lemma_json_model_entries_index(es@, i as int);
                    assert(mes.take(i + 1).drop_last() =~= mes.take(i as int));
                    assert(mes.take(i + 1).last() == mes[i as int]);
                    if i == 0 {
                        assert(ser_entries(mes.take(0int)) =~= Seq::<char>::empty());
                        assert(out@ =~= old(out)@ + seq!['{'] + ser_entries(mes.take(1int)));
                    } else {
                        assert(out@ =~= old(out)@ + seq!['{'] + ser_entries(mes.take(i + 1)));
                    }
                }
                i = i + 1;
            }
            push_char(out, '}');
            proof {
                assert(mes.take(n as int) =~= mes);
                assert(final(out)@ =~= old(out)@ + ser(v@));
            }
        },
    }
}

/// Serialize a JSON value to text.
pub fn to_json_string(v: &JsonValue) -> (r: String)
    ensures
        r@ == ser(v@),
{
    let mut out = String::new();
    push_json(&mut out, v);
    proof {
        assert(out@ =~= ser(v@));
    }
    out
}

} // verus!
