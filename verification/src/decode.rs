//! The decoder of the canonical wire form. Each parsing function carries two
//! guarantees: what it accepts it reproduces exactly (the consumed text is
//! the canonical rendering of the returned value), and whenever the canonical
//! rendering of some value sits at the current position, it is accepted and
//! that value returned. Together they make `deserialize` a proven inverse of
//! `serialize`.

use vstd::prelude::*;

use crate::codec::arr_str;
use crate::codec::quoted_items;
use crate::codec::entry_str;
use crate::codec::entry_strs;
use crate::codec::esc_char;
use crate::codec::join_comma;
use crate::codec::json_escape;
use crate::codec::obj_items;
use crate::codec::obj_str;
use crate::codec::refs_str;
use crate::codec::caps_part;
use crate::codec::accept_part;
use crate::codec::header_rest1;
use crate::codec::header_rest2;
use crate::codec::header_rest3;
use crate::codec::header_rest4;
use crate::codec::header_rest5;
use crate::codec::header_rest6;
use crate::codec::header_rest7;
use crate::codec::header_rest8;
use crate::codec::header_rest9;
use crate::codec::header_rest10;
use crate::codec::header_rest11;
use crate::codec::hint_part;
use crate::codec::hint_str;
use crate::codec::lemma_serialize_decompose;
use crate::codec::refs_part;
use crate::codec::schema_part;
use crate::codec::spec_serialize;
use crate::codec::tail_accept;
use crate::codec::tail_caps;
use crate::codec::tail_hint;
use crate::codec::tail_refs;
use crate::codec::tail_schema;
use crate::codec::view_wf;
use crate::codec::quoted;
use crate::strutil::dec_str;
use crate::strutil::digit_val;
use crate::strutil::digits_val;
use crate::strutil::is_dec_digit;
use crate::strutil::lemma_dec_str_digits;
use crate::strutil::push_char;
use crate::strutil::to_chars;
use crate::error::UmicpError;
use crate::envelope::Envelope;
use crate::envelope::EnvelopeView;
use crate::envelope::maps_view;
use crate::envelope::strings_view;
use crate::types::keys_unique;
use crate::types::encoding_wire_name;
use crate::types::op_wire_name;
use crate::types::payload_type_wire_name;
use crate::types::spec_encoding_from_name;
use crate::types::spec_op_from_name;
use crate::types::spec_payload_type_from_name;
use crate::types::EncodingType;
use crate::types::OperationType;
use crate::types::PayloadHint;
use crate::types::PayloadType;
use crate::types::StringMap;

verus! {

/// Whether the text `lit` occurs in `v` at position `pos`.
pub open spec fn lit_at(v: Seq<char>, pos: int, lit: Seq<char>) -> bool {
    0 <= pos && pos + lit.len() <= v.len() && v.subrange(pos, pos + lit.len()) == lit
}

/// A text occurring at a position occurs piece by piece.
pub proof fn lemma_lit_split(v: Seq<char>, pos: int, a: Seq<char>, b: Seq<char>)
    requires
        lit_at(v, pos, a + b),
    ensures
        lit_at(v, pos, a),
        lit_at(v, pos + a.len(), b),
{
    assert(v.subrange(pos, pos + a.len()) =~= a) by {
        assert(forall|k: int|
            0 <= k < a.len() ==> #[trigger] v.subrange(pos, pos + (a + b).len())[k] == (a + b)[k]);
    }
    assert forall|k: int|
        0 <= k < b.len() implies #[trigger] v.subrange(pos + a.len(), pos + a.len() + b.len())[k]
        == b[k] by {
        assert(v.subrange(pos, pos + (a + b).len())[a.len() + k] == (a + b)[a.len() + k]);
        assert((a + b)[a.len() + k] == b[k]);
        assert(v[pos + a.len() + k] == b[k]);
    }
    assert(v.subrange(pos + a.len(), pos + a.len() + b.len()) =~= b);
}

/// Texts that disagree at one index cannot occur at one position.
pub proof fn lemma_lit_conflict(v: Seq<char>, pos: int, a: Seq<char>, b: Seq<char>, k: int)
    requires
        lit_at(v, pos, b),
        0 <= k < a.len(),
        k < b.len(),
        a[k] != b[k],
    ensures
        !lit_at(v, pos, a),
{
    if lit_at(v, pos, a) {
        assert(v.subrange(pos, pos + a.len())[k] == a[k]);
        assert(v.subrange(pos, pos + b.len())[k] == b[k]);
        assert(v[pos + k] == a[k] && v[pos + k] == b[k]);
    }
}

/// Escaping distributes over concatenation.
pub proof fn lemma_escape_concat(a: Seq<char>, b: Seq<char>)
    ensures
        json_escape(a + b) == json_escape(a) + json_escape(b),
    decreases a.len(),
{
    if a.len() == 0 {
        assert(a + b =~= b);
        assert(json_escape(a) =~= Seq::<char>::empty());
        assert(json_escape(a + b) =~= json_escape(a) + json_escape(b));
    } else {
        assert((a + b).len() > 0);
        assert((a + b)[0] == a[0]);
        assert((a + b).drop_first() =~= a.drop_first() + b);
        lemma_escape_concat(a.drop_first(), b);
        assert(json_escape(a + b) == esc_char(a[0]) + json_escape(a.drop_first() + b));
        assert(json_escape(a) == esc_char(a[0]) + json_escape(a.drop_first()));
        assert(json_escape(a + b) =~= json_escape(a) + json_escape(b));
    }
}

/// An escaped text is at least as long as its source.
pub proof fn lemma_escape_len(s: Seq<char>)
    ensures
        s.len() <= json_escape(s).len() <= 6 * s.len(),
    decreases s.len(),
{
    if s.len() > 0 {
        lemma_escape_len(s.drop_first());
    }
}

/// Read the literal `lit` at `pos`: `Some` exactly when it occurs there.
fn expect_lit(v: &Vec<char>, pos: usize, lit: &str) -> (r: Option<usize>)
    requires
        pos <= v@.len(),
    ensures
        r is Some <==> lit_at(v@, pos as int, lit@),
        r matches Some(p) ==> p == pos + lit@.len() && p <= v@.len(),
{
    let llen = lit.unicode_len();
    let n = v.len();
    if llen > n - pos {
        proof {
            assert(!lit_at(v@, pos as int, lit@));
        }
        return None;
    }
    let mut j: usize = 0;
    while j < llen
        invariant
            n == v@.len(),
            pos + llen <= n,
            llen == lit@.len(),
            j <= llen,
            forall|k: int| 0 <= k < j ==> v@[pos + k] == lit@[k],
        decreases llen - j,
    {
        if v[pos + j] != lit.get_char(j) {
            proof {
                assert(!lit_at(v@, pos as int, lit@)) by {
                    if lit_at(v@, pos as int, lit@) {
                        assert(v@.subrange(pos as int, pos + lit@.len())[j as int] == lit@[j as int]);
                    }
                }
            }
            return None;
        }
        j = j + 1;
    }
    proof {
        assert(v@.subrange(pos as int, pos + lit@.len()) =~= lit@);
    }
    Some(pos + llen)
}

/// The first character of an escaped character is never a quote, and it is a
/// backslash exactly for the escaped characters: quote, backslash and the
/// controls. The second character then tells the three apart.
proof fn lemma_esc_char_first(c: char)
    ensures
        esc_char(c)[0] != '"',
        esc_char(c)[0] == '\\' <==> (c == '"' || c == '\\' || (c as u32) < 32),
        c == '"' ==> esc_char(c) == seq!['\\', '"'],
        c == '\\' ==> esc_char(c) == seq!['\\', '\\'],
        (c as u32) < 32 ==> esc_char(c).len() == 6 && esc_char(c)[1] == 'u' && esc_char(c)[2] == '0'
            && esc_char(c)[3] == '0' && esc_char(c)[4] == crate::utils::hex_digit(
            (c as u32 / 16) as nat,
        ) && esc_char(c)[5] == crate::utils::hex_digit((c as u32 % 16) as nat),
        1 <= esc_char(c).len() <= 6,
{
}

/// The control character with the given scalar value.
fn ctrl_char_of(code: u8) -> (r: char)
    requires
        code < 32,
    ensures
        r as u32 == code,
{
    match code {
        0 => '\u{0}',
        1 => '\u{1}',
        2 => '\u{2}',
        3 => '\u{3}',
        4 => '\u{4}',
        5 => '\u{5}',
        6 => '\u{6}',
        7 => '\u{7}',
        8 => '\u{8}',
        9 => '\u{9}',
        10 => '\u{a}',
        11 => '\u{b}',
        12 => '\u{c}',
        13 => '\u{d}',
        14 => '\u{e}',
        15 => '\u{f}',
        16 => '\u{10}',
        17 => '\u{11}',
        18 => '\u{12}',
        19 => '\u{13}',
        20 => '\u{14}',
        21 => '\u{15}',
        22 => '\u{16}',
        23 => '\u{17}',
        24 => '\u{18}',
        25 => '\u{19}',
        26 => '\u{1a}',
        27 => '\u{1b}',
        28 => '\u{1c}',
        29 => '\u{1d}',
        30 => '\u{1e}',
        _ => '\u{1f}',
    }
}

/// Read a JSON string at `pos`: `Some((s, p))` means the text from `pos` to
/// `p` is exactly `quoted(s)`; and whenever `quoted(t)` occurs at `pos` for
/// any `t`, the call succeeds and returns that `t`.
fn parse_qstring(v: &Vec<char>, pos: usize) -> (r: Option<(String, usize)>)
    requires
        pos <= v@.len(),
    ensures
        r matches Some(sp) ==> pos < sp.1 <= v@.len() && v@.subrange(pos as int, sp.1 as int)
            == quoted(sp.0@),
        forall|t: Seq<char>|
            lit_at(v@, pos as int, quoted(t)) ==> (r matches Some(sp) && sp.0@ == t && sp.1 == pos
                + quoted(t).len()),
{
    if pos >= v.len() || v[pos] != '"' {
        proof {
            assert forall|t: Seq<char>| !lit_at(v@, pos as int, quoted(t)) by {
                if lit_at(v@, pos as int, quoted(t)) {
                    assert(v@.subrange(pos as int, pos + quoted(t).len())[0] == quoted(t)[0]);
                    assert(v@[pos as int] == '"');
                }
            }
        }
        return None;
    }
    let mut sb = String::new();
    let mut i: usize = pos + 1;
    proof {
        assert(v@.subrange(pos + 1 as int, i as int) =~= json_escape(sb@));
        assert(forall|t: Seq<char>| #[trigger]
            lit_at(v@, pos as int, quoted(t)) ==> sb@.is_prefix_of(t));
    }
    loop
        invariant
            pos < i <= v@.len(),
            pos < v@.len(),
            v@[pos as int] == '"',
            v@.subrange(pos + 1 as int, i as int) == json_escape(sb@),
            forall|t: Seq<char>| #[trigger]
                lit_at(v@, pos as int, quoted(t)) ==> sb@.is_prefix_of(t),
        decreases v@.len() - i,
    {
        proof {
            lemma_escape_len(sb@);
            assert forall|t: Seq<char>|
                lit_at(v@, pos as int, quoted(t)) && sb@.len() < t.len() implies {
                &&& i + esc_char(t[sb@.len() as int]).len() <= v@.len()
                &&& lit_at(v@, i as int, esc_char(t[sb@.len() as int]))
            } by {
                let k = sb@.len() as int;
                assert(t.take(k) =~= sb@);
                assert(t =~= t.take(k) + t.skip(k));
                lemma_escape_concat(t.take(k), t.skip(k));
                assert(t.skip(k).len() > 0);
                assert(t.skip(k)[0] == t[k]);
                assert(t.skip(k).drop_first() =~= t.skip(k + 1));
                assert(json_escape(t.skip(k)) == esc_char(t[k]) + json_escape(t.skip(k + 1)));
                assert(json_escape(t) == json_escape(sb@) + (esc_char(t[k]) + json_escape(
                    t.skip(k + 1),
                )));
                assert(quoted(t) =~= (seq!['"'] + json_escape(sb@)) + (esc_char(t[k])
                    + (json_escape(t.skip(k + 1)) + seq!['"'])));
                lemma_lit_split(
                    v@,
                    pos as int,
                    seq!['"'] + json_escape(sb@),
                    esc_char(t[k]) + (json_escape(t.skip(k + 1)) + seq!['"']),
                );
                lemma_lit_split(
                    v@,
                    pos + 1 + json_escape(sb@).len(),
                    esc_char(t[k]),
                    json_escape(t.skip(k + 1)) + seq!['"'],
                );
                assert(i == pos + 1 + json_escape(sb@).len());
            }
            assert forall|t: Seq<char>|
                lit_at(v@, pos as int, quoted(t)) && sb@.len() == t.len() implies {
                &&& sb@ == t
                &&& i < v@.len()
                &&& v@[i as int] == '"'
                &&& i + 1 == pos + quoted(t).len()
            } by {
                assert(sb@.is_prefix_of(t));
                assert(sb@ =~= t);
                assert(quoted(t) =~= (seq!['"'] + json_escape(t)) + seq!['"']);
                lemma_lit_split(v@, pos as int, seq!['"'] + json_escape(t), seq!['"']);
                assert(v@.subrange(i as int, i + 1 as int)[0] == '"');
            }
        }
        if i >= v.len() {
            proof {
                assert forall|t: Seq<char>| !lit_at(v@, pos as int, quoted(t)) by {
                    if lit_at(v@, pos as int, quoted(t)) {
                        assert(sb@.is_prefix_of(t));
                        lemma_esc_char_first(t[sb@.len() as int]);
                    }
                }
            }
            return None;
        }
        let c = v[i];
        if c == '"' {
            proof {
                assert(v@.subrange(pos as int, i + 1 as int) =~= quoted(sb@));
                assert forall|t: Seq<char>|
                    lit_at(v@, pos as int, quoted(t)) implies sb@ == t && i + 1 == pos + quoted(
                    t,
                ).len() by {
                    if sb@.len() < t.len() {
                        lemma_esc_char_first(t[sb@.len() as int]);
                        assert(v@.subrange(i as int, i + esc_char(t[sb@.len() as int]).len())[0]
                            == esc_char(t[sb@.len() as int])[0]);
                        assert(false);
                    }
                }
            }
            return Some((sb, i + 1));
        } else if c == '\\' {
            proof {
                assert forall|t: Seq<char>|
                    lit_at(v@, pos as int, quoted(t)) implies sb@.len() < t.len() && {
                    let x = t[sb@.len() as int];
                    &&& (x == '"' || x == '\\' || (x as u32) < 32)
                    &&& i + esc_char(x).len() <= v@.len()
                    &&& v@[i + 1] == esc_char(x)[1]
                    &&& ((x == '"' || x == '\\') ==> v@[i + 1] == x)
                    &&& ((x as u32) < 32 ==> v@[i + 1] == 'u' && v@[i + 2] == '0' && v@[i + 3] == '0'
                        && v@[i + 4] == crate::utils::hex_digit((x as u32 / 16) as nat) && v@[i + 5]
                        == crate::utils::hex_digit((x as u32 % 16) as nat))
                } by {
                    lemma_esc_char_first(t[sb@.len() as int]);
                    if sb@.len() == t.len() {
                        assert(false);
                    }
                    let x = t[sb@.len() as int];
                    assert(v@.subrange(i as int, i + esc_char(x).len())[0] == esc_char(x)[0]);
                    assert(esc_char(x)[0] == '\\');
                    assert(v@.subrange(i as int, i + esc_char(x).len())[1] == esc_char(x)[1]);
                    if (x as u32) < 32 {
                        assert(v@.subrange(i as int, i + 6)[2] == esc_char(x)[2]);
                        assert(v@.subrange(i as int, i + 6)[3] == esc_char(x)[3]);
                        assert(v@.subrange(i as int, i + 6)[4] == esc_char(x)[4]);
                        assert(v@.subrange(i as int, i + 6)[5] == esc_char(x)[5]);
                    }
                }
            }
            if i + 1 >= v.len() {
                proof {
                    assert forall|t: Seq<char>| !lit_at(v@, pos as int, quoted(t)) by {}
                }
                return None;
            }
            let e = v[i + 1];
            if e == '"' || e == '\\' {
                let ghost prev = sb@;
                push_char(&mut sb, e);
                proof {
                    lemma_escape_snoc_here(prev, e);
                    assert(esc_char(e) =~= seq!['\\', e]);
                    assert(v@.subrange(pos + 1 as int, i + 2 as int) =~= json_escape(prev)
                        + esc_char(e));
                    assert(forall|t: Seq<char>| #[trigger]
                        lit_at(v@, pos as int, quoted(t)) ==> sb@.is_prefix_of(t)) by {
                        assert forall|t: Seq<char>|
                            lit_at(v@, pos as int, quoted(t)) implies sb@.is_prefix_of(t) by {
                            let x = t[prev.len() as int];
                            if (x as u32) < 32 {
                                assert(v@[i + 1] == 'u');
                                assert(false);
                            }
                            assert(t[prev.len() as int] == e);
                            assert(sb@ =~= prev.push(e));
                            assert(sb@ =~= t.take(sb@.len() as int));
                        }
                    }
                }
                i = i + 2;
            } else if e == 'u' {
                proof {
                    assert forall|t: Seq<char>|
                        lit_at(v@, pos as int, quoted(t)) implies (t[sb@.len() as int] as u32) < 32
                        && i + 6 <= v@.len() by {
                        let x = t[sb@.len() as int];
                        if x == '"' || x == '\\' {
                            assert(v@[i + 1] == x);
                            assert(false);
                        }
                    }
                }
                if v.len() - i < 6 {
                    proof {
                        assert forall|t: Seq<char>| !lit_at(v@, pos as int, quoted(t)) by {}
                    }
                    return None;
                }
                if v[i + 2] != '0' || v[i + 3] != '0' {
                    proof {
                        assert forall|t: Seq<char>| !lit_at(v@, pos as int, quoted(t)) by {}
                    }
                    return None;
                }
                let h1 = v[i + 4];
                let h2 = v[i + 5];
                let a = match crate::utils::hex_val_char(h1) {
                    Some(a) => a,
                    None => {
                        proof {
                            assert forall|t: Seq<char>| !lit_at(v@, pos as int, quoted(t)) by {
                                if lit_at(v@, pos as int, quoted(t)) {
                                    let x = t[sb@.len() as int];
                                    crate::utils::lemma_hex_val_digit((x as u32 / 16) as nat);
                                    assert(false);
                                }
                            }
                        }
                        return None;
                    },
                };
                let b = match crate::utils::hex_val_char(h2) {
                    Some(b) => b,
                    None => {
                        proof {
                            assert forall|t: Seq<char>| !lit_at(v@, pos as int, quoted(t)) by {
                                if lit_at(v@, pos as int, quoted(t)) {
                                    let x = t[sb@.len() as int];
                                    crate::utils::lemma_hex_val_digit((x as u32 % 16) as nat);
                                    assert(false);
                                }
                            }
                        }
                        return None;
                    },
                };
                if a >= 2 {
                    proof {
                        assert forall|t: Seq<char>| !lit_at(v@, pos as int, quoted(t)) by {
                            if lit_at(v@, pos as int, quoted(t)) {
                                let x = t[sb@.len() as int];
                                crate::utils::lemma_hex_val_digit((x as u32 / 16) as nat);
                                assert(a == x as u32 / 16);
                                assert(false);
                            }
                        }
                    }
                    return None;
                }
                let code: u8 = a * 16 + b;
                let c0 = ctrl_char_of(code);
                let ghost prev = sb@;
                push_char(&mut sb, c0);
                proof {
                    lemma_escape_snoc_here(prev, c0);
                    crate::utils::lemma_hex_digit_val(h1, a);
                    crate::utils::lemma_hex_digit_val(h2, b);
                    assert(code as u32 / 16 == a as u32 && code as u32 % 16 == b as u32) by {
                        assert(code == a * 16 + b && b < 16 && a < 2);
                    }
                    assert((c0 as u32) < 32 && c0 != '"' && c0 != '\\');
                    assert(esc_char(c0) =~= seq!['\\', 'u', '0', '0', h1, h2]);
                    assert(v@.subrange(pos + 1 as int, i + 6 as int) =~= json_escape(prev)
                        + esc_char(c0));
                    assert(forall|t: Seq<char>| #[trigger]
                        lit_at(v@, pos as int, quoted(t)) ==> sb@.is_prefix_of(t)) by {
                        assert forall|t: Seq<char>|
                            lit_at(v@, pos as int, quoted(t)) implies sb@.is_prefix_of(t) by {
                            let x = t[prev.len() as int];
                            assert((x as u32) < 32);
                            crate::utils::lemma_hex_val_digit((x as u32 / 16) as nat);
                            crate::utils::lemma_hex_val_digit((x as u32 % 16) as nat);
                            assert(a == x as u32 / 16 && b == x as u32 % 16);
                            assert(c0 as u32 == x as u32);
                            vstd::utf8::char_u32_cast(c0, c0 as u32);
                            vstd::utf8::char_u32_cast(x, x as u32);
                            assert(c0 == x);
                            assert(sb@ =~= prev.push(c0));
                            assert(sb@ =~= t.take(sb@.len() as int));
                        }
                    }
                }
                i = i + 6;
            } else {
                proof {
                    assert forall|t: Seq<char>| !lit_at(v@, pos as int, quoted(t)) by {
                        if lit_at(v@, pos as int, quoted(t)) {
                            let x = t[sb@.len() as int];
                            if (x as u32) < 32 {
                                assert(v@[i + 1] == 'u');
                            } else {
                                assert(v@[i + 1] == x);
                            }
                            assert(false);
                        }
                    }
                }
                return None;
            }
        } else if (c as u32) < 32 {
            proof {
                assert forall|t: Seq<char>| !lit_at(v@, pos as int, quoted(t)) by {
                    if lit_at(v@, pos as int, quoted(t)) {
                        if sb@.len() == t.len() {
                            assert(false);
                        } else {
                            let x = t[sb@.len() as int];
                            lemma_esc_char_first(x);
                            assert(v@.subrange(i as int, i + esc_char(x).len())[0] == esc_char(
                                x,
                            )[0]);
                            if x == '"' || x == '\\' || (x as u32) < 32 {
                                assert(esc_char(x)[0] == '\\');
                            } else {
                                assert(esc_char(x) =~= seq![x]);
                                assert(x == c);
                            }
                            assert(false);
                        }
                    }
                }
            }
            return None;
        } else {
            let ghost prev = sb@;
            push_char(&mut sb, c);
            proof {
                lemma_escape_snoc_here(prev, c);
                assert(esc_char(c) =~= seq![c]);
                assert(v@.subrange(pos + 1 as int, i + 1 as int) =~= json_escape(prev) + esc_char(
                    c,
                ));
                assert forall|t: Seq<char>|
                    lit_at(v@, pos as int, quoted(t)) implies sb@.is_prefix_of(t) by {
                    assert(prev.is_prefix_of(t));
                    if prev.len() == t.len() {
                        assert(prev =~= t);
                        assert(v@.subrange(pos as int, pos + quoted(t).len()) == quoted(t));
                        assert(quoted(t) =~= (seq!['"'] + json_escape(t)) + seq!['"']);
                        lemma_lit_split(v@, pos as int, seq!['"'] + json_escape(t), seq!['"']);
                        assert(v@.subrange(i as int, i + 1 as int)[0] == '"');
                        assert(false);
                    }
                    let x = t[prev.len() as int];
                    lemma_esc_char_first(x);
                    assert(v@.subrange(i as int, i + esc_char(x).len())[0] == esc_char(x)[0]);
                    if x == '"' || x == '\\' || (x as u32) < 32 {
                        assert(esc_char(x)[0] == '\\');
                        assert(false);
                    }
                    assert(esc_char(x) =~= seq![x]);
                    assert(x == c);
                    assert(sb@ =~= prev.push(c));
                    assert(sb@ =~= t.take(sb@.len() as int));
                }
            }
            i = i + 1;
        }
    }
}

/// Whether `dec_str(n)` occurs at `pos` with a non-digit (or the end of the
/// text) right after it — the way a number stands in the wire text.
pub open spec fn num_at(v: Seq<char>, pos: int, n: u64) -> bool {
    lit_at(v, pos, dec_str(n as nat)) && (pos + dec_str(n as nat).len() == v.len()
        || !is_dec_digit(v[pos + dec_str(n as nat).len()]))
}

/// A maximal digit run starting where `dec_str(n)` stands is `dec_str(n)`.
proof fn lemma_run_matches(v: Seq<char>, pos: int, j: int, n: u64)
    requires
        0 <= pos <= j <= v.len(),
        forall|m: int| pos <= m < j ==> is_dec_digit(#[trigger] v[m]),
        j == v.len() || !is_dec_digit(v[j]),
        num_at(v, pos, n),
    ensures
        j == pos + dec_str(n as nat).len(),
        v.subrange(pos, j) == dec_str(n as nat),
{
    let ds = dec_str(n as nat);
    lemma_dec_str_digits(n as nat);
    assert(forall|k: int| 0 <= k < ds.len() ==> v.subrange(pos, pos + ds.len())[k] == ds[k]);
    assert forall|k: int| pos <= k < pos + ds.len() implies is_dec_digit(#[trigger] v[k]) by {
        assert(v.subrange(pos, pos + ds.len())[k - pos] == ds[k - pos]);
        assert(is_dec_digit(ds[k - pos]));
    }
    if j < pos + ds.len() {
        assert(is_dec_digit(v[j]));
        assert(false);
    }
    if j > pos + ds.len() {
        assert(is_dec_digit(v[pos + ds.len()]));
        assert(false);
    }
    assert(v.subrange(pos, j) =~= ds);
}

/// Read an unsigned decimal number at `pos`: `Some((n, p))` means the text
/// from `pos` to `p` is exactly `dec_str(n)` and a non-digit (or the end)
/// follows; and whenever `dec_str(n)` followed by a non-digit or the end
/// occurs at `pos`, the call succeeds with that `n`.
pub(crate) fn parse_u64(v: &Vec<char>, pos: usize) -> (r: Option<(u64, usize)>)
    requires
        pos <= v@.len(),
    ensures
        r matches Some(np) ==> pos < np.1 <= v@.len() && v@.subrange(pos as int, np.1 as int)
            == dec_str(np.0 as nat) && (np.1 == v@.len() || !is_dec_digit(v@[np.1 as int])),
        forall|n: u64|
            #![trigger dec_str(n as nat)]
            num_at(v@, pos as int, n) ==> (r matches Some(np) && np.0 == n && np.1 == pos + dec_str(
                n as nat,
            ).len()),
{
    let n_len = v.len();
    let mut j: usize = pos;
    while j < n_len && v[j] >= '0' && v[j] <= '9'
        invariant
            pos <= j <= n_len,
            n_len == v@.len(),
            forall|k: int| pos <= k < j ==> is_dec_digit(#[trigger] v@[k]),
        decreases n_len - j,
    {
        j = j + 1;
    }
    proof {
        assert(j == v@.len() || !is_dec_digit(v@[j as int]));
    }
    if j == pos {
        proof {
            assert forall|n: u64| !num_at(v@, pos as int, n) by {
                if num_at(v@, pos as int, n) {
                    lemma_run_matches(v@, pos as int, j as int, n);
                    lemma_dec_str_digits(n as nat);
                }
            }
        }
        return None;
    }
    if v[pos] == '0' && j > pos + 1 {
        proof {
            assert forall|n: u64| !num_at(v@, pos as int, n) by {
                if num_at(v@, pos as int, n) {
                    lemma_run_matches(v@, pos as int, j as int, n);
                    lemma_dec_str_digits(n as nat);
                    assert(v@.subrange(pos as int, j as int)[0] == dec_str(n as nat)[0]);
                    assert(dec_str(n as nat)[0] == '0');
                    assert(n == 0);
                    assert(false);
                }
            }
        }
        return None;
    }
    let ghost run = v@.subrange(pos as int, j as int);
    let mut acc: u64 = 0;
    let mut k: usize = pos;
    while k < j
        invariant
            pos <= k <= j <= v@.len(),
            run == v@.subrange(pos as int, j as int),
            run.len() == j - pos,
            run.len() >= 1,
            run[0] == '0' ==> run.len() == 1,
            forall|m: int| pos <= m < j ==> is_dec_digit(#[trigger] v@[m]),
            j == v@.len() || !is_dec_digit(v@[j as int]),
            acc as nat == digits_val(run.take(k - pos)),
        decreases j - k,
    {
        let c = v[k];
        let d: u64 = (c as u32 - '0' as u32) as u64;
        proof {
            assert(is_dec_digit(v@[k as int]));
            assert(run[k - pos] == v@[k as int]);
            assert(d as nat == digit_val(run[k - pos]));
        }
        let step = match acc.checked_mul(10) {
            Some(m) => m.checked_add(d),
            None => None,
        };
        match step {
            Some(next) => {
                proof {
                    assert(run.take(k + 1 - pos).drop_last() =~= run.take(k - pos));
                    assert(run.take(k + 1 - pos).last() == run[k - pos]);
                    assert(next as nat == digits_val(run.take(k + 1 - pos)));
                }
                acc = next;
            },
            None => {
                proof {
                    assert forall|n: u64| !num_at(v@, pos as int, n) by {
                        if num_at(v@, pos as int, n) {
                            lemma_run_matches(v@, pos as int, j as int, n);
                            lemma_dec_str_digits(n as nat);
                            assert(run == dec_str(n as nat));
                            crate::strutil::lemma_digits_val_take(run, k + 1 - pos);
                            assert(run.take(k + 1 - pos).drop_last() =~= run.take(k - pos));
                            assert(run.take(k + 1 - pos).last() == run[k - pos]);
                            assert(digits_val(run.take(k + 1 - pos)) == digits_val(
                                run.take(k - pos),
                            ) * 10 + digit_val(run[k - pos]));
                            assert(digits_val(run) == n);
                            assert(acc * 10 + d <= n);
                            assert(false);
                        }
                    }
                }
                return None;
            },
        }
        k = k + 1;
    }
    proof {
        assert(run.take(j - pos) =~= run);
        assert(acc as nat == digits_val(run));
        assert forall|m: int| 0 <= m < run.len() implies is_dec_digit(#[trigger] run[m]) by {
            assert(run[m] == v@[pos + m]);
        }
        crate::strutil::lemma_digits_to_dec_str(run);
        assert(v@.subrange(pos as int, j as int) == dec_str(acc as nat));
        assert forall|n: u64|
            num_at(v@, pos as int, n) implies acc == n && j == pos + dec_str(n as nat).len() by {
            lemma_run_matches(v@, pos as int, j as int, n);
            lemma_dec_str_digits(n as nat);
            assert(run == dec_str(n as nat));
            assert(digits_val(run) == n);
        }
    }
    Some((acc, j))
}

/// Read a JSON object of string members at `pos` into a map: `Some((m, p))`
/// means the text from `pos` to `p` is exactly `obj_str(m@)`; and whenever
/// `obj_str(es)` occurs at `pos` for an entry sequence with unique keys, the
/// call succeeds and returns exactly those entries.
#[verifier::rlimit(100)]
#[verifier::spinoff_prover]
fn parse_map(v: &Vec<char>, pos: usize) -> (r: Option<(StringMap, usize)>)
    requires
        pos <= v@.len(),
    ensures
        r matches Some(mp) ==> pos < mp.1 <= v@.len() && v@.subrange(pos as int, mp.1 as int)
            == obj_str(mp.0@),
        forall|es: Seq<(Seq<char>, Seq<char>)>|
            #![trigger obj_str(es)]
            keys_unique(es) && lit_at(v@, pos as int, obj_str(es)) ==> (r matches Some(mp) && mp.0@
                == es && mp.1 == pos + obj_str(es).len()),
{
    if pos >= v.len() || v[pos] != '{' {
        proof {
            assert forall|es: Seq<(Seq<char>, Seq<char>)>|
                !lit_at(v@, pos as int, obj_str(es)) by {
                if lit_at(v@, pos as int, obj_str(es)) {
                    assert(v@.subrange(pos as int, pos + obj_str(es).len())[0] == obj_str(es)[0]);
                    assert(v@[pos as int] == '{');
                }
            }
        }
        return None;
    }
    let m = StringMap::new();
    if pos + 1 >= v.len() {
        proof {
            assert forall|es: Seq<(Seq<char>, Seq<char>)>|
                !lit_at(v@, pos as int, obj_str(es)) by {
                if lit_at(v@, pos as int, obj_str(es)) {
                    assert(obj_str(es).len() >= 2);
                }
            }
        }
        return None;
    }
    if v[pos + 1] == '}' {
        proof {
            assert(entry_strs(m@) =~= Seq::<Seq<char>>::empty());
            assert(v@.subrange(pos as int, pos + 2 as int) =~= obj_str(m@));
            assert forall|es: Seq<(Seq<char>, Seq<char>)>|
                keys_unique(es) && lit_at(v@, pos as int, obj_str(es)) implies m@ == es && pos + 2
                == pos + obj_str(es).len() by {
                if es.len() > 0 {
                    lemma_objstr_shape(es, 0);
                    assert(v@.subrange(pos as int, pos + obj_str(es).len())[1] == obj_str(es)[1]);
                    assert(false);
                }
                assert(m@ =~= es);
                assert(entry_strs(es) =~= Seq::<Seq<char>>::empty());
            }
        }
        return Some((m, pos + 2));
    }
    let mut m = m;
    let mut i: usize = pos + 1;
    proof {
        assert forall|es: Seq<(Seq<char>, Seq<char>)>|
            #![trigger obj_str(es)]
            keys_unique(es) && lit_at(v@, pos as int, obj_str(es)) implies m@.len() < es.len()
            && m@ == es.take(m@.len() as int) && lit_at(
            v@,
            i as int,
            join_comma(entry_strs(es).skip(m@.len() as int)) + seq!['}'],
        ) by {
            if es.len() == 0 {
                assert(entry_strs(es) =~= Seq::<Seq<char>>::empty());
                assert(obj_str(es) =~= seq!['{', '}']);
                assert(v@.subrange(pos as int, pos + obj_str(es).len())[1] == obj_str(es)[1]);
                assert(v@[pos + 1] == '}');
                assert(false);
            }
            assert(m@ =~= es.take(0));
            assert(obj_str(es) =~= seq!['{'] + (join_comma(entry_strs(es)) + seq!['}']));
            lemma_lit_split(v@, pos as int, seq!['{'], join_comma(entry_strs(es)) + seq!['}']);
            assert(entry_strs(es).skip(0) =~= entry_strs(es));
        }
    }
    loop
        invariant
            pos < i <= v@.len(),
            pos < v@.len(),
            v@[pos as int] == '{',
            (m@.len() == 0 && i == pos + 1) || (m@.len() > 0 && v@.subrange(pos + 1 as int, i as int)
                == join_comma(entry_strs(m@)) + seq![',']),
            forall|es: Seq<(Seq<char>, Seq<char>)>|
                #![trigger obj_str(es)]
                keys_unique(es) && lit_at(v@, pos as int, obj_str(es)) ==> m@.len() < es.len()
                    && m@ == es.take(m@.len() as int) && lit_at(
                    v@,
                    i as int,
                    join_comma(entry_strs(es).skip(m@.len() as int)) + seq!['}'],
                ),
        decreases v@.len() - i,
    {
        let ghost j = m@.len() as int;
        proof {
            assert forall|es: Seq<(Seq<char>, Seq<char>)>|
                keys_unique(es) && lit_at(v@, pos as int, obj_str(es)) implies lit_at(
                v@,
                i as int,
                entry_str(es[j]),
            ) by {
                lemma_tail_shape(v@, i as int, es, j);
            }
        }
        let ((key, val), vp) = match parse_entry(v, i) {
            Some(x) => x,
            None => {
                proof {
                    assert forall|es: Seq<(Seq<char>, Seq<char>)>|
                        !(keys_unique(es) && lit_at(v@, pos as int, obj_str(es))) by {}
                }
                return None;
            },
        };
        proof {
            assert forall|es: Seq<(Seq<char>, Seq<char>)>|
                keys_unique(es) && lit_at(v@, pos as int, obj_str(es)) implies key@ == es[j].0
                && val@ == es[j].1 && vp == i + entry_str(es[j]).len() && lit_at(
                v@,
                vp as int,
                tail_after(es, j),
            ) by {
                lemma_tail_shape(v@, i as int, es, j);
            }
        }
        if m.contains_key(key.as_str()) {
            proof {
                assert forall|es: Seq<(Seq<char>, Seq<char>)>|
                    !(keys_unique(es) && lit_at(v@, pos as int, obj_str(es))) by {
                    if keys_unique(es) && lit_at(v@, pos as int, obj_str(es)) {
                        let w = choose|w: int| 0 <= w < m@.len() && m@[w].0 == key@;
                        assert(es[w] == m@[w]);
                        assert(es[w].0 == es[j].0);
                        assert(false);
                    }
                }
            }
            return None;
        }
        let ghost m_prev = m@;
        m.insert(key.as_str(), val.as_str());
        proof {
            assert(m@ == m_prev.push((key@, val@)));
            assert(entry_strs(m@) =~= entry_strs(m_prev).push(entry_str((key@, val@))));
            crate::codec::lemma_join_snoc(entry_strs(m_prev), entry_str((key@, val@)));
            assert(v@.subrange(i as int, vp as int) == entry_str((key@, val@)));
            if m_prev.len() == 0 {
                assert(v@.subrange(pos + 1 as int, vp as int) =~= join_comma(entry_strs(m@)));
            } else {
                assert(v@.subrange(pos + 1 as int, vp as int) =~= join_comma(entry_strs(m@)));
            }
        }
        if vp < v.len() && v[vp] == ',' {
            proof {
                assert(v@.subrange(pos + 1 as int, vp + 1 as int) =~= join_comma(entry_strs(m@))
                    + seq![',']);
                assert forall|es: Seq<(Seq<char>, Seq<char>)>|
                    #![trigger obj_str(es)]
                    keys_unique(es) && lit_at(v@, pos as int, obj_str(es)) implies m@.len()
                    < es.len() && m@ == es.take(m@.len() as int) && lit_at(
                    v@,
                    vp + 1 as int,
                    join_comma(entry_strs(es).skip(m@.len() as int)) + seq!['}'],
                ) by {
                    assert(m_prev == es.take(j));
                    assert(m@ =~= es.take(j + 1));
                    if j + 1 == es.len() {
                        assert(tail_after(es, j) =~= seq!['}']);
                        assert(v@.subrange(vp as int, vp + 1)[0] == '}');
                        assert(false);
                    }
                    assert(tail_after(es, j) =~= seq![','] + (join_comma(
                        entry_strs(es).skip(j + 1),
                    ) + seq!['}']));
                    lemma_lit_split(
                        v@,
                        vp as int,
                        seq![','],
                        join_comma(entry_strs(es).skip(j + 1)) + seq!['}'],
                    );
                }
            }
            i = vp + 1;
        } else if vp < v.len() && v[vp] == '}' {
            proof {
                assert(v@.subrange(pos as int, vp + 1 as int) =~= obj_str(m@));
                assert forall|es: Seq<(Seq<char>, Seq<char>)>|
                    keys_unique(es) && lit_at(v@, pos as int, obj_str(es)) implies m@ == es && vp + 1
                    == pos + obj_str(es).len() by {
                    assert(m_prev == es.take(j));
                    if j + 1 < es.len() {
                        assert(tail_after(es, j) =~= seq![','] + (join_comma(
                            entry_strs(es).skip(j + 1),
                        ) + seq!['}']));
                        assert(v@.subrange(vp as int, vp + tail_after(es, j).len())[0]
                            == tail_after(es, j)[0]);
                        assert(false);
                    }
                    assert(m@ =~= es);
                }
            }
            return Some((m, vp + 1));
        } else {
            proof {
                assert forall|es: Seq<(Seq<char>, Seq<char>)>|
                    !(keys_unique(es) && lit_at(v@, pos as int, obj_str(es))) by {
                    if keys_unique(es) && lit_at(v@, pos as int, obj_str(es)) {
                        if j + 1 == es.len() {
                            assert(tail_after(es, j) =~= seq!['}']);
                            assert(v@.subrange(vp as int, vp + 1)[0] == '}');
                        } else {
                            assert(tail_after(es, j) =~= seq![','] + (join_comma(
                                entry_strs(es).skip(j + 1),
                            ) + seq!['}']));
                            assert(v@.subrange(vp as int, vp + tail_after(es, j).len())[0]
                                == tail_after(es, j)[0]);
                        }
                        assert(false);
                    }
                }
            }
            return None;
        }
    }
}

/// What follows the member at index `j` in an object's text: a comma and the
/// remaining members, or nothing, and then the closing brace.
pub open spec fn tail_after(es: Seq<(Seq<char>, Seq<char>)>, j: int) -> Seq<char> {
    if j + 1 < es.len() {
        seq![','] + (join_comma(entry_strs(es).skip(j + 1)) + seq!['}'])
    } else {
        seq!['}']
    }
}

/// Inside an object's text, the members from `j` on read as the member at
/// `j` followed by `tail_after`.
proof fn lemma_tail_shape(v: Seq<char>, i: int, es: Seq<(Seq<char>, Seq<char>)>, j: int)
    requires
        0 <= j < es.len(),
        lit_at(v, i, join_comma(entry_strs(es).skip(j)) + seq!['}']),
    ensures
        lit_at(v, i, entry_str(es[j])),
        lit_at(v, i + entry_str(es[j]).len(), tail_after(es, j)),
{
    let parts = entry_strs(es).skip(j);
    assert(parts.len() == es.len() - j);
    assert(parts[0] == entry_str(es[j]));
    if j + 1 < es.len() {
        assert(parts.drop_first() =~= entry_strs(es).skip(j + 1));
        assert(join_comma(parts) == parts[0] + seq![','] + join_comma(entry_strs(es).skip(j + 1)));
        assert(join_comma(parts) + seq!['}'] =~= entry_str(es[j]) + tail_after(es, j));
    } else {
        assert(join_comma(parts) == parts[0]);
        assert(join_comma(parts) + seq!['}'] =~= entry_str(es[j]) + tail_after(es, j));
    }
    lemma_lit_split(v, i, entry_str(es[j]), tail_after(es, j));
}

/// Read one `"key":"value"` member at `pos`: `Some` consumes exactly the
/// member's text, and whenever a member's text stands at `pos` the call
/// succeeds with its key and value.
#[verifier::rlimit(100)]
#[verifier::spinoff_prover]
fn parse_entry(v: &Vec<char>, pos: usize) -> (r: Option<((String, String), usize)>)
    requires
        pos <= v@.len(),
    ensures
        r matches Some(ep) ==> pos < ep.1 <= v@.len() && v@.subrange(pos as int, ep.1 as int)
            == entry_str((ep.0.0@, ep.0.1@)),
        forall|e: (Seq<char>, Seq<char>)|
            #![trigger entry_str(e)]
            lit_at(v@, pos as int, entry_str(e)) ==> (r matches Some(ep) && ep.0.0@ == e.0
                && ep.0.1@ == e.1 && ep.1 == pos + entry_str(e).len()),
{
    proof {
        assert forall|e: (Seq<char>, Seq<char>)|
            #![trigger entry_str(e)]
            lit_at(v@, pos as int, entry_str(e)) implies lit_at(v@, pos as int, quoted(e.0)) by {
            assert(entry_str(e) =~= quoted(e.0) + (seq![':'] + quoted(e.1)));
            lemma_lit_split(v@, pos as int, quoted(e.0), seq![':'] + quoted(e.1));
        }
    }
    let (key, kp) = match parse_qstring(v, pos) {
        Some(x) => x,
        None => {
            proof {
                assert forall|e: (Seq<char>, Seq<char>)|
                    #![trigger entry_str(e)]
                    !lit_at(v@, pos as int, entry_str(e)) by {}
            }
            return None;
        },
    };
    proof {
        assert forall|e: (Seq<char>, Seq<char>)|
            #![trigger entry_str(e)]
            lit_at(v@, pos as int, entry_str(e)) implies key@ == e.0 && kp < v@.len() && v@[kp as int]
            == ':' && lit_at(v@, kp + 1, quoted(e.1)) by {
            assert(entry_str(e) =~= quoted(e.0) + (seq![':'] + quoted(e.1)));
            lemma_lit_split(v@, pos as int, quoted(e.0), seq![':'] + quoted(e.1));
            lemma_lit_split(v@, pos + quoted(e.0).len(), seq![':'], quoted(e.1));
            assert(v@.subrange(kp as int, kp + 1)[0] == ':');
        }
    }
    if kp >= v.len() || v[kp] != ':' {
        proof {
            assert forall|e: (Seq<char>, Seq<char>)|
                #![trigger entry_str(e)]
                !lit_at(v@, pos as int, entry_str(e)) by {}
        }
        return None;
    }
    let (val, vp) = match parse_qstring(v, kp + 1) {
        Some(x) => x,
        None => {
            proof {
                assert forall|e: (Seq<char>, Seq<char>)|
                    #![trigger entry_str(e)]
                    !lit_at(v@, pos as int, entry_str(e)) by {}
            }
            return None;
        },
    };
    proof {
        assert(v@.subrange(pos as int, vp as int) =~= entry_str((key@, val@)));
        assert forall|e: (Seq<char>, Seq<char>)|
            #![trigger entry_str(e)]
            lit_at(v@, pos as int, entry_str(e)) implies val@ == e.1 && vp == pos + entry_str(
            e,
        ).len() by {
            assert(entry_str(e) =~= quoted(e.0) + (seq![':'] + quoted(e.1)));
            lemma_lit_split(v@, pos as int, quoted(e.0), seq![':'] + quoted(e.1));
            lemma_lit_split(v@, pos + quoted(e.0).len(), seq![':'], quoted(e.1));
        }
    }
    Some(((key, val), vp))
}

/// An object's text starts with a brace and, when it has members, continues
/// with a quote.
proof fn lemma_objstr_shape(es: Seq<(Seq<char>, Seq<char>)>, j: int)
    requires
        es.len() > 0,
    ensures
        obj_str(es).len() >= 2,
        obj_str(es)[0] == '{',
        obj_str(es)[1] == '"',
{
    let parts = entry_strs(es);
    assert(parts[0] == entry_str(es[0]));
    assert(entry_str(es[0])[0] == '"');
    if parts.len() == 1 {
        assert(join_comma(parts) == parts[0]);
    } else {
        assert(join_comma(parts) == parts[0] + seq![','] + join_comma(parts.drop_first()));
    }
    assert(join_comma(parts)[0] == '"');
    assert(obj_str(es)[1] == join_comma(parts)[0]);
}

/// What follows the item at index `j` in an array's text: a comma and the
/// remaining items, or nothing, and then the closing bracket.
pub open spec fn items_tail_after(items: Seq<Seq<char>>, j: int) -> Seq<char> {
    if j + 1 < items.len() {
        seq![','] + (join_comma(items.skip(j + 1)) + seq![']'])
    } else {
        seq![']']
    }
}

/// Inside an array's text, the items from `j` on read as the item at `j`
/// followed by `items_tail_after`.
proof fn lemma_items_tail_shape(v: Seq<char>, i: int, items: Seq<Seq<char>>, j: int)
    requires
        0 <= j < items.len(),
        lit_at(v, i, join_comma(items.skip(j)) + seq![']']),
    ensures
        lit_at(v, i, items[j]),
        lit_at(v, i + items[j].len(), items_tail_after(items, j)),
{
    let parts = items.skip(j);
    assert(parts[0] == items[j]);
    if j + 1 < items.len() {
        assert(parts.drop_first() =~= items.skip(j + 1));
        assert(join_comma(parts) == parts[0] + seq![','] + join_comma(items.skip(j + 1)));
        assert(join_comma(parts) + seq![']'] =~= items[j] + items_tail_after(items, j));
    } else {
        assert(join_comma(parts) == parts[0]);
        assert(join_comma(parts) + seq![']'] =~= items[j] + items_tail_after(items, j));
    }
    lemma_lit_split(v, i, items[j], items_tail_after(items, j));
}

/// Read a JSON array of strings at `pos`: `Some((a, p))` means the text from
/// `pos` to `p` is exactly `arr_str` of the returned strings; and whenever
/// `arr_str(ss)` occurs at `pos`, the call succeeds and returns those
/// strings.
#[verifier::rlimit(100)]
#[verifier::spinoff_prover]
fn parse_accept(v: &Vec<char>, pos: usize) -> (r: Option<(Vec<String>, usize)>)
    requires
        pos <= v@.len(),
    ensures
        r matches Some(ap) ==> pos < ap.1 <= v@.len() && v@.subrange(pos as int, ap.1 as int)
            == arr_str(strings_view(ap.0@)),
        forall|ss: Seq<Seq<char>>|
            #![trigger arr_str(ss)]
            lit_at(v@, pos as int, arr_str(ss)) ==> (r matches Some(ap) && strings_view(ap.0@) == ss
                && ap.1 == pos + arr_str(ss).len()),
{
    if pos >= v.len() || v[pos] != '[' {
        proof {
            assert forall|ss: Seq<Seq<char>>| !lit_at(v@, pos as int, arr_str(ss)) by {
                if lit_at(v@, pos as int, arr_str(ss)) {
                    assert(v@.subrange(pos as int, pos + arr_str(ss).len())[0] == arr_str(ss)[0]);
                }
            }
        }
        return None;
    }
    let a: Vec<String> = Vec::new();
    if pos + 1 >= v.len() {
        proof {
            assert forall|ss: Seq<Seq<char>>| !lit_at(v@, pos as int, arr_str(ss)) by {
                if lit_at(v@, pos as int, arr_str(ss)) {
                    assert(arr_str(ss).len() >= 2);
                }
            }
        }
        return None;
    }
    if v[pos + 1] == ']' {
        proof {
            assert(strings_view(a@) =~= Seq::<Seq<char>>::empty());
            assert(quoted_items(strings_view(a@)) =~= Seq::<Seq<char>>::empty());
            assert(v@.subrange(pos as int, pos + 2 as int) =~= arr_str(strings_view(a@)));
            assert forall|ss: Seq<Seq<char>>|
                lit_at(v@, pos as int, arr_str(ss)) implies strings_view(a@) == ss && pos + 2 == pos
                + arr_str(ss).len() by {
                let items = quoted_items(ss);
                if ss.len() > 0 {
                    assert(items[0] == quoted(ss[0]));
                    if items.len() == 1 {
                        assert(join_comma(items) == items[0]);
                    } else {
                        assert(join_comma(items) == items[0] + seq![','] + join_comma(
                            items.drop_first(),
                        ));
                    }
                    assert(arr_str(ss)[1] == join_comma(items)[0]);
                    assert(join_comma(items)[0] == '"');
                    assert(v@.subrange(pos as int, pos + arr_str(ss).len())[1] == arr_str(ss)[1]);
                    assert(false);
                }
                assert(items =~= Seq::<Seq<char>>::empty());
                assert(strings_view(a@) =~= ss);
            }
        }
        return Some((a, pos + 2));
    }
    let mut a = a;
    let mut i: usize = pos + 1;
    proof {
        assert forall|ss: Seq<Seq<char>>|
            #![trigger arr_str(ss)]
            lit_at(v@, pos as int, arr_str(ss)) implies a@.len() < ss.len() && strings_view(a@)
            == ss.take(a@.len() as int) && lit_at(
            v@,
            i as int,
            join_comma(quoted_items(ss).skip(a@.len() as int)) + seq![']'],
        ) by {
            let items = quoted_items(ss);
            if ss.len() == 0 {
                assert(items =~= Seq::<Seq<char>>::empty());
                assert(arr_str(ss) =~= seq!['[', ']']);
                assert(v@.subrange(pos as int, pos + arr_str(ss).len())[1] == arr_str(ss)[1]);
                assert(false);
            }
            assert(strings_view(a@) =~= ss.take(0));
            assert(arr_str(ss) =~= seq!['['] + (join_comma(items) + seq![']']));
            lemma_lit_split(v@, pos as int, seq!['['], join_comma(items) + seq![']']);
            assert(items.skip(0) =~= items);
        }
    }
    loop
        invariant
            pos < i <= v@.len(),
            pos < v@.len(),
            v@[pos as int] == '[',
            (a@.len() == 0 && i == pos + 1) || (a@.len() > 0 && v@.subrange(pos + 1 as int, i as int)
                == join_comma(quoted_items(strings_view(a@))) + seq![',']),
            forall|ss: Seq<Seq<char>>|
                #![trigger arr_str(ss)]
                lit_at(v@, pos as int, arr_str(ss)) ==> a@.len() < ss.len() && strings_view(a@)
                    == ss.take(a@.len() as int) && lit_at(
                    v@,
                    i as int,
                    join_comma(quoted_items(ss).skip(a@.len() as int)) + seq![']'],
                ),
        decreases v@.len() - i,
    {
        let ghost j = a@.len() as int;
        proof {
            assert forall|ss: Seq<Seq<char>>|
                lit_at(v@, pos as int, arr_str(ss)) implies lit_at(
                v@,
                i as int,
                quoted(ss[j]),
            ) by {
                let items = quoted_items(ss);
                lemma_items_tail_shape(v@, i as int, items, j);
            }
        }
        let sr = parse_qstring(v, i);
        let (s, sp) = match sr {
            Some(x) => x,
            None => {
                proof {
                    assert forall|ss: Seq<Seq<char>>| !lit_at(v@, pos as int, arr_str(ss)) by {}
                }
                return None;
            },
        };
        proof {
            assert forall|ss: Seq<Seq<char>>|
                lit_at(v@, pos as int, arr_str(ss)) implies s@ == ss[j] && sp == i + quoted(
                ss[j],
            ).len() && lit_at(
                v@,
                sp as int,
                items_tail_after(quoted_items(ss), j),
            ) by {
                let items = quoted_items(ss);
                lemma_items_tail_shape(v@, i as int, items, j);
            }
        }
        let ghost a_prev = a@;
        a.push(s);
        proof {
            assert(strings_view(a@) =~= strings_view(a_prev).push(s@));
            let prev_items = quoted_items(strings_view(a_prev));
            let cur_items = quoted_items(strings_view(a@));
            assert(cur_items =~= prev_items.push(quoted(s@)));
            crate::codec::lemma_join_snoc(prev_items, quoted(s@));
            assert(v@.subrange(i as int, sp as int) == quoted(s@));
            if a_prev.len() == 0 {
                assert(v@.subrange(pos + 1 as int, sp as int) =~= join_comma(cur_items));
            } else {
                assert(v@.subrange(pos + 1 as int, sp as int) =~= join_comma(cur_items));
            }
        }
        if sp < v.len() && v[sp] == ',' {
            proof {
                let cur_items = quoted_items(strings_view(a@));
                assert(v@.subrange(pos + 1 as int, sp + 1 as int) =~= join_comma(cur_items)
                    + seq![',']);
                assert forall|ss: Seq<Seq<char>>|
                    #![trigger arr_str(ss)]
                    lit_at(v@, pos as int, arr_str(ss)) implies a@.len() < ss.len()
                    && strings_view(a@) == ss.take(a@.len() as int) && lit_at(
                    v@,
                    sp + 1 as int,
                    join_comma(quoted_items(ss).skip(a@.len() as int)) + seq![']'],
                ) by {
                    let items = quoted_items(ss);
                    assert(strings_view(a_prev) == ss.take(j));
                    assert(strings_view(a@) =~= ss.take(j + 1));
                    if j + 1 == ss.len() {
                        assert(items_tail_after(items, j) =~= seq![']']);
                        assert(v@.subrange(sp as int, sp + 1)[0] == ']');
                        assert(false);
                    }
                    assert(items_tail_after(items, j) =~= seq![','] + (join_comma(
                        items.skip(j + 1),
                    ) + seq![']']));
                    lemma_lit_split(
                        v@,
                        sp as int,
                        seq![','],
                        join_comma(items.skip(j + 1)) + seq![']'],
                    );
                }
            }
            i = sp + 1;
        } else if sp < v.len() && v[sp] == ']' {
            proof {
                let cur_items = quoted_items(strings_view(a@));
                assert(v@.subrange(pos as int, sp + 1 as int) =~= arr_str(strings_view(a@)));
                assert forall|ss: Seq<Seq<char>>|
                    lit_at(v@, pos as int, arr_str(ss)) implies strings_view(a@) == ss && sp + 1
                    == pos + arr_str(ss).len() by {
                    let items = quoted_items(ss);
                    assert(strings_view(a_prev) == ss.take(j));
                    if j + 1 < ss.len() {
                        assert(items_tail_after(items, j) =~= seq![','] + (join_comma(
                            items.skip(j + 1),
                        ) + seq![']']));
                        assert(v@.subrange(sp as int, sp + items_tail_after(items, j).len())[0]
                            == items_tail_after(items, j)[0]);
                        assert(false);
                    }
                    assert(strings_view(a@) =~= ss);
                }
            }
            return Some((a, sp + 1));
        } else {
            proof {
                assert forall|ss: Seq<Seq<char>>| !lit_at(v@, pos as int, arr_str(ss)) by {
                    if lit_at(v@, pos as int, arr_str(ss)) {
                        let items = quoted_items(ss);
                        if j + 1 == ss.len() {
                            assert(items_tail_after(items, j) =~= seq![']']);
                            assert(v@.subrange(sp as int, sp + 1)[0] == ']');
                        } else {
                            assert(items_tail_after(items, j) =~= seq![','] + (join_comma(
                                items.skip(j + 1),
                            ) + seq![']']));
                            assert(v@.subrange(sp as int, sp + items_tail_after(items, j).len())[0]
                                == items_tail_after(items, j)[0]);
                        }
                        assert(false);
                    }
                }
            }
            return None;
        }
    }
}

/// Read a JSON array of string objects at `pos` into maps: `Some((rv, p))`
/// means the text from `pos` to `p` is exactly `refs_str` of the returned
/// maps; and whenever `refs_str(rs)` occurs at `pos` for maps with unique
/// keys, the call succeeds and returns exactly those maps.
#[verifier::rlimit(100)]
#[verifier::spinoff_prover]
fn parse_refs(v: &Vec<char>, pos: usize) -> (r: Option<(Vec<StringMap>, usize)>)
    requires
        pos <= v@.len(),
    ensures
        r matches Some(rp) ==> pos < rp.1 <= v@.len() && v@.subrange(pos as int, rp.1 as int)
            == refs_str(maps_view(rp.0@)) && (forall|q: int|
            0 <= q < rp.0@.len() ==> keys_unique(#[trigger] maps_view(rp.0@)[q])),
        forall|rs: Seq<Seq<(Seq<char>, Seq<char>)>>|
            #![trigger refs_str(rs)]
            (forall|q: int| 0 <= q < rs.len() ==> keys_unique(#[trigger] rs[q])) && lit_at(
                v@,
                pos as int,
                refs_str(rs),
            ) ==> (r matches Some(rp) && maps_view(rp.0@) == rs && rp.1 == pos + refs_str(
                rs,
            ).len()),
{
    if pos >= v.len() || v[pos] != '[' {
        proof {
            assert forall|rs: Seq<Seq<(Seq<char>, Seq<char>)>>|
                !lit_at(v@, pos as int, refs_str(rs)) by {
                if lit_at(v@, pos as int, refs_str(rs)) {
                    assert(v@.subrange(pos as int, pos + refs_str(rs).len())[0] == refs_str(rs)[0]);
                }
            }
        }
        return None;
    }
    let a: Vec<StringMap> = Vec::new();
    if pos + 1 >= v.len() {
        proof {
            assert forall|rs: Seq<Seq<(Seq<char>, Seq<char>)>>|
                !lit_at(v@, pos as int, refs_str(rs)) by {
                if lit_at(v@, pos as int, refs_str(rs)) {
                    assert(refs_str(rs).len() >= 2);
                }
            }
        }
        return None;
    }
    if v[pos + 1] == ']' {
        proof {
            assert(maps_view(a@) =~= Seq::<Seq<(Seq<char>, Seq<char>)>>::empty());
            assert(obj_items(maps_view(a@)) =~= Seq::<Seq<char>>::empty());
            assert(v@.subrange(pos as int, pos + 2 as int) =~= refs_str(maps_view(a@)));
            assert forall|rs: Seq<Seq<(Seq<char>, Seq<char>)>>|
                lit_at(v@, pos as int, refs_str(rs)) implies maps_view(a@) == rs && pos + 2 == pos
                + refs_str(rs).len() by {
                let items = obj_items(rs);
                if rs.len() > 0 {
                    assert(items[0] == obj_str(rs[0]));
                    assert(obj_str(rs[0])[0] == '{');
                    if items.len() == 1 {
                        assert(join_comma(items) == items[0]);
                    } else {
                        assert(join_comma(items) == items[0] + seq![','] + join_comma(
                            items.drop_first(),
                        ));
                    }
                    assert(refs_str(rs)[1] == join_comma(items)[0]);
                    assert(join_comma(items)[0] == '{');
                    assert(v@.subrange(pos as int, pos + refs_str(rs).len())[1] == refs_str(rs)[1]);
                    assert(false);
                }
                assert(items =~= Seq::<Seq<char>>::empty());
                assert(maps_view(a@) =~= rs);
            }
        }
        return Some((a, pos + 2));
    }
    let mut a = a;
    let mut i: usize = pos + 1;
    proof {
        assert forall|rs: Seq<Seq<(Seq<char>, Seq<char>)>>|
            #![trigger refs_str(rs)]
            (forall|q: int| 0 <= q < rs.len() ==> keys_unique(#[trigger] rs[q])) && lit_at(
                v@,
                pos as int,
                refs_str(rs),
            ) implies a@.len() < rs.len() && maps_view(a@) == rs.take(a@.len() as int) && lit_at(
            v@,
            i as int,
            join_comma(obj_items(rs).skip(a@.len() as int)) + seq![']'],
        ) by {
            let items = obj_items(rs);
            if rs.len() == 0 {
                assert(items =~= Seq::<Seq<char>>::empty());
                assert(refs_str(rs) =~= seq!['[', ']']);
                assert(v@.subrange(pos as int, pos + refs_str(rs).len())[1] == refs_str(rs)[1]);
                assert(false);
            }
            assert(maps_view(a@) =~= rs.take(0));
            assert(refs_str(rs) =~= seq!['['] + (join_comma(items) + seq![']']));
            lemma_lit_split(v@, pos as int, seq!['['], join_comma(items) + seq![']']);
            assert(items.skip(0) =~= items);
        }
    }
    loop
        invariant
            pos < i <= v@.len(),
            pos < v@.len(),
            v@[pos as int] == '[',
            forall|q: int| 0 <= q < a@.len() ==> keys_unique(#[trigger] maps_view(a@)[q]),
            (a@.len() == 0 && i == pos + 1) || (a@.len() > 0 && v@.subrange(pos + 1 as int, i as int)
                == join_comma(obj_items(maps_view(a@))) + seq![',']),
            forall|rs: Seq<Seq<(Seq<char>, Seq<char>)>>|
                #![trigger refs_str(rs)]
                (forall|q: int| 0 <= q < rs.len() ==> keys_unique(#[trigger] rs[q])) && lit_at(
                    v@,
                    pos as int,
                    refs_str(rs),
                ) ==> a@.len() < rs.len() && maps_view(a@) == rs.take(a@.len() as int) && lit_at(
                    v@,
                    i as int,
                    join_comma(obj_items(rs).skip(a@.len() as int)) + seq![']'],
                ),
        decreases v@.len() - i,
    {
        let ghost j = a@.len() as int;
        proof {
            assert forall|rs: Seq<Seq<(Seq<char>, Seq<char>)>>|
                (forall|q: int| 0 <= q < rs.len() ==> keys_unique(#[trigger] rs[q])) && lit_at(
                    v@,
                    pos as int,
                    refs_str(rs),
                ) implies keys_unique(rs[j]) && lit_at(v@, i as int, obj_str(rs[j])) by {
                let items = obj_items(rs);
                lemma_items_tail_shape(v@, i as int, items, j);
            }
        }
        let mr = parse_map(v, i);
        let (m, mp) = match mr {
            Some(x) => x,
            None => {
                proof {
                    assert forall|rs: Seq<Seq<(Seq<char>, Seq<char>)>>|
                        !((forall|q: int| 0 <= q < rs.len() ==> keys_unique(#[trigger] rs[q]))
                            && lit_at(v@, pos as int, refs_str(rs))) by {}
                }
                return None;
            },
        };
        proof {
            assert forall|rs: Seq<Seq<(Seq<char>, Seq<char>)>>|
                (forall|q: int| 0 <= q < rs.len() ==> keys_unique(#[trigger] rs[q])) && lit_at(
                    v@,
                    pos as int,
                    refs_str(rs),
                ) implies m@ == rs[j] && mp == i + obj_str(rs[j]).len() && lit_at(
                v@,
                mp as int,
                items_tail_after(obj_items(rs), j),
            ) by {
                let items = obj_items(rs);
                lemma_items_tail_shape(v@, i as int, items, j);
            }
        }
        let ghost a_prev = a@;
        proof {
            use_type_invariant(&m);
        }
        a.push(m);
        proof {
            assert(maps_view(a@) =~= maps_view(a_prev).push(a@.last()@));
            let prev_items = obj_items(maps_view(a_prev));
            let cur_items = obj_items(maps_view(a@));
            assert(cur_items =~= prev_items.push(obj_str(a@.last()@)));
            crate::codec::lemma_join_snoc(prev_items, obj_str(a@.last()@));
            assert(v@.subrange(i as int, mp as int) == obj_str(a@.last()@));
            if a_prev.len() == 0 {
                assert(v@.subrange(pos + 1 as int, mp as int) =~= join_comma(cur_items));
            } else {
                assert(v@.subrange(pos + 1 as int, mp as int) =~= join_comma(cur_items));
            }
        }
        if mp < v.len() && v[mp] == ',' {
            proof {
                assert(v@.subrange(pos + 1 as int, mp + 1 as int) =~= join_comma(
                    obj_items(maps_view(a@)),
                ) + seq![',']);
                assert forall|rs: Seq<Seq<(Seq<char>, Seq<char>)>>|
                    #![trigger refs_str(rs)]
                    (forall|q: int| 0 <= q < rs.len() ==> keys_unique(#[trigger] rs[q])) && lit_at(
                        v@,
                        pos as int,
                        refs_str(rs),
                    ) implies a@.len() < rs.len() && maps_view(a@) == rs.take(a@.len() as int)
                    && lit_at(
                    v@,
                    mp + 1 as int,
                    join_comma(obj_items(rs).skip(a@.len() as int)) + seq![']'],
                ) by {
                    let items = obj_items(rs);
                    assert(maps_view(a_prev) == rs.take(j));
                    lemma_items_tail_shape(v@, i as int, items, j);
                    assert(maps_view(a@) =~= rs.take(j + 1));
                    if j + 1 == rs.len() {
                        assert(items_tail_after(items, j) =~= seq![']']);
                        assert(v@.subrange(mp as int, mp + 1)[0] == ']');
                        assert(false);
                    }
                    assert(items_tail_after(items, j) =~= seq![','] + (join_comma(
                        items.skip(j + 1),
                    ) + seq![']']));
                    lemma_lit_split(
                        v@,
                        mp as int,
                        seq![','],
                        join_comma(items.skip(j + 1)) + seq![']'],
                    );
                }
            }
            i = mp + 1;
        } else if mp < v.len() && v[mp] == ']' {
            proof {
                assert(v@.subrange(pos as int, mp + 1 as int) =~= refs_str(maps_view(a@)));
                assert forall|rs: Seq<Seq<(Seq<char>, Seq<char>)>>|
                    #![trigger refs_str(rs)]
                    (forall|q: int| 0 <= q < rs.len() ==> keys_unique(#[trigger] rs[q])) && lit_at(
                        v@,
                        pos as int,
                        refs_str(rs),
                    ) implies maps_view(a@) == rs && mp + 1 == pos + refs_str(rs).len() by {
                    let items = obj_items(rs);
                    assert(maps_view(a_prev) == rs.take(j));
                    lemma_items_tail_shape(v@, i as int, items, j);
                    if j + 1 < rs.len() {
                        assert(items_tail_after(items, j) =~= seq![','] + (join_comma(
                            items.skip(j + 1),
                        ) + seq![']']));
                        assert(v@.subrange(mp as int, mp + items_tail_after(items, j).len())[0]
                            == items_tail_after(items, j)[0]);
                        assert(false);
                    }
                    assert(maps_view(a@) =~= rs);
                }
            }
            return Some((a, mp + 1));
        } else {
            proof {
                assert forall|rs: Seq<Seq<(Seq<char>, Seq<char>)>>|
                    !((forall|q: int| 0 <= q < rs.len() ==> keys_unique(#[trigger] rs[q]))
                        && lit_at(v@, pos as int, refs_str(rs))) by {
                    if (forall|q: int| 0 <= q < rs.len() ==> keys_unique(#[trigger] rs[q]))
                        && lit_at(v@, pos as int, refs_str(rs)) {
                        let items = obj_items(rs);
                        if j + 1 == rs.len() {
                            assert(items_tail_after(items, j) =~= seq![']']);
                            assert(v@.subrange(mp as int, mp + 1)[0] == ']');
                        } else {
                            assert(items_tail_after(items, j) =~= seq![','] + (join_comma(
                                items.skip(j + 1),
                            ) + seq![']']));
                            assert(v@.subrange(mp as int, mp + items_tail_after(items, j).len())[0]
                                == items_tail_after(items, j)[0]);
                        }
                        assert(false);
                    }
                }
            }
            return None;
        }
    }
}

/// Every operation wire name maps back to its operation.
proof fn lemma_op_name_roundtrip(op: OperationType)
    ensures
        spec_op_from_name(op_wire_name(op)) == Some(op),
{
    reveal_strlit("control");
    reveal_strlit("data");
    reveal_strlit("ack");
    reveal_strlit("error");
    reveal_strlit("request");
    reveal_strlit("response");
    assert("control"@.len() == 7);
    assert("data"@.len() == 4);
    assert("ack"@.len() == 3);
    assert("error"@.len() == 5);
    assert("request"@.len() == 7);
    assert("response"@.len() == 8);
    assert("control"@[0] == 'c' && "request"@[0] == 'r');
}

/// Every payload type wire name maps back to its payload type.
proof fn lemma_payload_type_name_roundtrip(t: PayloadType)
    ensures
        spec_payload_type_from_name(payload_type_wire_name(t)) == Some(t),
{
    reveal_strlit("vector");
    reveal_strlit("text");
    reveal_strlit("metadata");
    reveal_strlit("binary");
    assert("vector"@.len() == 6);
    assert("text"@.len() == 4);
    assert("metadata"@.len() == 8);
    assert("binary"@.len() == 6);
    assert("vector"@[0] == 'v' && "binary"@[0] == 'b');
}

/// Every encoding wire name maps back to its encoding.
proof fn lemma_encoding_name_roundtrip(e: EncodingType)
    ensures
        spec_encoding_from_name(encoding_wire_name(e)) == Some(e),
{
    reveal_strlit("float32");
    reveal_strlit("float64");
    reveal_strlit("int32");
    reveal_strlit("int64");
    reveal_strlit("uint8");
    reveal_strlit("uint16");
    reveal_strlit("uint32");
    reveal_strlit("uint64");
    assert("float32"@.len() == 7);
    assert("float64"@.len() == 7);
    assert("int32"@.len() == 5);
    assert("int64"@.len() == 5);
    assert("uint8"@.len() == 5);
    assert("uint16"@.len() == 6);
    assert("uint32"@.len() == 6);
    assert("uint64"@.len() == 6);
    assert("float32"@[5] == '3' && "float64"@[5] == '6');
    assert("int32"@[0] == 'i' && "int64"@[0] == 'i' && "uint8"@[0] == 'u');
    assert("int32"@[3] == '3' && "int64"@[3] == '6');
    assert("uint16"@[4] == '1' && "uint32"@[4] == '3' && "uint64"@[4] == '6');
}

/// The optional members of a hint's text from the count member on.
pub open spec fn opts_tail_count(count: Option<u64>) -> Seq<char> {
    (match count {
        Some(n) => ",\"count\":"@ + dec_str(n as nat),
        None => Seq::<char>::empty(),
    }) + "}"@
}

/// The optional members of a hint's text from the encoding member on.
pub open spec fn opts_tail_enc(enc: Option<EncodingType>, count: Option<u64>) -> Seq<char> {
    (match enc {
        Some(e) => ",\"encoding\":"@ + quoted(encoding_wire_name(e)),
        None => Seq::<char>::empty(),
    }) + opts_tail_count(count)
}

/// The optional members of a hint's text, and the closing brace.
pub open spec fn hint_opts_str(
    size: Option<u64>,
    enc: Option<EncodingType>,
    count: Option<u64>,
) -> Seq<char> {
    (match size {
        Some(n) => ",\"size\":"@ + dec_str(n as nat),
        None => Seq::<char>::empty(),
    }) + opts_tail_enc(enc, count)
}

/// A hint's text, right-nested for piecewise reading.
proof fn lemma_hint_decompose(h: PayloadHint)
    ensures
        hint_str(h) == "{\"type\":"@ + (quoted(payload_type_wire_name(h.payload_type))
            + hint_opts_str(h.size, h.encoding, h.count)),
{
    assert(hint_str(h) =~= "{\"type\":"@ + (quoted(payload_type_wire_name(h.payload_type))
        + hint_opts_str(h.size, h.encoding, h.count)));
}

/// A closing brace is not a comma, so no member literal can stand where the
/// tail is a bare brace.
proof fn lemma_brace_not_lit(vv: Seq<char>, p: int, lit: Seq<char>)
    requires
        lit_at(vv, p, "}"@),
        lit.len() >= 1,
        lit[0] == ',',
    ensures
        !lit_at(vv, p, lit),
{
    reveal_strlit("}");
    assert("}"@.len() == 1);
    assert("}"@[0] == '}');
    lemma_lit_conflict(vv, p, lit, "}"@, 0);
}

/// The first character where `opts_tail_enc` stands is a comma or a brace,
/// never a digit.
proof fn lemma_opts_enc_first(vv: Seq<char>, p: int, enc: Option<EncodingType>, count: Option<u64>)
    requires
        lit_at(vv, p, opts_tail_enc(enc, count)),
    ensures
        p < vv.len(),
        !is_dec_digit(vv[p]),
        enc is None ==> !lit_at(vv, p, ",\"encoding\":"@),
        enc is None && count is None ==> !lit_at(vv, p, ",\"count\":"@),
{
    reveal_strlit(",\"encoding\":");
    reveal_strlit(",\"count\":");
    reveal_strlit("}");
    assert(",\"encoding\":"@.len() == 12);
    assert(",\"count\":"@.len() == 9);
    assert("}"@.len() == 1);
    match enc {
        Some(e) => {
            assert(opts_tail_enc(enc, count) =~= ",\"encoding\":"@ + (quoted(
                encoding_wire_name(e),
            ) + opts_tail_count(count)));
            lemma_lit_split(
                vv,
                p,
                ",\"encoding\":"@,
                quoted(encoding_wire_name(e)) + opts_tail_count(count),
            );
            assert(vv.subrange(p, p + 12)[0] == ',');
        },
        None => {
            assert(opts_tail_enc(enc, count) =~= opts_tail_count(count));
            match count {
                Some(n) => {
                    assert(opts_tail_count(count) =~= ",\"count\":"@ + (dec_str(n as nat) + "}"@));
                    lemma_lit_split(vv, p, ",\"count\":"@, dec_str(n as nat) + "}"@);
                    assert(vv.subrange(p, p + 9)[0] == ',');
                    lemma_lit_conflict(vv, p, ",\"encoding\":"@, ",\"count\":"@, 2);
                },
                None => {
                    assert(opts_tail_count(count) =~= "}"@);
                    assert(vv.subrange(p, p + 1)[0] == '}');
                    lemma_brace_not_lit(vv, p, ",\"encoding\":"@);
                    lemma_brace_not_lit(vv, p, ",\"count\":"@);
                },
            }
        },
    }
}

/// The first character where `opts_tail_count` stands is a comma or a brace,
/// never a digit.
proof fn lemma_opts_count_first(vv: Seq<char>, p: int, count: Option<u64>)
    requires
        lit_at(vv, p, opts_tail_count(count)),
    ensures
        p < vv.len(),
        !is_dec_digit(vv[p]),
        count is None ==> !lit_at(vv, p, ",\"count\":"@),
{
    reveal_strlit(",\"count\":");
    reveal_strlit("}");
    assert(",\"count\":"@.len() == 9);
    assert("}"@.len() == 1);
    match count {
        Some(n) => {
            assert(opts_tail_count(count) =~= ",\"count\":"@ + (dec_str(n as nat) + "}"@));
            lemma_lit_split(vv, p, ",\"count\":"@, dec_str(n as nat) + "}"@);
            assert(vv.subrange(p, p + 9)[0] == ',');
        },
        None => {
            assert(opts_tail_count(count) =~= "}"@);
            assert(vv.subrange(p, p + 1)[0] == '}');
            lemma_brace_not_lit(vv, p, ",\"count\":"@);
        },
    }
}

/// When a hint carries no size, the size literal does not stand at the tail.
proof fn lemma_no_size_lit(vv: Seq<char>, p: int, enc: Option<EncodingType>, count: Option<u64>)
    requires
        lit_at(vv, p, opts_tail_enc(enc, count)),
    ensures
        !lit_at(vv, p, ",\"size\":"@),
{
    reveal_strlit(",\"size\":");
    reveal_strlit(",\"encoding\":");
    reveal_strlit(",\"count\":");
    assert(",\"size\":"@.len() == 8);
    assert(",\"encoding\":"@.len() == 12);
    assert(",\"count\":"@.len() == 9);
    assert(",\"size\":"@[2] == 's' && ",\"encoding\":"@[2] == 'e' && ",\"count\":"@[2] == 'c');
    match enc {
        Some(e) => {
            assert(opts_tail_enc(enc, count) =~= ",\"encoding\":"@ + (quoted(
                encoding_wire_name(e),
            ) + opts_tail_count(count)));
            lemma_lit_split(
                vv,
                p,
                ",\"encoding\":"@,
                quoted(encoding_wire_name(e)) + opts_tail_count(count),
            );
            lemma_lit_conflict(vv, p, ",\"size\":"@, ",\"encoding\":"@, 2);
        },
        None => {
            assert(opts_tail_enc(enc, count) =~= opts_tail_count(count));
            match count {
                Some(n) => {
                    assert(opts_tail_count(count) =~= ",\"count\":"@ + (dec_str(n as nat) + "}"@));
                    lemma_lit_split(vv, p, ",\"count\":"@, dec_str(n as nat) + "}"@);
                    lemma_lit_conflict(vv, p, ",\"size\":"@, ",\"count\":"@, 2);
                },
                None => {
                    assert(opts_tail_count(count) =~= "}"@);
                    lemma_brace_not_lit(vv, p, ",\"size\":"@);
                },
            }
        },
    }
}

/// Read the count member (if present) and the closing brace of a hint.
#[verifier::rlimit(60)]
#[verifier::spinoff_prover]
fn parse_opt_count(v: &Vec<char>, pos: usize) -> (r: Option<(Option<u64>, usize)>)
    requires
        pos <= v@.len(),
    ensures
        r matches Some(cp) ==> pos < cp.1 <= v@.len() && v@.subrange(pos as int, cp.1 as int)
            == opts_tail_count(cp.0),
        forall|c2: Option<u64>|
            #![trigger opts_tail_count(c2)]
            lit_at(v@, pos as int, opts_tail_count(c2)) ==> (r matches Some(cp) && cp.0 == c2
                && cp.1 == pos + opts_tail_count(c2).len()),
{
    let (count, p4) = match expect_lit(v, pos, ",\"count\":") {
        Some(pc) => {
            proof {
                assert forall|c2: Option<u64>|
                    lit_at(v@, pos as int, opts_tail_count(c2)) implies c2 is Some && num_at(
                    v@,
                    pc as int,
                    c2->0,
                ) && lit_at(v@, pc + dec_str(c2->0 as nat).len(), "}"@) by {
                    if c2 is None {
                        lemma_opts_count_first(v@, pos as int, c2);
                        assert(false);
                    }
                    let n = c2->0;
                    assert(opts_tail_count(c2) =~= ",\"count\":"@ + (dec_str(n as nat) + "}"@));
                    lemma_lit_split(v@, pos as int, ",\"count\":"@, dec_str(n as nat) + "}"@);
                    lemma_lit_split(v@, pc as int, dec_str(n as nat), "}"@);
                    assert(!is_dec_digit(v@[pc + dec_str(n as nat).len()])) by {
                        reveal_strlit("}");
                        assert("}"@.len() == 1);
                        assert(v@.subrange(
                            pc + dec_str(n as nat).len(),
                            pc + dec_str(n as nat).len() + 1,
                        )[0] == '}');
                    }
                }
            }
            match parse_u64(v, pc) {
                Some((n, pn)) => (Some(n), pn),
                None => {
                    return None;
                },
            }
        },
        None => {
            proof {
                assert forall|c2: Option<u64>|
                    lit_at(v@, pos as int, opts_tail_count(c2)) implies c2 is None && lit_at(
                    v@,
                    pos as int,
                    "}"@,
                ) by {
                    if c2 is Some {
                        let n = c2->0;
                        assert(opts_tail_count(c2) =~= ",\"count\":"@ + (dec_str(n as nat) + "}"@));
                        lemma_lit_split(v@, pos as int, ",\"count\":"@, dec_str(n as nat) + "}"@);
                        assert(false);
                    }
                    assert(opts_tail_count(c2) =~= "}"@);
                }
            }
            (None, pos)
        },
    };
    let p5 = match expect_lit(v, p4, "}") {
        Some(p) => p,
        None => {
            return None;
        },
    };
    proof {
        reveal_strlit("}");
        assert("}"@.len() == 1);
        assert(v@.subrange(pos as int, p5 as int) =~= opts_tail_count(count));
    }
    Some((count, p5))
}

/// Read the encoding member (if present) and what follows it in a hint;
/// `Err(true)` reports an unknown encoding name, `Err(false)` malformed text.
#[verifier::rlimit(60)]
#[verifier::spinoff_prover]
fn parse_opt_enc(v: &Vec<char>, pos: usize) -> (r: Result<
    ((Option<EncodingType>, Option<u64>), usize),
    bool,
>)
    requires
        pos <= v@.len(),
    ensures
        r matches Ok(ep) ==> pos < ep.1 <= v@.len() && v@.subrange(pos as int, ep.1 as int)
            == opts_tail_enc(ep.0.0, ep.0.1),
        forall|e2: Option<EncodingType>, c2: Option<u64>|
            #![trigger opts_tail_enc(e2, c2)]
            lit_at(v@, pos as int, opts_tail_enc(e2, c2)) ==> (r matches Ok(ep) && ep.0.0 == e2
                && ep.0.1 == c2 && ep.1 == pos + opts_tail_enc(e2, c2).len()),
{
    match expect_lit(v, pos, ",\"encoding\":") {
        Some(pe) => {
            proof {
                assert forall|e2: Option<EncodingType>, c2: Option<u64>|
                    lit_at(v@, pos as int, opts_tail_enc(e2, c2)) implies e2 is Some && lit_at(
                    v@,
                    pe as int,
                    quoted(encoding_wire_name(e2->0)),
                ) && lit_at(
                    v@,
                    pe + quoted(encoding_wire_name(e2->0)).len(),
                    opts_tail_count(c2),
                ) by {
                    if e2 is None {
                        assert(opts_tail_enc(e2, c2) =~= opts_tail_count(c2));
                        lemma_opts_enc_first(v@, pos as int, e2, c2);
                        assert(false);
                    }
                    let e = e2->0;
                    assert(opts_tail_enc(e2, c2) =~= ",\"encoding\":"@ + (quoted(
                        encoding_wire_name(e),
                    ) + opts_tail_count(c2)));
                    lemma_lit_split(
                        v@,
                        pos as int,
                        ",\"encoding\":"@,
                        quoted(encoding_wire_name(e)) + opts_tail_count(c2),
                    );
                    lemma_lit_split(
                        v@,
                        pe as int,
                        quoted(encoding_wire_name(e)),
                        opts_tail_count(c2),
                    );
                }
            }
            let (ename, pn) = match parse_qstring(v, pe) {
                Some(x) => x,
                None => {
                    return Err(false);
                },
            };
            let e = match EncodingType::from_wire_name(ename.as_str()) {
                Some(e) => {
                    proof {
                        assert forall|e2: Option<EncodingType>, c2: Option<u64>|
                            lit_at(v@, pos as int, opts_tail_enc(e2, c2)) implies e2 == Some(e)
                            && pn == pe + quoted(encoding_wire_name(e2->0)).len() by {
                            lemma_encoding_name_roundtrip(e2->0);
                        }
                    }
                    e
                },
                None => {
                    proof {
                        assert forall|e2: Option<EncodingType>, c2: Option<u64>|
                            !lit_at(v@, pos as int, opts_tail_enc(e2, c2)) by {
                            if lit_at(v@, pos as int, opts_tail_enc(e2, c2)) {
                                lemma_encoding_name_roundtrip(e2->0);
                            }
                        }
                    }
                    return Err(true);
                },
            };
            let (count, p5) = match parse_opt_count(v, pn) {
                Some(x) => x,
                None => {
                    proof {
                        assert forall|e2: Option<EncodingType>, c2: Option<u64>|
                            !lit_at(v@, pos as int, opts_tail_enc(e2, c2)) by {}
                    }
                    return Err(false);
                },
            };
            proof {
                assert(v@.subrange(pos as int, p5 as int) =~= opts_tail_enc(Some(e), count)) by {
                    assert(v@.subrange(pos as int, pe as int) == ",\"encoding\":"@);
                    assert(v@.subrange(pe as int, pn as int) == quoted(ename@));
                    assert(ename@ == encoding_wire_name(e)) by {
                        lemma_encoding_name_roundtrip(e);
                        reveal_strlit("float32");
                        reveal_strlit("float64");
                        reveal_strlit("int32");
                        reveal_strlit("int64");
                        reveal_strlit("uint8");
                        reveal_strlit("uint16");
                        reveal_strlit("uint32");
                        reveal_strlit("uint64");
                        assert("float32"@.len() == 7);
                        assert("float64"@.len() == 7);
                        assert("int32"@.len() == 5);
                        assert("int64"@.len() == 5);
                        assert("uint8"@.len() == 5);
                        assert("uint16"@.len() == 6);
                        assert("uint32"@.len() == 6);
                        assert("uint64"@.len() == 6);
                        assert("float32"@[5] == '3' && "float64"@[5] == '6');
                        assert("int32"@[0] == 'i' && "int64"@[0] == 'i' && "uint8"@[0] == 'u');
                        assert("int32"@[3] == '3' && "int64"@[3] == '6');
                        assert("uint16"@[4] == '1' && "uint32"@[4] == '3' && "uint64"@[4] == '6');
                    }
                    assert(v@.subrange(pn as int, p5 as int) == opts_tail_count(count));
                }
            }
            Ok(((Some(e), count), p5))
        },
        None => {
            proof {
                assert forall|e2: Option<EncodingType>, c2: Option<u64>|
                    lit_at(v@, pos as int, opts_tail_enc(e2, c2)) implies e2 is None && lit_at(
                    v@,
                    pos as int,
                    opts_tail_count(c2),
                ) by {
                    if e2 is Some {
                        let e = e2->0;
                        assert(opts_tail_enc(e2, c2) =~= ",\"encoding\":"@ + (quoted(
                            encoding_wire_name(e),
                        ) + opts_tail_count(c2)));
                        lemma_lit_split(
                            v@,
                            pos as int,
                            ",\"encoding\":"@,
                            quoted(encoding_wire_name(e)) + opts_tail_count(c2),
                        );
                        assert(false);
                    }
                    assert(opts_tail_enc(e2, c2) =~= opts_tail_count(c2));
                }
            }
            let (count, p5) = match parse_opt_count(v, pos) {
                Some(x) => x,
                None => {
                    proof {
                        assert forall|e2: Option<EncodingType>, c2: Option<u64>|
                            !lit_at(v@, pos as int, opts_tail_enc(e2, c2)) by {}
                    }
                    return Err(false);
                },
            };
            proof {
                assert(v@.subrange(pos as int, p5 as int) =~= opts_tail_enc(
                    None::<EncodingType>,
                    count,
                ));
            }
            Ok(((None, count), p5))
        },
    }
}

/// Read the optional members and closing brace of a hint at `pos`.
#[verifier::rlimit(60)]
#[verifier::spinoff_prover]
fn parse_hint_opts(v: &Vec<char>, pos: usize) -> (r: Result<
    ((Option<u64>, Option<EncodingType>, Option<u64>), usize),
    bool,
>)
    requires
        pos <= v@.len(),
    ensures
        r matches Ok(op) ==> pos < op.1 <= v@.len() && v@.subrange(pos as int, op.1 as int)
            == hint_opts_str(op.0.0, op.0.1, op.0.2),
        forall|s2: Option<u64>, e2: Option<EncodingType>, c2: Option<u64>|
            #![trigger hint_opts_str(s2, e2, c2)]
            lit_at(v@, pos as int, hint_opts_str(s2, e2, c2)) ==> (r matches Ok(op) && op.0.0
                == s2 && op.0.1 == e2 && op.0.2 == c2 && op.1 == pos + hint_opts_str(
                s2,
                e2,
                c2,
            ).len()),
{
    let (size, p2) = match expect_lit(v, pos, ",\"size\":") {
        Some(ps) => {
            proof {
                assert forall|s2: Option<u64>, e2: Option<EncodingType>, c2: Option<u64>|
                    lit_at(v@, pos as int, hint_opts_str(s2, e2, c2)) implies s2 is Some && num_at(
                    v@,
                    ps as int,
                    s2->0,
                ) && lit_at(v@, ps + dec_str(s2->0 as nat).len(), opts_tail_enc(e2, c2)) by {
                    if s2 is None {
                        assert(hint_opts_str(s2, e2, c2) =~= opts_tail_enc(e2, c2));
                        lemma_no_size_lit(v@, pos as int, e2, c2);
                        assert(false);
                    }
                    let n = s2->0;
                    assert(hint_opts_str(s2, e2, c2) =~= ",\"size\":"@ + (dec_str(n as nat)
                        + opts_tail_enc(e2, c2)));
                    lemma_lit_split(
                        v@,
                        pos as int,
                        ",\"size\":"@,
                        dec_str(n as nat) + opts_tail_enc(e2, c2),
                    );
                    lemma_lit_split(v@, ps as int, dec_str(n as nat), opts_tail_enc(e2, c2));
                    lemma_opts_enc_first(v@, ps + dec_str(n as nat).len(), e2, c2);
                }
            }
            match parse_u64(v, ps) {
                Some((n, pn)) => (Some(n), pn),
                None => {
                    return Err(false);
                },
            }
        },
        None => {
            proof {
                assert forall|s2: Option<u64>, e2: Option<EncodingType>, c2: Option<u64>|
                    lit_at(v@, pos as int, hint_opts_str(s2, e2, c2)) implies s2 is None && lit_at(
                    v@,
                    pos as int,
                    opts_tail_enc(e2, c2),
                ) by {
                    if s2 is Some {
                        let n = s2->0;
                        assert(hint_opts_str(s2, e2, c2) =~= ",\"size\":"@ + (dec_str(n as nat)
                            + opts_tail_enc(e2, c2)));
                        lemma_lit_split(
                            v@,
                            pos as int,
                            ",\"size\":"@,
                            dec_str(n as nat) + opts_tail_enc(e2, c2),
                        );
                        assert(false);
                    }
                    assert(hint_opts_str(s2, e2, c2) =~= opts_tail_enc(e2, c2));
                }
            }
            (None, pos)
        },
    };
    let ((enc, count), p5) = match parse_opt_enc(v, p2) {
        Ok(x) => x,
        Err(unknown) => {
            proof {
                assert forall|s2: Option<u64>, e2: Option<EncodingType>, c2: Option<u64>|
                    !lit_at(v@, pos as int, hint_opts_str(s2, e2, c2)) by {}
            }
            return Err(unknown);
        },
    };
    proof {
        assert(v@.subrange(pos as int, p5 as int) =~= hint_opts_str(size, enc, count));
    }
    Ok(((size, enc, count), p5))
}

/// Read a payload hint object at `pos`: `Some((h, p))` means the text from
/// `pos` to `p` is exactly `hint_str(h)`; and whenever `hint_str(h)` occurs
/// at `pos`, the call succeeds and returns that hint.
#[verifier::rlimit(60)]
fn parse_hint(v: &Vec<char>, pos: usize) -> (r: Result<(PayloadHint, usize), bool>)
    requires
        pos <= v@.len(),
    ensures
        r matches Ok(hp) ==> pos < hp.1 <= v@.len() && v@.subrange(pos as int, hp.1 as int)
            == hint_str(hp.0),
        forall|h: PayloadHint|
            #![trigger hint_str(h)]
            lit_at(v@, pos as int, hint_str(h)) ==> (r matches Ok(hp) && hp.0 == h && hp.1 == pos
                + hint_str(h).len()),
{
    proof {
        assert forall|h: PayloadHint|
            lit_at(v@, pos as int, hint_str(h)) implies lit_at(v@, pos as int, "{\"type\":"@)
            && lit_at(
            v@,
            pos + "{\"type\":"@.len(),
            quoted(payload_type_wire_name(h.payload_type)),
        ) && lit_at(
            v@,
            pos + "{\"type\":"@.len() + quoted(payload_type_wire_name(h.payload_type)).len(),
            hint_opts_str(h.size, h.encoding, h.count),
        ) by {
            lemma_hint_decompose(h);
            lemma_lit_split(
                v@,
                pos as int,
                "{\"type\":"@,
                quoted(payload_type_wire_name(h.payload_type)) + hint_opts_str(
                    h.size,
                    h.encoding,
                    h.count,
                ),
            );
            lemma_lit_split(
                v@,
                pos + "{\"type\":"@.len(),
                quoted(payload_type_wire_name(h.payload_type)),
                hint_opts_str(h.size, h.encoding, h.count),
            );
        }
    }
    let p0 = match expect_lit(v, pos, "{\"type\":") {
        Some(p) => p,
        None => {
            return Err(false);
        },
    };
    let (tname, p1) = match parse_qstring(v, p0) {
        Some(x) => x,
        None => {
            return Err(false);
        },
    };
    let pt = match PayloadType::from_wire_name(tname.as_str()) {
        Some(t) => t,
        None => {
            proof {
                assert forall|h: PayloadHint| !lit_at(v@, pos as int, hint_str(h)) by {
                    if lit_at(v@, pos as int, hint_str(h)) {
                        lemma_payload_type_name_roundtrip(h.payload_type);
                    }
                }
            }
            return Err(true);
        },
    };
    proof {
        assert forall|h: PayloadHint|
            lit_at(v@, pos as int, hint_str(h)) implies h.payload_type == pt && lit_at(
            v@,
            p1 as int,
            hint_opts_str(h.size, h.encoding, h.count),
        ) by {
            lemma_payload_type_name_roundtrip(h.payload_type);
        }
    }
    let ((size, enc, count), p5) = match parse_hint_opts(v, p1) {
        Ok(x) => x,
        Err(unknown) => {
            proof {
                assert forall|h: PayloadHint| !lit_at(v@, pos as int, hint_str(h)) by {}
            }
            return Err(unknown);
        },
    };
    let hint = PayloadHint { payload_type: pt, size, encoding: enc, count };
    proof {
        assert(v@.subrange(pos as int, p5 as int) =~= hint_str(hint)) by {
            lemma_hint_decompose(hint);
            assert(v@.subrange(pos as int, p0 as int) == "{\"type\":"@);
            assert(v@.subrange(p0 as int, p1 as int) == quoted(tname@));
            assert(tname@ == payload_type_wire_name(pt)) by {
                lemma_payload_type_name_roundtrip(pt);
                reveal_strlit("vector");
                reveal_strlit("text");
                reveal_strlit("metadata");
                reveal_strlit("binary");
                assert("vector"@.len() == 6);
                assert("text"@.len() == 4);
                assert("metadata"@.len() == 8);
                assert("binary"@.len() == 6);
                assert("vector"@[0] == 'v' && "binary"@[0] == 'b');
            }
            assert(v@.subrange(p1 as int, p5 as int) == hint_opts_str(size, enc, count));
        }
        assert forall|h: PayloadHint|
            lit_at(v@, pos as int, hint_str(h)) implies hint == h && p5 == pos + hint_str(
            h,
        ).len() by {
            assert(h.payload_type == pt && h.size == size && h.encoding == enc && h.count == count);
        }
    }
    Ok((hint, p5))
}

/// A wire name that maps to an operation is that operation's wire name.
proof fn lemma_op_name_inverse(s: Seq<char>, op: OperationType)
    requires
        spec_op_from_name(s) == Some(op),
    ensures
        op_wire_name(op) == s,
{
}

/// The lengths and telltale characters of the optional member literals.
proof fn lemma_member_lit_facts()
    ensures
        ",\"capabilities\":"@.len() == 16,
        ",\"capabilities\":"@[0] == ',',
        ",\"capabilities\":"@[2] == 'c',
        ",\"schema_uri\":"@.len() == 14,
        ",\"schema_uri\":"@[0] == ',',
        ",\"schema_uri\":"@[2] == 's',
        ",\"accept\":"@.len() == 10,
        ",\"accept\":"@[0] == ',',
        ",\"accept\":"@[2] == 'a',
        ",\"payload_hint\":"@.len() == 16,
        ",\"payload_hint\":"@[0] == ',',
        ",\"payload_hint\":"@[2] == 'p',
        ",\"payload_hint\":"@[10] == 'h',
        ",\"payload_refs\":"@.len() == 16,
        ",\"payload_refs\":"@[0] == ',',
        ",\"payload_refs\":"@[2] == 'p',
        ",\"payload_refs\":"@[10] == 'r',
        "}"@.len() == 1,
        "}"@[0] == '}',
{
    reveal_strlit(",\"capabilities\":");
    reveal_strlit(",\"schema_uri\":");
    reveal_strlit(",\"accept\":");
    reveal_strlit(",\"payload_hint\":");
    reveal_strlit(",\"payload_refs\":");
    reveal_strlit("}");
}

/// How the wire text reads at the payload references slot.
proof fn lemma_refs_slot(vv: Seq<char>, p: int, ev: EnvelopeView)
    requires
        lit_at(vv, p, tail_refs(ev)),
    ensures
        ev.payload_refs matches Some(rs) ==> lit_at(vv, p, ",\"payload_refs\":"@) && lit_at(
            vv,
            p + 16,
            refs_str(rs),
        ) && lit_at(vv, p + 16 + refs_str(rs).len(), "}"@),
        ev.payload_refs is None ==> !lit_at(vv, p, ",\"payload_refs\":"@) && lit_at(vv, p, "}"@),
{
    lemma_member_lit_facts();
    match ev.payload_refs {
        Some(rs) => {
            assert(tail_refs(ev) =~= ",\"payload_refs\":"@ + (refs_str(rs) + "}"@));
            lemma_lit_split(vv, p, ",\"payload_refs\":"@, refs_str(rs) + "}"@);
            lemma_lit_split(vv, p + 16, refs_str(rs), "}"@);
        },
        None => {
            assert(tail_refs(ev) =~= "}"@);
            lemma_brace_not_lit(vv, p, ",\"payload_refs\":"@);
        },
    }
}

/// How the wire text reads at the payload hint slot.
proof fn lemma_hint_slot(vv: Seq<char>, p: int, ev: EnvelopeView)
    requires
        lit_at(vv, p, tail_hint(ev)),
    ensures
        ev.payload_hint matches Some(h) ==> lit_at(vv, p, ",\"payload_hint\":"@) && lit_at(
            vv,
            p + 16,
            hint_str(h),
        ) && lit_at(vv, p + 16 + hint_str(h).len(), tail_refs(ev)),
        ev.payload_hint is None ==> !lit_at(vv, p, ",\"payload_hint\":"@) && lit_at(
            vv,
            p,
            tail_refs(ev),
        ),
{
    lemma_member_lit_facts();
    match ev.payload_hint {
        Some(h) => {
            assert(tail_hint(ev) =~= ",\"payload_hint\":"@ + (hint_str(h) + tail_refs(ev)));
            lemma_lit_split(vv, p, ",\"payload_hint\":"@, hint_str(h) + tail_refs(ev));
            lemma_lit_split(vv, p + 16, hint_str(h), tail_refs(ev));
        },
        None => {
            assert(tail_hint(ev) =~= tail_refs(ev));
            lemma_refs_slot(vv, p, ev);
            match ev.payload_refs {
                Some(rs) => {
                    lemma_lit_conflict(vv, p, ",\"payload_hint\":"@, ",\"payload_refs\":"@, 10);
                },
                None => {
                    lemma_brace_not_lit(vv, p, ",\"payload_hint\":"@);
                },
            }
        },
    }
}

/// How the wire text reads at the accept slot.
proof fn lemma_accept_slot(vv: Seq<char>, p: int, ev: EnvelopeView)
    requires
        lit_at(vv, p, tail_accept(ev)),
    ensures
        ev.accept matches Some(ss) ==> lit_at(vv, p, ",\"accept\":"@) && lit_at(
            vv,
            p + 10,
            arr_str(ss),
        ) && lit_at(vv, p + 10 + arr_str(ss).len(), tail_hint(ev)),
        ev.accept is None ==> !lit_at(vv, p, ",\"accept\":"@) && lit_at(vv, p, tail_hint(ev)),
{
    lemma_member_lit_facts();
    match ev.accept {
        Some(ss) => {
            assert(tail_accept(ev) =~= ",\"accept\":"@ + (arr_str(ss) + tail_hint(ev)));
            lemma_lit_split(vv, p, ",\"accept\":"@, arr_str(ss) + tail_hint(ev));
            lemma_lit_split(vv, p + 10, arr_str(ss), tail_hint(ev));
        },
        None => {
            assert(tail_accept(ev) =~= tail_hint(ev));
            lemma_hint_slot(vv, p, ev);
            match ev.payload_hint {
                Some(h) => {
                    lemma_lit_conflict(vv, p, ",\"accept\":"@, ",\"payload_hint\":"@, 2);
                },
                None => {
                    lemma_refs_slot(vv, p, ev);
                    match ev.payload_refs {
                        Some(rs) => {
                            lemma_lit_conflict(
                                vv,
                                p,
                                ",\"accept\":"@,
                                ",\"payload_refs\":"@,
                                2,
                            );
                        },
                        None => {
                            lemma_brace_not_lit(vv, p, ",\"accept\":"@);
                        },
                    }
                },
            }
        },
    }
}

/// How the wire text reads at the schema URI slot.
proof fn lemma_schema_slot(vv: Seq<char>, p: int, ev: EnvelopeView)
    requires
        lit_at(vv, p, tail_schema(ev)),
    ensures
        ev.schema_uri matches Some(u) ==> lit_at(vv, p, ",\"schema_uri\":"@) && lit_at(
            vv,
            p + 14,
            quoted(u),
        ) && lit_at(vv, p + 14 + quoted(u).len(), tail_accept(ev)),
        ev.schema_uri is None ==> !lit_at(vv, p, ",\"schema_uri\":"@) && lit_at(
            vv,
            p,
            tail_accept(ev),
        ),
{
    lemma_member_lit_facts();
    match ev.schema_uri {
        Some(u) => {
            assert(tail_schema(ev) =~= ",\"schema_uri\":"@ + (quoted(u) + tail_accept(ev)));
            lemma_lit_split(vv, p, ",\"schema_uri\":"@, quoted(u) + tail_accept(ev));
            lemma_lit_split(vv, p + 14, quoted(u), tail_accept(ev));
        },
        None => {
            assert(tail_schema(ev) =~= tail_accept(ev));
            lemma_accept_slot(vv, p, ev);
            match ev.accept {
                Some(ss) => {
                    lemma_lit_conflict(vv, p, ",\"schema_uri\":"@, ",\"accept\":"@, 2);
                },
                None => {
                    lemma_hint_slot(vv, p, ev);
                    match ev.payload_hint {
                        Some(h) => {
                            lemma_lit_conflict(
                                vv,
                                p,
                                ",\"schema_uri\":"@,
                                ",\"payload_hint\":"@,
                                2,
                            );
                        },
                        None => {
                            lemma_refs_slot(vv, p, ev);
                            match ev.payload_refs {
                                Some(rs) => {
                                    lemma_lit_conflict(
                                        vv,
                                        p,
                                        ",\"schema_uri\":"@,
                                        ",\"payload_refs\":"@,
                                        2,
                                    );
                                },
                                None => {
                                    lemma_brace_not_lit(vv, p, ",\"schema_uri\":"@);
                                },
                            }
                        },
                    }
                },
            }
        },
    }
}

/// How the wire text reads at the capabilities slot.
proof fn lemma_caps_slot(vv: Seq<char>, p: int, ev: EnvelopeView)
    requires
        lit_at(vv, p, tail_caps(ev)),
    ensures
        ev.capabilities matches Some(c) ==> lit_at(vv, p, ",\"capabilities\":"@) && lit_at(
            vv,
            p + 16,
            obj_str(c),
        ) && lit_at(vv, p + 16 + obj_str(c).len(), tail_schema(ev)),
        ev.capabilities is None ==> !lit_at(vv, p, ",\"capabilities\":"@) && lit_at(
            vv,
            p,
            tail_schema(ev),
        ),
{
    lemma_member_lit_facts();
    match ev.capabilities {
        Some(c) => {
            assert(tail_caps(ev) =~= ",\"capabilities\":"@ + (obj_str(c) + tail_schema(ev)));
            lemma_lit_split(vv, p, ",\"capabilities\":"@, obj_str(c) + tail_schema(ev));
            lemma_lit_split(vv, p + 16, obj_str(c), tail_schema(ev));
        },
        None => {
            assert(tail_caps(ev) =~= tail_schema(ev));
            lemma_schema_slot(vv, p, ev);
            match ev.schema_uri {
                Some(u) => {
                    lemma_lit_conflict(vv, p, ",\"capabilities\":"@, ",\"schema_uri\":"@, 2);
                },
                None => {
                    lemma_accept_slot(vv, p, ev);
                    match ev.accept {
                        Some(ss) => {
                            lemma_lit_conflict(vv, p, ",\"capabilities\":"@, ",\"accept\":"@, 2);
                        },
                        None => {
                            lemma_hint_slot(vv, p, ev);
                            match ev.payload_hint {
                                Some(h) => {
                                    lemma_lit_conflict(
                                        vv,
                                        p,
                                        ",\"capabilities\":"@,
                                        ",\"payload_hint\":"@,
                                        2,
                                    );
                                },
                                None => {
                                    lemma_refs_slot(vv, p, ev);
                                    match ev.payload_refs {
                                        Some(rs) => {
                                            lemma_lit_conflict(
                                                vv,
                                                p,
                                                ",\"capabilities\":"@,
                                                ",\"payload_refs\":"@,
                                                2,
                                            );
                                        },
                                        None => {
                                            lemma_brace_not_lit(vv, p, ",\"capabilities\":"@);
                                        },
                                    }
                                },
                            }
                        },
                    }
                },
            }
        },
    }
}

/// The wire text of the five identifying header members, flat.
pub open spec fn header5_flat(
    ver: Seq<char>,
    mid: Seq<char>,
    ts: Seq<char>,
    fr: Seq<char>,
    to: Seq<char>,
) -> Seq<char> {
    "{\"v\":"@ + quoted(ver) + ",\"msg_id\":"@ + quoted(mid) + ",\"ts\":"@ + quoted(ts)
        + ",\"from\":"@ + quoted(fr) + ",\"to\":"@ + quoted(to)
}

/// The wire text of the six required header members, flat.
pub open spec fn header_flat(
    ver: Seq<char>,
    mid: Seq<char>,
    ts: Seq<char>,
    fr: Seq<char>,
    to: Seq<char>,
    op: OperationType,
) -> Seq<char> {
    header5_flat(ver, mid, ts, fr, to) + ",\"op\":"@ + quoted(op_wire_name(op))
}

/// The wire text of the first two header members, flat.
pub open spec fn header2_flat(ver: Seq<char>, mid: Seq<char>) -> Seq<char> {
    "{\"v\":"@ + quoted(ver) + ",\"msg_id\":"@ + quoted(mid)
}

/// The wire text of the first three header members, flat.
pub open spec fn header3_flat(ver: Seq<char>, mid: Seq<char>, ts: Seq<char>) -> Seq<char> {
    header2_flat(ver, mid) + ",\"ts\":"@ + quoted(ts)
}

/// Read the version and message id members. The text consumed on success is
/// exactly the header of the returned values, and on the wire text of any
/// envelope the call succeeds with that envelope's fields.
#[verifier::rlimit(100)]
#[verifier::spinoff_prover]
fn parse_header2(v: &Vec<char>) -> (r: Option<((String, String), usize)>)
    ensures
        r matches Some(hp) ==> 0 < hp.1 <= v@.len() && v@.subrange(0, hp.1 as int) == header2_flat(
            hp.0.0@,
            hp.0.1@,
        ),
        forall|ev: EnvelopeView|
            #![trigger spec_serialize(ev)]
            v@ == spec_serialize(ev) ==> (r matches Some(hp) && hp.0.0@ == ev.version && hp.0.1@
                == ev.message_id && lit_at(v@, hp.1 as int, header_rest4(ev))),
{
    proof {
        assert forall|ev: EnvelopeView|
            #![trigger spec_serialize(ev)]
            v@ == spec_serialize(ev) implies lit_at(v@, 0, "{\"v\":"@) && lit_at(
            v@,
            0 + "{\"v\":"@.len() as int,
            header_rest1(ev),
        ) by {
            lemma_serialize_decompose(ev);
            assert(lit_at(v@, 0, "{\"v\":"@ + header_rest1(ev))) by {
                assert(v@.subrange(0, v@.len() as int) =~= v@);
            }
            lemma_lit_split(v@, 0, "{\"v\":"@, header_rest1(ev));
        }
    }
    let p0 = match expect_lit(v, 0, "{\"v\":") {
        Some(p) => p,
        None => {
            proof {
                assert forall|ev: EnvelopeView| #![trigger spec_serialize(ev)] v@
                    != spec_serialize(ev) by {
                    if v@ == spec_serialize(ev) {
                        assert(lit_at(v@, 0, "{\"v\":"@));
                        assert(false);
                    }
                }
            }
            return None;
        },
    };
    let (version, p1) = match parse_qstring(v, p0) {
        Some(x) => x,
        None => {
            proof {
                assert forall|ev: EnvelopeView| #![trigger spec_serialize(ev)] v@
                    != spec_serialize(ev) by {
                    if v@ == spec_serialize(ev) {
                        lemma_lit_split(v@, p0 as int, quoted(ev.version), header_rest2(ev));
                        assert(false);
                    }
                }
            }
            return None;
        },
    };
    proof {
        assert forall|ev: EnvelopeView|
            #![trigger spec_serialize(ev)]
            v@ == spec_serialize(ev) implies version@ == ev.version && p1 == p0 + quoted(
            ev.version,
        ).len() && lit_at(v@, p1 as int, header_rest2(ev)) by {
            lemma_lit_split(v@, p0 as int, quoted(ev.version), header_rest2(ev));
        }
    }
    let p2 = match expect_lit(v, p1, ",\"msg_id\":") {
        Some(p) => p,
        None => {
            proof {
                assert forall|ev: EnvelopeView| #![trigger spec_serialize(ev)] v@
                    != spec_serialize(ev) by {
                    if v@ == spec_serialize(ev) {
                        lemma_lit_split(v@, p1 as int, ",\"msg_id\":"@, header_rest3(ev));
                        assert(false);
                    }
                }
            }
            return None;
        },
    };
    let (message_id, p3) = match parse_qstring(v, p2) {
        Some(x) => x,
        None => {
            proof {
                assert forall|ev: EnvelopeView| #![trigger spec_serialize(ev)] v@
                    != spec_serialize(ev) by {
                    if v@ == spec_serialize(ev) {
                        lemma_lit_split(v@, p1 as int, ",\"msg_id\":"@, header_rest3(ev));
                        lemma_lit_split(v@, p2 as int, quoted(ev.message_id), header_rest4(ev));
                        assert(false);
                    }
                }
            }
            return None;
        },
    };
    proof {
        assert forall|ev: EnvelopeView|
            #![trigger spec_serialize(ev)]
            v@ == spec_serialize(ev) implies message_id@ == ev.message_id && p3 == p2 + quoted(
            ev.message_id,
        ).len() && lit_at(v@, p3 as int, header_rest4(ev)) by {
            lemma_lit_split(v@, p1 as int, ",\"msg_id\":"@, header_rest3(ev));
            lemma_lit_split(v@, p2 as int, quoted(ev.message_id), header_rest4(ev));
        }
        assert(v@.subrange(0, p3 as int) =~= header2_flat(version@, message_id@));
    }
    Some(((version, message_id), p3))
}

/// Read the version, message id and timestamp members. The text consumed on
/// success is exactly the header of the returned values, and on the wire text
/// of any envelope the call succeeds with that envelope's fields.
#[verifier::rlimit(100)]
#[verifier::spinoff_prover]
fn parse_header3(v: &Vec<char>) -> (r: Option<((String, String, String), usize)>)
    ensures
        r matches Some(hp) ==> 0 < hp.1 <= v@.len() && v@.subrange(0, hp.1 as int) == header3_flat(
            hp.0.0@,
            hp.0.1@,
            hp.0.2@,
        ),
        forall|ev: EnvelopeView|
            #![trigger spec_serialize(ev)]
            v@ == spec_serialize(ev) ==> (r matches Some(hp) && hp.0.0@ == ev.version && hp.0.1@
                == ev.message_id && hp.0.2@ == ev.timestamp && lit_at(
                v@,
                hp.1 as int,
                header_rest6(ev),
            )),
{
    let ((version, message_id), p3) = match parse_header2(v) {
        Some(x) => x,
        None => {
            return None;
        },
    };
    let p4 = match expect_lit(v, p3, ",\"ts\":") {
        Some(p) => p,
        None => {
            proof {
                assert forall|ev: EnvelopeView| #![trigger spec_serialize(ev)] v@
                    != spec_serialize(ev) by {
                    if v@ == spec_serialize(ev) {
                        lemma_lit_split(v@, p3 as int, ",\"ts\":"@, header_rest5(ev));
                        assert(false);
                    }
                }
            }
            return None;
        },
    };
    let (timestamp, p5) = match parse_qstring(v, p4) {
        Some(x) => x,
        None => {
            proof {
                assert forall|ev: EnvelopeView| #![trigger spec_serialize(ev)] v@
                    != spec_serialize(ev) by {
                    if v@ == spec_serialize(ev) {
                        lemma_lit_split(v@, p3 as int, ",\"ts\":"@, header_rest5(ev));
                        lemma_lit_split(v@, p4 as int, quoted(ev.timestamp), header_rest6(ev));
                        assert(false);
                    }
                }
            }
            return None;
        },
    };
    proof {
        assert forall|ev: EnvelopeView|
            #![trigger spec_serialize(ev)]
            v@ == spec_serialize(ev) implies timestamp@ == ev.timestamp && p5 == p4 + quoted(
            ev.timestamp,
        ).len() && lit_at(v@, p5 as int, header_rest6(ev)) by {
            lemma_lit_split(v@, p3 as int, ",\"ts\":"@, header_rest5(ev));
            lemma_lit_split(v@, p4 as int, quoted(ev.timestamp), header_rest6(ev));
        }
        assert(v@.subrange(0, p5 as int) =~= header3_flat(version@, message_id@, timestamp@));
    }
    Some(((version, message_id, timestamp), p5))
}

/// The wire text of the first four header members, flat.
pub open spec fn header4_flat(
    ver: Seq<char>,
    mid: Seq<char>,
    ts: Seq<char>,
    fr: Seq<char>,
) -> Seq<char> {
    header3_flat(ver, mid, ts) + ",\"from\":"@ + quoted(fr)
}

/// Read the header members through the sender. The text consumed on success
/// is exactly the header of the returned values, and on the wire text of any
/// envelope the call succeeds with that envelope's fields.
#[verifier::rlimit(100)]
#[verifier::spinoff_prover]
fn parse_header4(v: &Vec<char>) -> (r: Option<((String, String, String, String), usize)>)
    ensures
        r matches Some(hp) ==> 0 < hp.1 <= v@.len() && v@.subrange(0, hp.1 as int) == header4_flat(
            hp.0.0@,
            hp.0.1@,
            hp.0.2@,
            hp.0.3@,
        ),
        forall|ev: EnvelopeView|
            #![trigger spec_serialize(ev)]
            v@ == spec_serialize(ev) ==> (r matches Some(hp) && hp.0.0@ == ev.version && hp.0.1@
                == ev.message_id && hp.0.2@ == ev.timestamp && hp.0.3@ == ev.from && lit_at(
                v@,
                hp.1 as int,
                header_rest8(ev),
            )),
{
    let ((version, message_id, timestamp), p5) = match parse_header3(v) {
        Some(x) => x,
        None => {
            return None;
        },
    };
    let p6 = match expect_lit(v, p5, ",\"from\":") {
        Some(p) => p,
        None => {
            proof {
                assert forall|ev: EnvelopeView| #![trigger spec_serialize(ev)] v@
                    != spec_serialize(ev) by {
                    if v@ == spec_serialize(ev) {
                        lemma_lit_split(v@, p5 as int, ",\"from\":"@, header_rest7(ev));
                        assert(false);
                    }
                }
            }
            return None;
        },
    };
    let (from, p7) = match parse_qstring(v, p6) {
        Some(x) => x,
        None => {
            proof {
                assert forall|ev: EnvelopeView| #![trigger spec_serialize(ev)] v@
                    != spec_serialize(ev) by {
                    if v@ == spec_serialize(ev) {
                        lemma_lit_split(v@, p5 as int, ",\"from\":"@, header_rest7(ev));
                        lemma_lit_split(v@, p6 as int, quoted(ev.from), header_rest8(ev));
                        assert(false);
                    }
                }
            }
            return None;
        },
    };
    proof {
        assert forall|ev: EnvelopeView|
            #![trigger spec_serialize(ev)]
            v@ == spec_serialize(ev) implies from@ == ev.from && p7 == p6 + quoted(ev.from).len()
            && lit_at(v@, p7 as int, header_rest8(ev)) by {
            lemma_lit_split(v@, p5 as int, ",\"from\":"@, header_rest7(ev));
            lemma_lit_split(v@, p6 as int, quoted(ev.from), header_rest8(ev));
        }
        assert(v@.subrange(0, p7 as int) =~= header4_flat(
            version@,
            message_id@,
            timestamp@,
            from@,
        ));
    }
    Some(((version, message_id, timestamp, from), p7))
}

/// Read the five identifying header members (version, message id, timestamp,
/// sender, recipient). The text consumed on success is exactly the header of
/// the returned values, and on the wire text of any envelope the call
/// succeeds with that envelope's fields.
#[verifier::rlimit(100)]
#[verifier::spinoff_prover]
fn parse_header5(v: &Vec<char>) -> (r: Option<((String, String, String, String, String), usize)>)
    ensures
        r matches Some(hp) ==> 0 < hp.1 <= v@.len() && v@.subrange(0, hp.1 as int) == header5_flat(
            hp.0.0@,
            hp.0.1@,
            hp.0.2@,
            hp.0.3@,
            hp.0.4@,
        ),
        forall|ev: EnvelopeView|
            #![trigger spec_serialize(ev)]
            v@ == spec_serialize(ev) ==> (r matches Some(hp) && hp.0.0@ == ev.version && hp.0.1@
                == ev.message_id && hp.0.2@ == ev.timestamp && hp.0.3@ == ev.from && hp.0.4@
                == ev.to && lit_at(v@, hp.1 as int, header_rest10(ev))),
{
    let ((version, message_id, timestamp, from), p7) = match parse_header4(v) {
        Some(x) => x,
        None => {
            return None;
        },
    };
    let p8 = match expect_lit(v, p7, ",\"to\":") {
        Some(p) => p,
        None => {
            proof {
                assert forall|ev: EnvelopeView| #![trigger spec_serialize(ev)] v@
                    != spec_serialize(ev) by {
                    if v@ == spec_serialize(ev) {
                        lemma_lit_split(v@, p7 as int, ",\"to\":"@, header_rest9(ev));
                        assert(false);
                    }
                }
            }
            return None;
        },
    };
    let (to, p9) = match parse_qstring(v, p8) {
        Some(x) => x,
        None => {
            proof {
                assert forall|ev: EnvelopeView| #![trigger spec_serialize(ev)] v@
                    != spec_serialize(ev) by {
                    if v@ == spec_serialize(ev) {
                        lemma_lit_split(v@, p7 as int, ",\"to\":"@, header_rest9(ev));
                        lemma_lit_split(v@, p8 as int, quoted(ev.to), header_rest10(ev));
                        assert(false);
                    }
                }
            }
            return None;
        },
    };
    proof {
        assert forall|ev: EnvelopeView|
            #![trigger spec_serialize(ev)]
            v@ == spec_serialize(ev) implies to@ == ev.to && p9 == p8 + quoted(ev.to).len()
            && lit_at(v@, p9 as int, header_rest10(ev)) by {
            lemma_lit_split(v@, p7 as int, ",\"to\":"@, header_rest9(ev));
            lemma_lit_split(v@, p8 as int, quoted(ev.to), header_rest10(ev));
        }
        assert(v@.subrange(0, p9 as int) =~= header5_flat(
            version@,
            message_id@,
            timestamp@,
            from@,
            to@,
        ));
    }
    Some(((version, message_id, timestamp, from, to), p9))
}

/// Whether a text opens with a well-formed header whose operation name is
/// none of the known ones.
pub open spec fn unknown_op_header(s: Seq<char>) -> bool {
    exists|ver: Seq<char>, mid: Seq<char>, ts: Seq<char>, fr: Seq<char>, to: Seq<char>, opn: Seq<
        char,
    >|
        #![trigger header5_flat(ver, mid, ts, fr, to), quoted(opn)]
        lit_at(s, 0, header5_flat(ver, mid, ts, fr, to) + ",\"op\":"@ + quoted(opn))
            && spec_op_from_name(opn) is None
}

/// Read the six required header members. `Err(true)` reports an unknown
/// operation name, `Err(false)` malformed text. The text consumed on success
/// is exactly the header of the returned values, and on the wire text of any
/// envelope the call succeeds with that envelope's header fields.
#[verifier::rlimit(100)]
#[verifier::spinoff_prover]
fn parse_header(v: &Vec<char>) -> (r: Result<
    ((String, String, String, String, String, OperationType), usize),
    bool,
>)
    ensures
        r matches Ok(hp) ==> 0 < hp.1 <= v@.len() && v@.subrange(0, hp.1 as int) == header_flat(
            hp.0.0@,
            hp.0.1@,
            hp.0.2@,
            hp.0.3@,
            hp.0.4@,
            hp.0.5,
        ),
        r == Err::<((String, String, String, String, String, OperationType), usize), bool>(true)
            ==> unknown_op_header(v@),
        forall|ev: EnvelopeView|
            #![trigger spec_serialize(ev)]
            v@ == spec_serialize(ev) ==> (r matches Ok(hp) && hp.0.0@ == ev.version && hp.0.1@
                == ev.message_id && hp.0.2@ == ev.timestamp && hp.0.3@ == ev.from && hp.0.4@
                == ev.to && hp.0.5 == ev.operation && lit_at(v@, hp.1 as int, tail_caps(ev))),
{
    let ((version, message_id, timestamp, from, to), p9) = match parse_header5(v) {
        Some(x) => x,
        None => {
            return Err(false);
        },
    };
    let p10 = match expect_lit(v, p9, ",\"op\":") {
        Some(p) => p,
        None => {
            proof {
                assert forall|ev: EnvelopeView| #![trigger spec_serialize(ev)] v@
                    != spec_serialize(ev) by {
                    if v@ == spec_serialize(ev) {
                        lemma_lit_split(v@, p9 as int, ",\"op\":"@, header_rest11(ev));
                        assert(false);
                    }
                }
            }
            return Err(false);
        },
    };
    let (opname, p11) = match parse_qstring(v, p10) {
        Some(x) => x,
        None => {
            proof {
                assert forall|ev: EnvelopeView| #![trigger spec_serialize(ev)] v@
                    != spec_serialize(ev) by {
                    if v@ == spec_serialize(ev) {
                        lemma_lit_split(v@, p9 as int, ",\"op\":"@, header_rest11(ev));
                        lemma_lit_split(
                            v@,
                            p10 as int,
                            quoted(op_wire_name(ev.operation)),
                            tail_caps(ev),
                        );
                        assert(false);
                    }
                }
            }
            return Err(false);
        },
    };
    proof {
        assert forall|ev: EnvelopeView|
            #![trigger spec_serialize(ev)]
            v@ == spec_serialize(ev) implies opname@ == op_wire_name(ev.operation) && p11 == p10
            + quoted(op_wire_name(ev.operation)).len() && lit_at(v@, p11 as int, tail_caps(ev)) by {
            lemma_lit_split(v@, p9 as int, ",\"op\":"@, header_rest11(ev));
            lemma_lit_split(v@, p10 as int, quoted(op_wire_name(ev.operation)), tail_caps(ev));
        }
    }
    let op = match OperationType::from_wire_name(opname.as_str()) {
        Some(o) => o,
        None => {
            proof {
                assert forall|ev: EnvelopeView| #![trigger spec_serialize(ev)] v@
                    != spec_serialize(ev) by {
                    if v@ == spec_serialize(ev) {
                        lemma_op_name_roundtrip(ev.operation);
                        assert(false);
                    }
                }
                assert(unknown_op_header(v@)) by {
                    assert(v@.subrange(0, p11 as int) =~= header5_flat(
                        version@,
                        message_id@,
                        timestamp@,
                        from@,
                        to@,
                    ) + ",\"op\":"@ + quoted(opname@));
                    assert(lit_at(
                        v@,
                        0,
                        header5_flat(version@, message_id@, timestamp@, from@, to@) + ",\"op\":"@
                            + quoted(opname@),
                    ));
                }
            }
            return Err(true);
        },
    };
    proof {
        assert forall|ev: EnvelopeView|
            #![trigger spec_serialize(ev)]
            v@ == spec_serialize(ev) implies op == ev.operation by {
            lemma_op_name_roundtrip(ev.operation);
        }
        lemma_op_name_inverse(opname@, op);
        assert(v@.subrange(0, p11 as int) =~= header_flat(
            version@,
            message_id@,
            timestamp@,
            from@,
            to@,
            op,
        ));
    }
    Ok(((version, message_id, timestamp, from, to, op), p11))
}

/// Read the payload references member (if present) and the closing brace,
/// through the end of the text.
#[verifier::rlimit(100)]
#[verifier::spinoff_prover]
fn parse_tail_refs(v: &Vec<char>, pos: usize) -> (r: Option<(Option<Vec<StringMap>>, usize)>)
    requires
        pos <= v@.len(),
    ensures
        r matches Some(tp) ==> {
            &&& tp.1 == v@.len()
            &&& v@.subrange(pos as int, tp.1 as int) == refs_part(refs_opt_view(tp.0)) + "}"@
            &&& match tp.0 {
                Some(rs) => forall|q: int|
                    0 <= q < rs@.len() ==> keys_unique(#[trigger] maps_view(rs@)[q]),
                None => true,
            }
        },
        forall|ev: EnvelopeView|
            #![trigger tail_refs(ev)]
            view_wf(ev) && lit_at(v@, pos as int, tail_refs(ev)) && pos + tail_refs(ev).len()
                == v@.len() ==> (r matches Some(tp) && ev.payload_refs == refs_opt_view(tp.0)),
{
    proof {
        lemma_member_lit_facts();
    }
    let n = v.len();
    let refs: Option<Vec<StringMap>>;
    let p: usize;
    match expect_lit(v, pos, ",\"payload_refs\":") {
        Some(p2) => {
            proof {
                assert forall|ev: EnvelopeView|
                    #![trigger tail_refs(ev)]
                    view_wf(ev) && lit_at(v@, pos as int, tail_refs(ev)) implies ev.payload_refs
                    is Some && (forall|q: int|
                    0 <= q < ev.payload_refs->0.len() ==> keys_unique(
                        #[trigger] ev.payload_refs->0[q],
                    )) && lit_at(v@, p2 as int, refs_str(ev.payload_refs->0)) by {
                    lemma_refs_slot(v@, pos as int, ev);
                    if ev.payload_refs is None {
                        assert(false);
                    }
                }
            }
            match parse_refs(v, p2) {
                Some((rs, p3)) => {
                    proof {
                        assert forall|ev: EnvelopeView|
                            #![trigger tail_refs(ev)]
                            view_wf(ev) && lit_at(v@, pos as int, tail_refs(ev)) implies
                            ev.payload_refs == Some(maps_view(rs@)) && lit_at(
                            v@,
                            p3 as int,
                            "}"@,
                        ) by {
                            lemma_refs_slot(v@, pos as int, ev);
                        }
                    }
                    refs = Some(rs);
                    p = p3;
                },
                None => {
                    proof {
                        assert forall|ev: EnvelopeView|
                            #![trigger tail_refs(ev)]
                            !(view_wf(ev) && lit_at(v@, pos as int, tail_refs(ev))) by {
                            if view_wf(ev) && lit_at(v@, pos as int, tail_refs(ev)) {
                                lemma_refs_slot(v@, pos as int, ev);
                                assert(false);
                            }
                        }
                    }
                    return None;
                },
            }
        },
        None => {
            proof {
                assert forall|ev: EnvelopeView|
                    #![trigger tail_refs(ev)]
                    view_wf(ev) && lit_at(v@, pos as int, tail_refs(ev)) implies ev.payload_refs
                    is None && lit_at(v@, pos as int, "}"@) by {
                    lemma_refs_slot(v@, pos as int, ev);
                    if ev.payload_refs is Some {
                        assert(false);
                    }
                }
            }
            refs = None;
            p = pos;
        },
    }
    let pz = match expect_lit(v, p, "}") {
        Some(q) => q,
        None => {
            proof {
                assert forall|ev: EnvelopeView|
                    #![trigger tail_refs(ev)]
                    !(view_wf(ev) && lit_at(v@, pos as int, tail_refs(ev))) by {}
            }
            return None;
        },
    };
    if pz != n {
        proof {
            assert forall|ev: EnvelopeView|
                #![trigger tail_refs(ev)]
                !(view_wf(ev) && lit_at(v@, pos as int, tail_refs(ev)) && pos + tail_refs(ev).len()
                    == v@.len()) by {
                if view_wf(ev) && lit_at(v@, pos as int, tail_refs(ev)) && pos + tail_refs(ev).len()
                    == v@.len() {
                    lemma_refs_slot(v@, pos as int, ev);
                    assert(tail_refs(ev).len() == refs_part(ev.payload_refs).len() + 1);
                    assert(false);
                }
            }
        }
        return None;
    }
    proof {
        assert(v@.subrange(pos as int, pz as int) =~= refs_part(refs_opt_view(refs)) + "}"@);
    }
    Some((refs, pz))
}

/// The views of an optional vector of string maps.
pub open spec fn refs_opt_view(refs: Option<Vec<StringMap>>) -> Option<
    Seq<Seq<(Seq<char>, Seq<char>)>>,
> {
    match refs {
        Some(rs) => Some(maps_view(rs@)),
        None => None,
    }
}

/// The views of an optional vector of strings.
pub open spec fn accept_opt_view(a: Option<Vec<String>>) -> Option<Seq<Seq<char>>> {
    match a {
        Some(ss) => Some(strings_view(ss@)),
        None => None,
    }
}

/// The view of an optional string.
pub open spec fn str_opt_view(u: Option<String>) -> Option<Seq<char>> {
    match u {
        Some(s) => Some(s@),
        None => None,
    }
}

/// The view of an optional string map.
pub open spec fn map_opt_view(m: Option<StringMap>) -> Option<Seq<(Seq<char>, Seq<char>)>> {
    match m {
        Some(c) => Some(c@),
        None => None,
    }
}

/// Read the payload hint member (if present) and everything after it.
#[verifier::rlimit(100)]
#[verifier::spinoff_prover]
fn parse_tail_hint(v: &Vec<char>, pos: usize) -> (r: Result<
    ((Option<PayloadHint>, Option<Vec<StringMap>>), usize),
    bool,
>)
    requires
        pos <= v@.len(),
    ensures
        r matches Ok(tp) ==> {
            &&& tp.1 == v@.len()
            &&& v@.subrange(pos as int, tp.1 as int) == hint_part(tp.0.0) + (refs_part(
                refs_opt_view(tp.0.1),
            ) + "}"@)
            &&& match tp.0.1 {
                Some(rs) => forall|q: int|
                    0 <= q < rs@.len() ==> keys_unique(#[trigger] maps_view(rs@)[q]),
                None => true,
            }
        },
        forall|ev: EnvelopeView|
            #![trigger tail_hint(ev)]
            view_wf(ev) && lit_at(v@, pos as int, tail_hint(ev)) && pos + tail_hint(ev).len()
                == v@.len() ==> (r matches Ok(tp) && ev.payload_hint == tp.0.0 && ev.payload_refs
                == refs_opt_view(tp.0.1)),
{
    proof {
        lemma_member_lit_facts();
    }
    let hint: Option<PayloadHint>;
    let p: usize;
    match expect_lit(v, pos, ",\"payload_hint\":") {
        Some(p2) => {
            proof {
                assert forall|ev: EnvelopeView|
                    #![trigger tail_hint(ev)]
                    view_wf(ev) && lit_at(v@, pos as int, tail_hint(ev)) implies ev.payload_hint
                    is Some && lit_at(v@, p2 as int, hint_str(ev.payload_hint->0)) by {
                    lemma_hint_slot(v@, pos as int, ev);
                    if ev.payload_hint is None {
                        assert(false);
                    }
                }
            }
            match parse_hint(v, p2) {
                Ok((h, p3)) => {
                    proof {
                        assert forall|ev: EnvelopeView|
                            #![trigger tail_hint(ev)]
                            view_wf(ev) && lit_at(v@, pos as int, tail_hint(ev)) implies
                            ev.payload_hint == Some(h) && lit_at(v@, p3 as int, tail_refs(ev))
                            && pos + tail_hint(ev).len() == p3 + tail_refs(ev).len() by {
                            lemma_hint_slot(v@, pos as int, ev);
                        }
                    }
                    hint = Some(h);
                    p = p3;
                },
                Err(unknown) => {
                    proof {
                        assert forall|ev: EnvelopeView|
                            #![trigger tail_hint(ev)]
                            !(view_wf(ev) && lit_at(v@, pos as int, tail_hint(ev))) by {
                            if view_wf(ev) && lit_at(v@, pos as int, tail_hint(ev)) {
                                lemma_hint_slot(v@, pos as int, ev);
                                assert(false);
                            }
                        }
                    }
                    return Err(unknown);
                },
            }
        },
        None => {
            proof {
                assert forall|ev: EnvelopeView|
                    #![trigger tail_hint(ev)]
                    view_wf(ev) && lit_at(v@, pos as int, tail_hint(ev)) implies ev.payload_hint
                    is None && lit_at(v@, pos as int, tail_refs(ev)) && pos + tail_hint(ev).len()
                    == pos + tail_refs(ev).len() by {
                    lemma_hint_slot(v@, pos as int, ev);
                    if ev.payload_hint is Some {
                        assert(false);
                    }
                    assert(tail_hint(ev) =~= tail_refs(ev));
                }
            }
            hint = None;
            p = pos;
        },
    }
    let (refs, pz) = match parse_tail_refs(v, p) {
        Some(x) => x,
        None => {
            proof {
                assert forall|ev: EnvelopeView|
                    #![trigger tail_hint(ev)]
                    !(view_wf(ev) && lit_at(v@, pos as int, tail_hint(ev)) && pos + tail_hint(
                        ev,
                    ).len() == v@.len()) by {}
            }
            return Err(false);
        },
    };
    proof {
        assert(v@.subrange(pos as int, pz as int) =~= hint_part(hint) + (refs_part(
            refs_opt_view(refs),
        ) + "}"@));
    }
    Ok(((hint, refs), pz))
}

/// Read the accept member (if present) and everything after it.
#[verifier::rlimit(100)]
#[verifier::spinoff_prover]
fn parse_tail_accept(v: &Vec<char>, pos: usize) -> (r: Result<
    ((Option<Vec<String>>, Option<PayloadHint>, Option<Vec<StringMap>>), usize),
    bool,
>)
    requires
        pos <= v@.len(),
    ensures
        r matches Ok(tp) ==> {
            &&& tp.1 == v@.len()
            &&& v@.subrange(pos as int, tp.1 as int) == accept_part(accept_opt_view(tp.0.0)) + (
            hint_part(tp.0.1) + (refs_part(refs_opt_view(tp.0.2)) + "}"@))
            &&& match tp.0.2 {
                Some(rs) => forall|q: int|
                    0 <= q < rs@.len() ==> keys_unique(#[trigger] maps_view(rs@)[q]),
                None => true,
            }
        },
        forall|ev: EnvelopeView|
            #![trigger tail_accept(ev)]
            view_wf(ev) && lit_at(v@, pos as int, tail_accept(ev)) && pos + tail_accept(ev).len()
                == v@.len() ==> (r matches Ok(tp) && ev.accept == accept_opt_view(tp.0.0)
                && ev.payload_hint == tp.0.1 && ev.payload_refs == refs_opt_view(tp.0.2)),
{
    proof {
        lemma_member_lit_facts();
    }
    let accept: Option<Vec<String>>;
    let p: usize;
    match expect_lit(v, pos, ",\"accept\":") {
        Some(p2) => {
            proof {
                assert forall|ev: EnvelopeView|
                    #![trigger tail_accept(ev)]
                    view_wf(ev) && lit_at(v@, pos as int, tail_accept(ev)) implies ev.accept
                    is Some && lit_at(v@, p2 as int, arr_str(ev.accept->0)) by {
                    lemma_accept_slot(v@, pos as int, ev);
                    if ev.accept is None {
                        assert(false);
                    }
                }
            }
            match parse_accept(v, p2) {
                Some((a, p3)) => {
                    proof {
                        assert forall|ev: EnvelopeView|
                            #![trigger tail_accept(ev)]
                            view_wf(ev) && lit_at(v@, pos as int, tail_accept(ev)) implies
                            ev.accept == Some(strings_view(a@)) && lit_at(
                            v@,
                            p3 as int,
                            tail_hint(ev),
                        ) && pos + tail_accept(ev).len() == p3 + tail_hint(ev).len() by {
                            lemma_accept_slot(v@, pos as int, ev);
                        }
                    }
                    accept = Some(a);
                    p = p3;
                },
                None => {
                    proof {
                        assert forall|ev: EnvelopeView|
                            #![trigger tail_accept(ev)]
                            !(view_wf(ev) && lit_at(v@, pos as int, tail_accept(ev))) by {
                            if view_wf(ev) && lit_at(v@, pos as int, tail_accept(ev)) {
                                lemma_accept_slot(v@, pos as int, ev);
                                assert(false);
                            }
                        }
                    }
                    return Err(false);
                },
            }
        },
        None => {
            proof {
                assert forall|ev: EnvelopeView|
                    #![trigger tail_accept(ev)]
                    view_wf(ev) && lit_at(v@, pos as int, tail_accept(ev)) implies ev.accept is None
                    && lit_at(v@, pos as int, tail_hint(ev)) && pos + tail_accept(ev).len() == pos
                    + tail_hint(ev).len() by {
                    lemma_accept_slot(v@, pos as int, ev);
                    if ev.accept is Some {
                        assert(false);
                    }
                    assert(tail_accept(ev) =~= tail_hint(ev));
                }
            }
            accept = None;
            p = pos;
        },
    }
    let ((hint, refs), pz) = match parse_tail_hint(v, p) {
        Ok(x) => x,
        Err(unknown) => {
            proof {
                assert forall|ev: EnvelopeView|
                    #![trigger tail_accept(ev)]
                    !(view_wf(ev) && lit_at(v@, pos as int, tail_accept(ev)) && pos + tail_accept(
                        ev,
                    ).len() == v@.len()) by {}
            }
            return Err(unknown);
        },
    };
    proof {
        assert(v@.subrange(pos as int, pz as int) =~= accept_part(accept_opt_view(accept)) + (
        hint_part(hint) + (refs_part(refs_opt_view(refs)) + "}"@)));
    }
    Ok(((accept, hint, refs), pz))
}

/// Read the schema URI member (if present) and everything after it.
#[verifier::rlimit(100)]
#[verifier::spinoff_prover]
fn parse_tail_schema(v: &Vec<char>, pos: usize) -> (r: Result<
    ((Option<String>, Option<Vec<String>>, Option<PayloadHint>, Option<Vec<StringMap>>), usize),
    bool,
>)
    requires
        pos <= v@.len(),
    ensures
        r matches Ok(tp) ==> {
            &&& tp.1 == v@.len()
            &&& v@.subrange(pos as int, tp.1 as int) == schema_part(str_opt_view(tp.0.0)) + (
            accept_part(accept_opt_view(tp.0.1)) + (hint_part(tp.0.2) + (refs_part(
                refs_opt_view(tp.0.3),
            ) + "}"@)))
            &&& match tp.0.3 {
                Some(rs) => forall|q: int|
                    0 <= q < rs@.len() ==> keys_unique(#[trigger] maps_view(rs@)[q]),
                None => true,
            }
        },
        forall|ev: EnvelopeView|
            #![trigger tail_schema(ev)]
            view_wf(ev) && lit_at(v@, pos as int, tail_schema(ev)) && pos + tail_schema(ev).len()
                == v@.len() ==> (r matches Ok(tp) && ev.schema_uri == str_opt_view(tp.0.0)
                && ev.accept == accept_opt_view(tp.0.1) && ev.payload_hint == tp.0.2
                && ev.payload_refs == refs_opt_view(tp.0.3)),
{
    proof {
        lemma_member_lit_facts();
    }
    let schema: Option<String>;
    let p: usize;
    match expect_lit(v, pos, ",\"schema_uri\":") {
        Some(p2) => {
            proof {
                assert forall|ev: EnvelopeView|
                    #![trigger tail_schema(ev)]
                    view_wf(ev) && lit_at(v@, pos as int, tail_schema(ev)) implies ev.schema_uri
                    is Some && lit_at(v@, p2 as int, quoted(ev.schema_uri->0)) by {
                    lemma_schema_slot(v@, pos as int, ev);
                    if ev.schema_uri is None {
                        assert(false);
                    }
                }
            }
            match parse_qstring(v, p2) {
                Some((u, p3)) => {
                    proof {
                        assert forall|ev: EnvelopeView|
                            #![trigger tail_schema(ev)]
                            view_wf(ev) && lit_at(v@, pos as int, tail_schema(ev)) implies
                            ev.schema_uri == Some(u@) && lit_at(v@, p3 as int, tail_accept(ev))
                            && pos + tail_schema(ev).len() == p3 + tail_accept(ev).len() by {
                            lemma_schema_slot(v@, pos as int, ev);
                        }
                    }
                    schema = Some(u);
                    p = p3;
                },
                None => {
                    proof {
                        assert forall|ev: EnvelopeView|
                            #![trigger tail_schema(ev)]
                            !(view_wf(ev) && lit_at(v@, pos as int, tail_schema(ev))) by {
                            if view_wf(ev) && lit_at(v@, pos as int, tail_schema(ev)) {
                                lemma_schema_slot(v@, pos as int, ev);
                                assert(false);
                            }
                        }
                    }
                    return Err(false);
                },
            }
        },
        None => {
            proof {
                assert forall|ev: EnvelopeView|
                    #![trigger tail_schema(ev)]
                    view_wf(ev) && lit_at(v@, pos as int, tail_schema(ev)) implies ev.schema_uri
                    is None && lit_at(v@, pos as int, tail_accept(ev)) && pos + tail_schema(
                        ev,
                    ).len() == pos + tail_accept(ev).len() by {
                    lemma_schema_slot(v@, pos as int, ev);
                    if ev.schema_uri is Some {
                        assert(false);
                    }
                    assert(tail_schema(ev) =~= tail_accept(ev));
                }
            }
            schema = None;
            p = pos;
        },
    }
    let ((accept, hint, refs), pz) = match parse_tail_accept(v, p) {
        Ok(x) => x,
        Err(unknown) => {
            proof {
                assert forall|ev: EnvelopeView|
                    #![trigger tail_schema(ev)]
                    !(view_wf(ev) && lit_at(v@, pos as int, tail_schema(ev)) && pos + tail_schema(
                        ev,
                    ).len() == v@.len()) by {}
            }
            return Err(unknown);
        },
    };
    proof {
        assert(v@.subrange(pos as int, pz as int) =~= schema_part(str_opt_view(schema)) + (
        accept_part(accept_opt_view(accept)) + (hint_part(hint) + (refs_part(refs_opt_view(refs))
            + "}"@))));
    }
    Ok(((schema, accept, hint, refs), pz))
}

/// Read the optional members and the closing brace of an envelope, through
/// the end of the text. On the tail of any well-formed envelope's wire text
/// the call succeeds and returns exactly that envelope's optional members.
#[verifier::rlimit(100)]
#[verifier::spinoff_prover]
fn parse_tail(v: &Vec<char>, pos: usize) -> (r: Result<
    (
        (
            Option<StringMap>,
            Option<String>,
            Option<Vec<String>>,
            Option<PayloadHint>,
            Option<Vec<StringMap>>,
        ),
        usize,
    ),
    bool,
>)
    requires
        pos <= v@.len(),
    ensures
        r matches Ok(tp) ==> {
            &&& tp.1 == v@.len()
            &&& v@.subrange(pos as int, tp.1 as int) == caps_part(map_opt_view(tp.0.0)) + (
            schema_part(str_opt_view(tp.0.1)) + (accept_part(accept_opt_view(tp.0.2)) + (hint_part(
                tp.0.3,
            ) + (refs_part(refs_opt_view(tp.0.4)) + "}"@))))
            &&& match tp.0.0 {
                Some(m) => keys_unique(m@),
                None => true,
            }
            &&& match tp.0.4 {
                Some(rs) => forall|q: int|
                    0 <= q < rs@.len() ==> keys_unique(#[trigger] maps_view(rs@)[q]),
                None => true,
            }
        },
        forall|ev: EnvelopeView|
            #![trigger tail_caps(ev)]
            view_wf(ev) && lit_at(v@, pos as int, tail_caps(ev)) && pos + tail_caps(ev).len()
                == v@.len() ==> (r matches Ok(tp) && ev.capabilities == map_opt_view(tp.0.0)
                && ev.schema_uri == str_opt_view(tp.0.1) && ev.accept == accept_opt_view(tp.0.2)
                && ev.payload_hint == tp.0.3 && ev.payload_refs == refs_opt_view(tp.0.4)),
{
    proof {
        lemma_member_lit_facts();
    }
    let caps: Option<StringMap>;
    let p: usize;
    match expect_lit(v, pos, ",\"capabilities\":") {
        Some(p2) => {
            proof {
                assert forall|ev: EnvelopeView|
                    #![trigger tail_caps(ev)]
                    view_wf(ev) && lit_at(v@, pos as int, tail_caps(ev)) implies ev.capabilities
                    is Some && keys_unique(ev.capabilities->0) && lit_at(
                    v@,
                    p2 as int,
                    obj_str(ev.capabilities->0),
                ) by {
                    lemma_caps_slot(v@, pos as int, ev);
                    if ev.capabilities is None {
                        assert(false);
                    }
                }
            }
            match parse_map(v, p2) {
                Some((m, p3)) => {
                    proof {
                        use_type_invariant(&m);
                        assert forall|ev: EnvelopeView|
                            #![trigger tail_caps(ev)]
                            view_wf(ev) && lit_at(v@, pos as int, tail_caps(ev)) implies
                            ev.capabilities == Some(m@) && lit_at(v@, p3 as int, tail_schema(ev))
                            && pos + tail_caps(ev).len() == p3 + tail_schema(ev).len() by {
                            lemma_caps_slot(v@, pos as int, ev);
                        }
                    }
                    caps = Some(m);
                    p = p3;
                },
                None => {
                    proof {
                        assert forall|ev: EnvelopeView|
                            #![trigger tail_caps(ev)]
                            !(view_wf(ev) && lit_at(v@, pos as int, tail_caps(ev))) by {
                            if view_wf(ev) && lit_at(v@, pos as int, tail_caps(ev)) {
                                lemma_caps_slot(v@, pos as int, ev);
                                assert(false);
                            }
                        }
                    }
                    return Err(false);
                },
            }
        },
        None => {
            proof {
                assert forall|ev: EnvelopeView|
                    #![trigger tail_caps(ev)]
                    view_wf(ev) && lit_at(v@, pos as int, tail_caps(ev)) implies ev.capabilities
                    is None && lit_at(v@, pos as int, tail_schema(ev)) && pos + tail_caps(ev).len()
                    == pos + tail_schema(ev).len() by {
                    lemma_caps_slot(v@, pos as int, ev);
                    if ev.capabilities is Some {
                        assert(false);
                    }
                    assert(tail_caps(ev) =~= tail_schema(ev));
                }
            }
            caps = None;
            p = pos;
        },
    }
    let ((schema, accept, hint, refs), pz) = match parse_tail_schema(v, p) {
        Ok(x) => x,
        Err(unknown) => {
            proof {
                assert forall|ev: EnvelopeView|
                    #![trigger tail_caps(ev)]
                    !(view_wf(ev) && lit_at(v@, pos as int, tail_caps(ev)) && pos + tail_caps(
                        ev,
                    ).len() == v@.len()) by {}
            }
            return Err(unknown);
        },
    };
    proof {
        assert(v@.subrange(pos as int, pz as int) =~= caps_part(map_opt_view(caps)) + (schema_part(
            str_opt_view(schema),
        ) + (accept_part(accept_opt_view(accept)) + (hint_part(hint) + (refs_part(
            refs_opt_view(refs),
        ) + "}"@)))));
    }
    Ok(((caps, schema, accept, hint, refs), pz))
}

impl Envelope {
    /// Deserialize an envelope from its canonical JSON wire text. The decoder
    /// accepts the wire text of every well-formed envelope and returns it
    /// field for field — composed with `serialize`, the round trip is exact.
    /// It reads the one canonical spelling only (the members in their fixed
    /// order, no extra white space); an unknown operation, payload type or
    /// encoding name is a validation error, any other rejection a
    /// serialization error.
    #[verifier::rlimit(100)]
    #[verifier::spinoff_prover]
    pub fn deserialize(json: &str) -> (r: Result<Envelope, UmicpError>)
        ensures
            r matches Ok(env) ==> json@ == spec_serialize(env@) && view_wf(env@),
            forall|ev: EnvelopeView|
                #![trigger spec_serialize(ev)]
                view_wf(ev) && json@ == spec_serialize(ev) ==> (r matches Ok(env) && env@ =~~= ev),
            r matches Err(e) ==> e is Serialization || e is Validation,
            r matches Err(e) && e is Validation && e.spec_message() == "Unknown operation type"@
                ==> unknown_op_header(json@),
    {
        let v = to_chars(json);
        let ((version, message_id, timestamp, from, to, op), ph) = match parse_header(&v) {
            Ok(x) => x,
            Err(unknown) => {
                if unknown {
                    return Err(UmicpError::validation("Unknown operation type"));
                } else {
                    proof {
                        reveal_strlit("Unknown operation type");
                        reveal_strlit("Failed to deserialize envelope");
                        assert("Unknown operation type"@.len() == 22);
                        assert("Failed to deserialize envelope"@.len() == 30);
                    }
                    return Err(UmicpError::serialization("Failed to deserialize envelope"));
                }
            },
        };
        proof {
            assert forall|ev: EnvelopeView|
                #![trigger spec_serialize(ev)]
                v@ == spec_serialize(ev) implies ph + tail_caps(ev).len() == v@.len() by {
                lemma_serialize_decompose(ev);
                assert(v@.len() == "{\"v\":"@.len() + header_rest1(ev).len());
            }
        }
        let ((caps, schema, accept, hint, refs), pz) = match parse_tail(&v, ph) {
            Ok(x) => x,
            Err(unknown) => {
                proof {
                    assert forall|ev: EnvelopeView|
                        #![trigger spec_serialize(ev)]
                        !(view_wf(ev) && v@ == spec_serialize(ev)) by {}
                }
                proof {
                    reveal_strlit("Unknown operation type");
                    reveal_strlit("Unknown payload type or encoding");
                    reveal_strlit("Failed to deserialize envelope");
                    assert("Unknown operation type"@.len() == 22);
                    assert("Unknown payload type or encoding"@.len() == 32);
                    assert("Failed to deserialize envelope"@.len() == 30);
                }
                if unknown {
                    return Err(UmicpError::validation("Unknown payload type or encoding"));
                } else {
                    return Err(UmicpError::serialization("Failed to deserialize envelope"));
                }
            },
        };
        let ghost caps_v = map_opt_view(caps);
        let ghost schema_v = str_opt_view(schema);
        let ghost accept_v = accept_opt_view(accept);
        let ghost refs_v = refs_opt_view(refs);
        let env = Envelope::assemble(
            version,
            message_id,
            timestamp,
            from,
            to,
            op,
            caps,
            schema,
            accept,
            hint,
            refs,
        );
        proof {
            let vv = v@;
            let h = header_flat(env@.version, env@.message_id, env@.timestamp, env@.from, env@.to, env@.operation);
            let c = caps_part(env@.capabilities);
            let sc = schema_part(env@.schema_uri);
            let a = accept_part(env@.accept);
            let hi = hint_part(env@.payload_hint);
            let re = refs_part(env@.payload_refs);
            let b = "}"@;
            assert(vv =~= vv.subrange(0, ph as int) + vv.subrange(ph as int, pz as int));
            assert(vv.subrange(0, ph as int) == h);
            assert(vv.subrange(ph as int, pz as int) == c + (sc + (a + (hi + (re + b)))));
            vstd::seq_lib::lemma_concat_associative(h + c + sc + a + hi, re, b);
            vstd::seq_lib::lemma_concat_associative(h + c + sc + a, hi, re + b);
            vstd::seq_lib::lemma_concat_associative(h + c + sc, a, hi + (re + b));
            vstd::seq_lib::lemma_concat_associative(h + c, sc, a + (hi + (re + b)));
            vstd::seq_lib::lemma_concat_associative(h, c, sc + (a + (hi + (re + b))));
            assert(spec_serialize(env@) == h + c + sc + a + hi + re + b);
            assert(spec_serialize(env@) == h + (c + (sc + (a + (hi + (re + b))))));
            assert(vv == spec_serialize(env@));
            assert forall|ev: EnvelopeView|
                #![trigger spec_serialize(ev)]
                view_wf(ev) && json@ == spec_serialize(ev) implies env@ =~~= ev by {}
        }
        Ok(env)
    }
}

/// `lemma_escape_snoc` restated for this module's proofs.
proof fn lemma_escape_snoc_here(t: Seq<char>, c: char)
    ensures
        json_escape(t.push(c)) == json_escape(t) + esc_char(c),
{
    crate::codec::lemma_escape_snoc(t, c);
}

} // verus!