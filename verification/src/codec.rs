//! The canonical wire form of an envelope and its codec. `serialize` renders
//! an envelope as one JSON object with short field names, absent optional
//! fields omitted; `deserialize` parses exactly that canonical text back.
//! The specification functions here pin the wire text down to the character,
//! and the decoder is proved to accept every serialized envelope and return
//! it unchanged.

use vstd::prelude::*;
use vstd::string::StringSliceAdditionalSpecFns;

use crate::envelope::Envelope;
use crate::envelope::EnvelopeView;
use crate::error::UmicpError;
use crate::strutil::dec_str;
use crate::strutil::push_char;
use crate::strutil::push_dec;
use crate::types::encoding_wire_name;
use crate::types::keys_unique;
use crate::types::op_wire_name;
use crate::types::payload_type_wire_name;
use crate::types::PayloadHint;
use crate::types::StringMap;
use crate::utils::generate_hash;
use crate::utils::hex_of;
use crate::utils::sha256_of;

verus! {

/// How one character is written inside a JSON string: quote and backslash are
/// escaped with a backslash, control characters with a four-digit escape,
/// everything else stands for itself.
pub open spec fn esc_char(c: char) -> Seq<char> {
    if c == '"' {
        seq!['\\', '"']
    } else if c == '\\' {
        seq!['\\', '\\']
    } else if (c as u32) < 32 {
        seq![
            '\\',
            'u',
            '0',
            '0',
            crate::utils::hex_digit((c as u32 / 16) as nat),
            crate::utils::hex_digit((c as u32 % 16) as nat),
        ]
    } else {
        seq![c]
    }
}

/// The escaped body of a JSON string.
pub open spec fn json_escape(s: Seq<char>) -> Seq<char>
    decreases s.len(),
{
    if s.len() == 0 {
        Seq::empty()
    } else {
        esc_char(s[0]) + json_escape(s.drop_first())
    }
}

/// A JSON string: the escaped body between double quotes.
pub open spec fn quoted(s: Seq<char>) -> Seq<char> {
    seq!['"'] + json_escape(s) + seq!['"']
}

/// Parts joined by commas.
pub open spec fn join_comma(parts: Seq<Seq<char>>) -> Seq<char>
    decreases parts.len(),
{
    if parts.len() == 0 {
        Seq::empty()
    } else if parts.len() == 1 {
        parts[0]
    } else {
        parts[0] + seq![','] + join_comma(parts.drop_first())
    }
}

/// One `"key":"value"` member of a JSON object.
pub open spec fn entry_str(e: (Seq<char>, Seq<char>)) -> Seq<char> {
    quoted(e.0) + seq![':'] + quoted(e.1)
}

/// The member texts of a key/value sequence.
pub open spec fn entry_strs(es: Seq<(Seq<char>, Seq<char>)>) -> Seq<Seq<char>> {
    Seq::new(es.len(), |i: int| entry_str(es[i]))
}

/// A JSON object of string members, in entry order.
pub open spec fn obj_str(es: Seq<(Seq<char>, Seq<char>)>) -> Seq<char> {
    seq!['{'] + join_comma(entry_strs(es)) + seq!['}']
}

/// The item texts of an array of strings.
pub open spec fn quoted_items(ss: Seq<Seq<char>>) -> Seq<Seq<char>> {
    Seq::new(ss.len(), |i: int| quoted(ss[i]))
}

/// A JSON array of strings.
pub open spec fn arr_str(ss: Seq<Seq<char>>) -> Seq<char> {
    seq!['['] + join_comma(quoted_items(ss)) + seq![']']
}

/// The item texts of an array of string objects.
pub open spec fn obj_items(rs: Seq<Seq<(Seq<char>, Seq<char>)>>) -> Seq<Seq<char>> {
    Seq::new(rs.len(), |i: int| obj_str(rs[i]))
}

/// A JSON array of string objects.
pub open spec fn refs_str(rs: Seq<Seq<(Seq<char>, Seq<char>)>>) -> Seq<char> {
    seq!['['] + join_comma(obj_items(rs)) + seq![']']
}

/// The wire object of a payload hint: its type, then whichever of size,
/// encoding and count are present, in that order.
pub open spec fn hint_str(h: PayloadHint) -> Seq<char> {
    "{\"type\":"@ + quoted(payload_type_wire_name(h.payload_type)) + (match h.size {
        Some(n) => ",\"size\":"@ + dec_str(n as nat),
        None => Seq::empty(),
    }) + (match h.encoding {
        Some(e) => ",\"encoding\":"@ + quoted(encoding_wire_name(e)),
        None => Seq::empty(),
    }) + (match h.count {
        Some(n) => ",\"count\":"@ + dec_str(n as nat),
        None => Seq::empty(),
    }) + "}"@
}

/// The capabilities member of the wire object, empty when absent.
pub open spec fn caps_part(c: Option<Seq<(Seq<char>, Seq<char>)>>) -> Seq<char> {
    match c {
        Some(m) => ",\"capabilities\":"@ + obj_str(m),
        None => Seq::empty(),
    }
}

/// The schema URI member of the wire object, empty when absent.
pub open spec fn schema_part(u: Option<Seq<char>>) -> Seq<char> {
    match u {
        Some(s) => ",\"schema_uri\":"@ + quoted(s),
        None => Seq::empty(),
    }
}

/// The accept member of the wire object, empty when absent.
pub open spec fn accept_part(a: Option<Seq<Seq<char>>>) -> Seq<char> {
    match a {
        Some(ss) => ",\"accept\":"@ + arr_str(ss),
        None => Seq::empty(),
    }
}

/// The payload hint member of the wire object, empty when absent.
pub open spec fn hint_part(h: Option<PayloadHint>) -> Seq<char> {
    match h {
        Some(hint) => ",\"payload_hint\":"@ + hint_str(hint),
        None => Seq::empty(),
    }
}

/// The payload references member of the wire object, empty when absent.
pub open spec fn refs_part(r: Option<Seq<Seq<(Seq<char>, Seq<char>)>>>) -> Seq<char> {
    match r {
        Some(rs) => ",\"payload_refs\":"@ + refs_str(rs),
        None => Seq::empty(),
    }
}

/// The canonical wire text of an envelope: one JSON object holding `v`,
/// `msg_id`, `ts`, `from`, `to` and `op` always, and each optional member
/// only when the envelope carries it.
pub open spec fn spec_serialize(ev: EnvelopeView) -> Seq<char> {
    "{\"v\":"@ + quoted(ev.version) + ",\"msg_id\":"@ + quoted(ev.message_id) + ",\"ts\":"@
        + quoted(ev.timestamp) + ",\"from\":"@ + quoted(ev.from) + ",\"to\":"@ + quoted(ev.to)
        + ",\"op\":"@ + quoted(op_wire_name(ev.operation)) + caps_part(ev.capabilities)
        + schema_part(ev.schema_uri) + accept_part(ev.accept) + hint_part(ev.payload_hint)
        + refs_part(ev.payload_refs) + "}"@
}

/// The wire text from the capabilities member on.
pub open spec fn tail_caps(ev: EnvelopeView) -> Seq<char> {
    caps_part(ev.capabilities) + tail_schema(ev)
}

/// The wire text from the schema URI member on.
pub open spec fn tail_schema(ev: EnvelopeView) -> Seq<char> {
    schema_part(ev.schema_uri) + tail_accept(ev)
}

/// The wire text from the accept member on.
pub open spec fn tail_accept(ev: EnvelopeView) -> Seq<char> {
    accept_part(ev.accept) + tail_hint(ev)
}

/// The wire text from the payload hint member on.
pub open spec fn tail_hint(ev: EnvelopeView) -> Seq<char> {
    hint_part(ev.payload_hint) + tail_refs(ev)
}

/// The wire text from the payload references member on.
pub open spec fn tail_refs(ev: EnvelopeView) -> Seq<char> {
    refs_part(ev.payload_refs) + "}"@
}

/// The wire text from the version value on.
pub open spec fn header_rest1(ev: EnvelopeView) -> Seq<char> {
    quoted(ev.version) + header_rest2(ev)
}

/// The wire text from the message id member on.
pub open spec fn header_rest2(ev: EnvelopeView) -> Seq<char> {
    ",\"msg_id\":"@ + header_rest3(ev)
}

/// The wire text from the message id value on.
pub open spec fn header_rest3(ev: EnvelopeView) -> Seq<char> {
    quoted(ev.message_id) + header_rest4(ev)
}

/// The wire text from the timestamp member on.
pub open spec fn header_rest4(ev: EnvelopeView) -> Seq<char> {
    ",\"ts\":"@ + header_rest5(ev)
}

/// The wire text from the timestamp value on.
pub open spec fn header_rest5(ev: EnvelopeView) -> Seq<char> {
    quoted(ev.timestamp) + header_rest6(ev)
}

/// The wire text from the sender member on.
pub open spec fn header_rest6(ev: EnvelopeView) -> Seq<char> {
    ",\"from\":"@ + header_rest7(ev)
}

/// The wire text from the sender value on.
pub open spec fn header_rest7(ev: EnvelopeView) -> Seq<char> {
    quoted(ev.from) + header_rest8(ev)
}

/// The wire text from the recipient member on.
pub open spec fn header_rest8(ev: EnvelopeView) -> Seq<char> {
    ",\"to\":"@ + header_rest9(ev)
}

/// The wire text from the recipient value on.
pub open spec fn header_rest9(ev: EnvelopeView) -> Seq<char> {
    quoted(ev.to) + header_rest10(ev)
}

/// The wire text from the operation member on.
pub open spec fn header_rest10(ev: EnvelopeView) -> Seq<char> {
    ",\"op\":"@ + header_rest11(ev)
}

/// The wire text from the operation value on.
pub open spec fn header_rest11(ev: EnvelopeView) -> Seq<char> {
    quoted(op_wire_name(ev.operation)) + tail_caps(ev)
}

/// The wire text, right-nested for piecewise reading.
#[verifier::spinoff_prover]
pub proof fn lemma_serialize_decompose(ev: EnvelopeView)
    ensures
        spec_serialize(ev) == "{\"v\":"@ + header_rest1(ev),
{
    let p1 = "{\"v\":"@;
    let p2 = quoted(ev.version);
    let p3 = ",\"msg_id\":"@;
    let p4 = quoted(ev.message_id);
    let p5 = ",\"ts\":"@;
    let p6 = quoted(ev.timestamp);
    let p7 = ",\"from\":"@;
    let p8 = quoted(ev.from);
    let p9 = ",\"to\":"@;
    let p10 = quoted(ev.to);
    let p11 = ",\"op\":"@;
    let p12 = quoted(op_wire_name(ev.operation));
    let p13 = caps_part(ev.capabilities);
    let p14 = schema_part(ev.schema_uri);
    let p15 = accept_part(ev.accept);
    let p16 = hint_part(ev.payload_hint);
    let p17 = refs_part(ev.payload_refs);
    let p18 = "}"@;
    vstd::seq_lib::lemma_concat_associative(
        p1 + p2 + p3 + p4 + p5 + p6 + p7 + p8 + p9 + p10 + p11 + p12 + p13 + p14 + p15 + p16,
        p17,
        p18,
    );
    vstd::seq_lib::lemma_concat_associative(
        p1 + p2 + p3 + p4 + p5 + p6 + p7 + p8 + p9 + p10 + p11 + p12 + p13 + p14 + p15,
        p16,
        p17 + p18,
    );
    vstd::seq_lib::lemma_concat_associative(
        p1 + p2 + p3 + p4 + p5 + p6 + p7 + p8 + p9 + p10 + p11 + p12 + p13 + p14,
        p15,
        p16 + (p17 + p18),
    );
    vstd::seq_lib::lemma_concat_associative(
        p1 + p2 + p3 + p4 + p5 + p6 + p7 + p8 + p9 + p10 + p11 + p12 + p13,
        p14,
        p15 + (p16 + (p17 + p18)),
    );
    vstd::seq_lib::lemma_concat_associative(
        p1 + p2 + p3 + p4 + p5 + p6 + p7 + p8 + p9 + p10 + p11 + p12,
        p13,
        p14 + (p15 + (p16 + (p17 + p18))),
    );
    vstd::seq_lib::lemma_concat_associative(
        p1 + p2 + p3 + p4 + p5 + p6 + p7 + p8 + p9 + p10 + p11,
        p12,
        p13 + (p14 + (p15 + (p16 + (p17 + p18)))),
    );
    vstd::seq_lib::lemma_concat_associative(
        p1 + p2 + p3 + p4 + p5 + p6 + p7 + p8 + p9 + p10,
        p11,
        p12 + (p13 + (p14 + (p15 + (p16 + (p17 + p18))))),
    );
    vstd::seq_lib::lemma_concat_associative(
        p1 + p2 + p3 + p4 + p5 + p6 + p7 + p8 + p9,
        p10,
        p11 + (p12 + (p13 + (p14 + (p15 + (p16 + (p17 + p18)))))),
    );
    vstd::seq_lib::lemma_concat_associative(
        p1 + p2 + p3 + p4 + p5 + p6 + p7 + p8,
        p9,
        p10 + (p11 + (p12 + (p13 + (p14 + (p15 + (p16 + (p17 + p18))))))),
    );
    vstd::seq_lib::lemma_concat_associative(
        p1 + p2 + p3 + p4 + p5 + p6 + p7,
        p8,
        p9 + (p10 + (p11 + (p12 + (p13 + (p14 + (p15 + (p16 + (p17 + p18)))))))),
    );
    vstd::seq_lib::lemma_concat_associative(
        p1 + p2 + p3 + p4 + p5 + p6,
        p7,
        p8 + (p9 + (p10 + (p11 + (p12 + (p13 + (p14 + (p15 + (p16 + (p17 + p18))))))))),
    );
    vstd::seq_lib::lemma_concat_associative(
        p1 + p2 + p3 + p4 + p5,
        p6,
        p7 + (p8 + (p9 + (p10 + (p11 + (p12 + (p13 + (p14 + (p15 + (p16 + (p17 + p18)))))))))),
    );
    vstd::seq_lib::lemma_concat_associative(
        p1 + p2 + p3 + p4,
        p5,
        p6 + (p7 + (p8 + (p9 + (p10 + (p11 + (p12 + (p13 + (p14 + (p15 + (p16 + (p17
            + p18))))))))))),
    );
    vstd::seq_lib::lemma_concat_associative(
        p1 + p2 + p3,
        p4,
        p5 + (p6 + (p7 + (p8 + (p9 + (p10 + (p11 + (p12 + (p13 + (p14 + (p15 + (p16 + (p17
            + p18)))))))))))),
    );
    vstd::seq_lib::lemma_concat_associative(
        p1 + p2,
        p3,
        p4 + (p5 + (p6 + (p7 + (p8 + (p9 + (p10 + (p11 + (p12 + (p13 + (p14 + (p15 + (p16 + (p17
            + p18))))))))))))),
    );
    vstd::seq_lib::lemma_concat_associative(
        p1,
        p2,
        p3 + (p4 + (p5 + (p6 + (p7 + (p8 + (p9 + (p10 + (p11 + (p12 + (p13 + (p14 + (p15 + (p16 + (
        p17 + p18)))))))))))))),
    );
}

/// The view well-formedness the codec relies on: capability keys unique, and
/// the keys of every payload reference map unique.
pub open spec fn view_wf(ev: EnvelopeView) -> bool {
    &&& match ev.capabilities {
        Some(c) => keys_unique(c),
        None => true,
    }
    &&& match ev.payload_refs {
        Some(rs) => forall|i: int| 0 <= i < rs.len() ==> keys_unique(#[trigger] rs[i]),
        None => true,
    }
}

/// The content hash of an envelope: the lowercase hexadecimal SHA-256 digest
/// of the UTF-8 bytes of its wire text.
pub open spec fn spec_hash(ev: EnvelopeView) -> Seq<char> {
    hex_of(sha256_of(vstd::utf8::encode_utf8(spec_serialize(ev))))
}

/// Escaping distributes over appending one character.
pub proof fn lemma_escape_snoc(t: Seq<char>, c: char)
    ensures
        json_escape(t.push(c)) == json_escape(t) + esc_char(c),
    decreases t.len(),
{
    if t.len() == 0 {
        assert(t.push(c).len() == 1);
        assert(t.push(c)[0] == c);
        assert(t.push(c).drop_first() =~= Seq::<char>::empty());
        assert(json_escape(t.push(c)) == esc_char(c) + json_escape(t.push(c).drop_first()));
        assert(json_escape(t.push(c).drop_first()) == Seq::<char>::empty());
        assert(json_escape(t) == Seq::<char>::empty());
        assert(json_escape(t.push(c)) =~= json_escape(t) + esc_char(c));
    } else {
        assert(t.push(c).drop_first() =~= t.drop_first().push(c));
        assert(t.push(c)[0] == t[0]);
        lemma_escape_snoc(t.drop_first(), c);
        assert(json_escape(t.push(c)) == esc_char(t[0]) + json_escape(t.drop_first().push(c)));
        assert(json_escape(t) == esc_char(t[0]) + json_escape(t.drop_first()));
        assert(json_escape(t.push(c)) =~= json_escape(t) + esc_char(c));
    }
}

/// Joining distributes over appending one part.
pub proof fn lemma_join_snoc(parts: Seq<Seq<char>>, p: Seq<char>)
    ensures
        join_comma(parts.push(p)) == if parts.len() == 0 {
            p
        } else {
            join_comma(parts) + seq![','] + p
        },
    decreases parts.len(),
{
    if parts.len() == 0 {
        assert(parts.push(p).len() == 1);
        assert(parts.push(p)[0] == p);
        assert(join_comma(parts.push(p)) == p);
    } else if parts.len() == 1 {
        assert(parts.push(p).len() == 2);
        assert(parts.push(p)[0] == parts[0]);
        assert(parts.push(p).drop_first() =~= seq![p]);
        assert(join_comma(parts.push(p)) == parts[0] + seq![','] + join_comma(seq![p]));
        assert(join_comma(seq![p]) == p);
        assert(join_comma(parts) == parts[0]);
        assert(join_comma(parts.push(p)) =~= join_comma(parts) + seq![','] + p);
    } else {
        assert(parts.push(p).drop_first() =~= parts.drop_first().push(p));
        assert(parts.push(p)[0] == parts[0]);
        assert(parts.push(p).len() == parts.len() + 1);
        lemma_join_snoc(parts.drop_first(), p);
        assert(join_comma(parts.push(p)) == parts[0] + seq![','] + join_comma(
            parts.drop_first().push(p),
        ));
        assert(join_comma(parts) == parts[0] + seq![','] + join_comma(parts.drop_first()));
        assert(join_comma(parts.push(p)) =~= join_comma(parts) + seq![','] + p);
    }
}

/// Append the escaped body of `s`.
fn append_escaped(out: &mut String, s: &str)
    ensures
        final(out)@ == old(out)@ + json_escape(s@),
{
    let len = s.unicode_len();
    let mut i: usize = 0;
    proof {
        assert(s@.take(0) =~= Seq::<char>::empty());
        assert(out@ =~= old(out)@ + json_escape(s@.take(0)));
    }
    while i < len
        invariant
            len == s@.len(),
            i <= len,
            out@ == old(out)@ + json_escape(s@.take(i as int)),
        decreases len - i,
    {
        let c = s.get_char(i);
        if c == '"' {
            out.append("\\\"");
            proof {
                reveal_strlit("\\\"");
                assert("\\\""@ =~= esc_char(s@[i as int]));
            }
        } else if c == '\\' {
            out.append("\\\\");
            proof {
                reveal_strlit("\\\\");
                assert("\\\\"@ =~= esc_char(s@[i as int]));
            }
        } else if (c as u32) < 32 {
            out.append("\\u00");
            let hi = crate::utils::hex_digit_char(((c as u32) / 16) as u8);
            let lo = crate::utils::hex_digit_char(((c as u32) % 16) as u8);
            push_char(out, hi);
            push_char(out, lo);
            proof {
                reveal_strlit("\\u00");
                assert("\\u00"@.len() == 4);
                assert("\\u00"@ + seq![hi, lo] =~= esc_char(s@[i as int]));
            }
        } else {
            push_char(out, c);
            proof {
                assert(seq![c] =~= esc_char(s@[i as int]));
            }
        }
        proof {
            assert(s@.take(i + 1 as int) =~= s@.take(i as int).push(s@[i as int]));
            lemma_escape_snoc(s@.take(i as int), s@[i as int]);
            assert(out@ =~= old(out)@ + json_escape(s@.take(i + 1 as int)));
        }
        i = i + 1;
    }
    proof {
        assert(s@.take(len as int) =~= s@);
    }
}

/// Append `s` as a JSON string.
fn append_quoted(out: &mut String, s: &str)
    ensures
        final(out)@ == old(out)@ + quoted(s@),
{
    push_char(out, '"');
    append_escaped(out, s);
    push_char(out, '"');
    proof {
        assert(final(out)@ =~= old(out)@ + quoted(s@));
    }
}

/// Append a string map as a JSON object, in entry order.
fn append_map(out: &mut String, m: &StringMap)
    ensures
        final(out)@ == old(out)@ + obj_str(m@),
        keys_unique(m@),
{
    proof {
        use_type_invariant(m);
    }
    push_char(out, '{');
    let n = m.len();
    let mut i: usize = 0;
    proof {
        assert(entry_strs(m@).take(0) =~= Seq::<Seq<char>>::empty());
        assert(out@ =~= old(out)@ + seq!['{'] + join_comma(entry_strs(m@).take(0)));
    }
    while i < n
        invariant
            n == m@.len(),
            i <= n,
            out@ == old(out)@ + seq!['{'] + join_comma(entry_strs(m@).take(i as int)),
        decreases n - i,
    {
        if i > 0 {
            push_char(out, ',');
        }
        append_quoted(out, m.key_at(i).as_str());
        push_char(out, ':');
        append_quoted(out, m.value_at(i).as_str());
        proof {
            assert(entry_strs(m@).take(i + 1 as int) =~= entry_strs(m@).take(i as int).push(
                entry_str(m@[i as int]),
            ));
            lemma_join_snoc(entry_strs(m@).take(i as int), entry_str(m@[i as int]));
            assert(out@ =~= old(out)@ + seq!['{'] + join_comma(entry_strs(m@).take(i + 1 as int)));
        }
        i = i + 1;
    }
    push_char(out, '}');
    proof {
        assert(entry_strs(m@).take(n as int) =~= entry_strs(m@));
        assert(final(out)@ =~= old(out)@ + obj_str(m@));
    }
}

/// Append accepted content types as a JSON array of strings.
fn append_accept(out: &mut String, a: &Vec<String>)
    ensures
        final(out)@ == old(out)@ + arr_str(crate::envelope::strings_view(a@)),
{
    let ghost ss = crate::envelope::strings_view(a@);
    let ghost items = Seq::new(ss.len(), |i: int| quoted(ss[i]));
    push_char(out, '[');
    let n = a.len();
    let mut i: usize = 0;
    proof {
        assert(items.take(0) =~= Seq::<Seq<char>>::empty());
        assert(out@ =~= old(out)@ + seq!['['] + join_comma(items.take(0)));
    }
    while i < n
        invariant
            n == a@.len(),
            ss == crate::envelope::strings_view(a@),
            items == Seq::new(ss.len(), |i: int| quoted(ss[i])),
            i <= n,
            out@ == old(out)@ + seq!['['] + join_comma(items.take(i as int)),
        decreases n - i,
    {
        if i > 0 {
            push_char(out, ',');
        }
        append_quoted(out, a[i].as_str());
        proof {
            assert(items.take(i + 1 as int) =~= items.take(i as int).push(quoted(ss[i as int])));
            lemma_join_snoc(items.take(i as int), quoted(ss[i as int]));
            assert(out@ =~= old(out)@ + seq!['['] + join_comma(items.take(i + 1 as int)));
        }
        i = i + 1;
    }
    push_char(out, ']');
    proof {
        assert(items.take(n as int) =~= items);
        assert(final(out)@ =~= old(out)@ + arr_str(ss));
    }
}

/// Append payload references as a JSON array of objects.
fn append_refs(out: &mut String, refs: &Vec<StringMap>)
    ensures
        final(out)@ == old(out)@ + refs_str(crate::envelope::maps_view(refs@)),
        forall|i: int|
            0 <= i < refs@.len() ==> keys_unique(#[trigger] crate::envelope::maps_view(refs@)[i]),
{
    let ghost rs = crate::envelope::maps_view(refs@);
    let ghost items = Seq::new(rs.len(), |i: int| obj_str(rs[i]));
    push_char(out, '[');
    let n = refs.len();
    let mut i: usize = 0;
    proof {
        assert(items.take(0) =~= Seq::<Seq<char>>::empty());
        assert(out@ =~= old(out)@ + seq!['['] + join_comma(items.take(0)));
    }
    while i < n
        invariant
            n == refs@.len(),
            rs == crate::envelope::maps_view(refs@),
            items == Seq::new(rs.len(), |i: int| obj_str(rs[i])),
            i <= n,
            out@ == old(out)@ + seq!['['] + join_comma(items.take(i as int)),
            forall|k: int| 0 <= k < i ==> keys_unique(#[trigger] rs[k]),
        decreases n - i,
    {
        if i > 0 {
            push_char(out, ',');
        }
        append_map(out, &refs[i]);
        proof {
            assert(items.take(i + 1 as int) =~= items.take(i as int).push(obj_str(rs[i as int])));
            lemma_join_snoc(items.take(i as int), obj_str(rs[i as int]));
            assert(out@ =~= old(out)@ + seq!['['] + join_comma(items.take(i + 1 as int)));
        }
        i = i + 1;
    }
    push_char(out, ']');
    proof {
        assert(items.take(n as int) =~= items);
        assert(final(out)@ =~= old(out)@ + refs_str(rs));
    }
}

/// Append a payload hint as its wire object.
#[verifier::rlimit(100)]
fn append_hint(out: &mut String, h: &PayloadHint)
    ensures
        final(out)@ == old(out)@ + hint_str(*h),
{
    out.append("{\"type\":");
    append_quoted(out, h.payload_type.wire_name());
    if let Some(n) = h.size {
        out.append(",\"size\":");
        push_dec(out, n);
    }
    if let Some(e) = h.encoding {
        out.append(",\"encoding\":");
        append_quoted(out, e.wire_name());
    }
    if let Some(n) = h.count {
        out.append(",\"count\":");
        push_dec(out, n);
    }
    out.append("}");
    proof {
        assert(final(out)@ =~= old(out)@ + hint_str(*h));
    }
}

impl Envelope {
    /// Serialize the envelope to its canonical JSON wire text. Two envelopes
    /// with the same fields serialize to the same text, character for
    /// character; serialization never fails and does not re-run validation.
    #[verifier::rlimit(100)]
    pub fn serialize(&self) -> (r: Result<String, UmicpError>)
        ensures
            r matches Ok(s) && s@ == spec_serialize(self@),
            view_wf(self@),
    {
        let mut out = String::new();
        out.append("{\"v\":");
        append_quoted(&mut out, self.version());
        out.append(",\"msg_id\":");
        append_quoted(&mut out, self.message_id());
        out.append(",\"ts\":");
        append_quoted(&mut out, self.timestamp());
        out.append(",\"from\":");
        append_quoted(&mut out, self.from());
        out.append(",\"to\":");
        append_quoted(&mut out, self.to());
        out.append(",\"op\":");
        append_quoted(&mut out, self.operation().wire_name());
        let ghost head = "{\"v\":"@ + quoted(self@.version) + ",\"msg_id\":"@ + quoted(
            self@.message_id,
        ) + ",\"ts\":"@ + quoted(self@.timestamp) + ",\"from\":"@ + quoted(self@.from) + ",\"to\":"@
            + quoted(self@.to) + ",\"op\":"@ + quoted(op_wire_name(self@.operation));
        proof {
            assert(out@ =~= head);
        }
        match self.capabilities() {
            Some(m) => {
                out.append(",\"capabilities\":");
                append_map(&mut out, m);
                proof {
                    assert(out@ =~= head + caps_part(self@.capabilities));
                }
            },
            None => {
                proof {
                    assert(out@ =~= head + caps_part(self@.capabilities));
                }
            },
        }
        let ghost head = head + caps_part(self@.capabilities);
        match self.schema_uri() {
            Some(u) => {
                out.append(",\"schema_uri\":");
                append_quoted(&mut out, u);
                proof {
                    assert(out@ =~= head + schema_part(self@.schema_uri));
                }
            },
            None => {
                proof {
                    assert(out@ =~= head + schema_part(self@.schema_uri));
                }
            },
        }
        let ghost head = head + schema_part(self@.schema_uri);
        match self.accept() {
            Some(a) => {
                out.append(",\"accept\":");
                append_accept(&mut out, a);
                proof {
                    assert(out@ =~= head + accept_part(self@.accept));
                }
            },
            None => {
                proof {
                    assert(out@ =~= head + accept_part(self@.accept));
                }
            },
        }
        let ghost head = head + accept_part(self@.accept);
        match self.payload_hint() {
            Some(h) => {
                out.append(",\"payload_hint\":");
                append_hint(&mut out, h);
                proof {
                    assert(out@ =~= head + hint_part(self@.payload_hint));
                }
            },
            None => {
                proof {
                    assert(out@ =~= head + hint_part(self@.payload_hint));
                }
            },
        }
        let ghost head = head + hint_part(self@.payload_hint);
        match self.payload_refs() {
            Some(rs) => {
                out.append(",\"payload_refs\":");
                append_refs(&mut out, rs);
                proof {
                    assert(out@ =~= head + refs_part(self@.payload_refs));
                }
            },
            None => {
                proof {
                    assert(out@ =~= head + refs_part(self@.payload_refs));
                }
            },
        }
        let ghost head = head + refs_part(self@.payload_refs);
        out.append("}");
        proof {
            assert(out@ =~= spec_serialize(self@));
        }
        Ok(out)
    }

    /// The content hash of the envelope: the lowercase hexadecimal SHA-256
    /// digest of its exact wire bytes. Envelopes that serialize identically
    /// hash identically.
    pub fn hash(&self) -> (r: Result<String, UmicpError>)
        ensures
            r matches Ok(h) && h@ == spec_hash(self@) && h@.len() == 64,
    {
        let serialized = match self.serialize() {
            Ok(s) => s,
            Err(e) => {
                return Err(e);
            },
        };
        let text = serialized.as_str();
        let h = generate_hash(text.as_bytes());
        proof {
            assert(text.spec_bytes() == vstd::utf8::encode_utf8(spec_serialize(self@)));
        }
        Ok(h)
    }
}

/// Hash determinism: envelopes whose wire texts agree hash alike.
pub proof fn lemma_hash_deterministic(a: EnvelopeView, b: EnvelopeView)
    requires
        spec_serialize(a) == spec_serialize(b),
    ensures
        spec_hash(a) == spec_hash(b),
{
}

} // verus!
