use vstd::prelude::*;
use vstd::string::StrSliceExecFns;
use vstd::utf8::{
    valid_utf8, decode_utf8, is_ascii_chars, encode_utf8_valid_utf8, encode_utf8_decode_utf8,
    char_u32_cast,
};
use crate::error::Error;
use crate::text::{
    ascii_bytes, bytes_to_string, lemma_ascii_encode, is_digit, dec_digits, spec_parse_number,
    lemma_parse_number_of_dec, lemma_digits_end_bounds, lemma_dec_digits_shape, parse_digits_run,
    u64_to_dec,
};
use crate::urlenc::{find_in, find_in_exec, lemma_find_in_bounds, lemma_find_in_hit};

verus! {

/// A flat JSON document model: an object whose fields hold scalars. JSON
/// numbers are unsigned integers here (the wire format of fractional
/// numbers is out of reach of this library), and strings are kept to
/// printable ASCII without `"` or `\`, so that the writer never needs an
/// escape sequence.
pub enum JsonValueView {
    Null,
    Bool(bool),
    Int(u64),
    Str(Seq<char>),
}

#[derive(Debug, PartialEq, Eq)]
pub enum JsonValue {
    Null,
    Bool(bool),
    Int(u64),
    Str(String),
}

impl View for JsonValue {
    type V = JsonValueView;

    open spec fn view(&self) -> JsonValueView {
        match self {
            JsonValue::Null => JsonValueView::Null,
            JsonValue::Bool(b) => JsonValueView::Bool(*b),
            JsonValue::Int(n) => JsonValueView::Int(*n),
            JsonValue::Str(s) => JsonValueView::Str(s@),
        }
    }
}

/// An object: named fields in order.
#[derive(Debug, PartialEq, Eq)]
pub struct JsonObject {
    pub entries: Vec<(String, JsonValue)>,
}

pub open spec fn entries_view(es: Seq<(String, JsonValue)>) -> Seq<(Seq<char>, JsonValueView)> {
    es.map_values(|e: (String, JsonValue)| (e.0@, e.1@))
}

impl View for JsonObject {
    type V = Seq<(Seq<char>, JsonValueView)>;

    open spec fn view(&self) -> Seq<(Seq<char>, JsonValueView)> {
        entries_view(self.entries@)
    }
}

/// A character the writer can emit verbatim inside quotes: printable
/// ASCII, no quote, no backslash.
pub open spec fn wf_char(c: char) -> bool {
    ' ' <= c <= '~' && c != '"' && c != '\\'
}

pub open spec fn wf_text(s: Seq<char>) -> bool {
    forall|i: int| 0 <= i < s.len() ==> wf_char(#[trigger] s[i])
}

pub open spec fn wf_value(v: JsonValueView) -> bool {
    match v {
        JsonValueView::Str(s) => wf_text(s),
        _ => true,
    }
}

pub open spec fn wf_object(o: Seq<(Seq<char>, JsonValueView)>) -> bool {
    forall|i: int| 0 <= i < o.len() ==> wf_text((#[trigger] o[i]).0) && wf_value(o[i].1)
}

pub proof fn lemma_wf_ascii(s: Seq<char>)
    requires
        wf_text(s),
    ensures
        is_ascii_chars(s),
{
    assert forall|i: int| 0 <= i < s.len() implies '\0' <= #[trigger] s[i] <= '\u{7f}' by {
        assert(wf_char(s[i]));
    }
}

pub open spec fn render_string(s: Seq<char>) -> Seq<u8> {
    seq![34u8] + ascii_bytes(s) + seq![34u8]
}

pub open spec fn render_value(v: JsonValueView) -> Seq<u8> {
    match v {
        JsonValueView::Null => seq![110u8, 117u8, 108u8, 108u8],
        JsonValueView::Bool(b) => if b {
            seq![116u8, 114u8, 117u8, 101u8]
        } else {
            seq![102u8, 97u8, 108u8, 115u8, 101u8]
        },
        JsonValueView::Int(n) => dec_digits(n as nat),
        JsonValueView::Str(s) => render_string(s),
    }
}

pub open spec fn render_entry(e: (Seq<char>, JsonValueView)) -> Seq<u8> {
    render_string(e.0) + seq![58u8] + render_value(e.1)
}

pub open spec fn render_entries(o: Seq<(Seq<char>, JsonValueView)>) -> Seq<u8>
    decreases o.len(),
{
    if o.len() == 0 {
        Seq::empty()
    } else if o.len() == 1 {
        render_entry(o[0])
    } else {
        render_entry(o[0]) + seq![44u8] + render_entries(o.drop_first())
    }
}

/// The canonical wire form of an object: no whitespace, fields in order.
pub open spec fn render_object(o: Seq<(Seq<char>, JsonValueView)>) -> Seq<u8> {
    seq![123u8] + render_entries(o) + seq![125u8]
}

/// A quoted string starting at `i`: everything up to the next quote,
/// which must contain no backslash (this reader takes the canonical form
/// the writer emits: no escape sequences) and must be valid UTF-8.
pub open spec fn parse_string_at(bytes: Seq<u8>, i: int) -> Option<(Seq<char>, int)> {
    if 0 <= i < bytes.len() && bytes[i] == 34 {
        let e = find_in(bytes, i + 1, bytes.len() as int, 34);
        if e < bytes.len() {
            let content = bytes.subrange(i + 1, e);
            if (forall|k: int| 0 <= k < content.len() ==> content[k] != 92) && valid_utf8(
                content,
            ) {
                Some((decode_utf8(content), e + 1))
            } else {
                None
            }
        } else {
            None
        }
    } else {
        None
    }
}

/// A scalar value starting at `i`: a quoted string, `null`, `true`,
/// `false`, or an unsigned decimal number.
pub open spec fn parse_value_at(bytes: Seq<u8>, i: int) -> Option<(JsonValueView, int)> {
    if i < 0 || i >= bytes.len() {
        None
    } else if bytes[i] == 34 {
        match parse_string_at(bytes, i) {
            Some(p) => Some((JsonValueView::Str(p.0), p.1)),
            None => None,
        }
    } else if bytes[i] == 110 {
        if i + 4 <= bytes.len() && bytes[i + 1] == 117 && bytes[i + 2] == 108 && bytes[i + 3]
            == 108 {
            Some((JsonValueView::Null, i + 4))
        } else {
            None
        }
    } else if bytes[i] == 116 {
        if i + 4 <= bytes.len() && bytes[i + 1] == 114 && bytes[i + 2] == 117 && bytes[i + 3]
            == 101 {
            Some((JsonValueView::Bool(true), i + 4))
        } else {
            None
        }
    } else if bytes[i] == 102 {
        if i + 5 <= bytes.len() && bytes[i + 1] == 97 && bytes[i + 2] == 108 && bytes[i + 3]
            == 115 && bytes[i + 4] == 101 {
            Some((JsonValueView::Bool(false), i + 5))
        } else {
            None
        }
    } else if is_digit(bytes[i]) {
        match spec_parse_number(bytes, i) {
            Some(p) => Some((JsonValueView::Int(p.0), p.1)),
            None => None,
        }
    } else {
        None
    }
}

pub proof fn lemma_parse_string_advances(bytes: Seq<u8>, i: int)
    ensures
        match parse_string_at(bytes, i) {
            Some(p) => i + 2 <= p.1 <= bytes.len(),
            None => true,
        },
{
    if parse_string_at(bytes, i) is Some {
        lemma_find_in_bounds(bytes, i + 1, bytes.len() as int, 34);
    }
}

pub proof fn lemma_parse_value_advances(bytes: Seq<u8>, i: int)
    ensures
        match parse_value_at(bytes, i) {
            Some(p) => i + 1 <= p.1 <= bytes.len(),
            None => true,
        },
{
    if parse_value_at(bytes, i) is Some {
        if 0 <= i < bytes.len() {
            if bytes[i] == 34 {
                lemma_parse_string_advances(bytes, i);
            } else if is_digit(bytes[i]) {
                lemma_digits_end_bounds(bytes, i);
            }
        }
    }
}

/// One or more `"key":value` entries separated by commas, stopping before
/// whatever follows the last one.
pub open spec fn parse_entries_at(bytes: Seq<u8>, i: int) -> Option<
    (Seq<(Seq<char>, JsonValueView)>, int),
>
    decreases bytes.len() - i,
    via parse_entries_decreases
{
    match parse_string_at(bytes, i) {
        None => None,
        Some(kp) => {
            if kp.1 < bytes.len() && bytes[kp.1] == 58 {
                match parse_value_at(bytes, kp.1 + 1) {
                    None => None,
                    Some(vp) => {
                        if vp.1 < bytes.len() && bytes[vp.1] == 44 {
                            match parse_entries_at(bytes, vp.1 + 1) {
                                None => None,
                                Some(rp) => Some((seq![(kp.0, vp.0)] + rp.0, rp.1)),
                            }
                        } else {
                            Some((seq![(kp.0, vp.0)], vp.1))
                        }
                    },
                }
            } else {
                None
            }
        },
    }
}

#[via_fn]
proof fn parse_entries_decreases(bytes: Seq<u8>, i: int) {
    lemma_parse_string_advances(bytes, i);
    match parse_string_at(bytes, i) {
        None => {},
        Some(kp) => {
            if kp.1 < bytes.len() && bytes[kp.1] == 58 {
                lemma_parse_value_advances(bytes, kp.1 + 1);
            }
        },
    }
}

/// A whole object starting at `i`.
pub open spec fn parse_object_at(bytes: Seq<u8>, i: int) -> Option<
    (Seq<(Seq<char>, JsonValueView)>, int),
> {
    if 0 <= i < bytes.len() && bytes[i] == 123 {
        if i + 1 < bytes.len() && bytes[i + 1] == 125 {
            Some((Seq::empty(), i + 2))
        } else {
            match parse_entries_at(bytes, i + 1) {
                None => None,
                Some(ep) => if ep.1 < bytes.len() && bytes[ep.1] == 125 {
                    Some((ep.0, ep.1 + 1))
                } else {
                    None
                },
            }
        }
    } else {
        None
    }
}

/// A whole document: one object covering the entire input.
pub open spec fn parse_document(bytes: Seq<u8>) -> Option<Seq<(Seq<char>, JsonValueView)>> {
    match parse_object_at(bytes, 0) {
        Some(ep) => if ep.1 == bytes.len() {
            Some(ep.0)
        } else {
            None
        },
        None => None,
    }
}

fn check_wf_text(s: &String) -> (r: bool)
    ensures
        r == wf_text(s@),
{
    if !s.as_str().is_ascii() {
        proof {
            if wf_text(s@) {
                lemma_wf_ascii(s@);
            }
        }
        return false;
    }
    proof {
        lemma_ascii_encode(s@);
    }
    let bytes = s.as_str().as_bytes_vec();
    let mut k: usize = 0;
    while k < bytes.len()
        invariant
            k <= bytes@.len(),
            is_ascii_chars(s@),
            bytes@ == ascii_bytes(s@),
            forall|j: int| 0 <= j < k ==> wf_char(#[trigger] s@[j]),
        decreases bytes@.len() - k,
    {
        let b = bytes[k];
        proof {
            assert(b == s@[k as int] as u8);
            assert('\0' <= s@[k as int] <= '\u{7f}');
        }
        if b < 32 || b > 126 || b == 34 || b == 92 {
            return false;
        }
        k = k + 1;
    }
    true
}

fn check_wf_value(v: &JsonValue) -> (r: bool)
    ensures
        r == wf_value(v@),
{
    match v {
        JsonValue::Str(s) => check_wf_text(s),
        _ => true,
    }
}

fn check_wf_object(o: &JsonObject) -> (r: bool)
    ensures
        r == wf_object(o@),
{
    let mut i: usize = 0;
    while i < o.entries.len()
        invariant
            i <= o.entries@.len(),
            forall|j: int|
                0 <= j < i ==> wf_text((#[trigger] o@[j]).0) && wf_value(o@[j].1),
        decreases o.entries@.len() - i,
    {
        proof {
            assert(o@[i as int] == (o.entries@[i as int].0@, o.entries@[i as int].1@));
        }
        if !check_wf_text(&o.entries[i].0) {
            return false;
        }
        if !check_wf_value(&o.entries[i].1) {
            return false;
        }
        i = i + 1;
    }
    true
}

fn push_string(out: &mut Vec<u8>, s: &String)
    requires
        wf_text(s@),
    ensures
        final(out)@ =~= old(out)@ + render_string(s@),
{
    proof {
        lemma_wf_ascii(s@);
        lemma_ascii_encode(s@);
    }
    out.push(34);
    let mut bytes = s.as_str().as_bytes_vec();
    out.append(&mut bytes);
    out.push(34);
}

fn push_value(out: &mut Vec<u8>, v: &JsonValue)
    requires
        wf_value(v@),
    ensures
        final(out)@ =~= old(out)@ + render_value(v@),
{
    match v {
        JsonValue::Null => {
            out.push(110);
            out.push(117);
            out.push(108);
            out.push(108);
        },
        JsonValue::Bool(b) => {
            if *b {
                out.push(116);
                out.push(114);
                out.push(117);
                out.push(101);
            } else {
                out.push(102);
                out.push(97);
                out.push(108);
                out.push(115);
                out.push(101);
            }
        },
        JsonValue::Int(n) => {
            let mut d = u64_to_dec(*n);
            out.append(&mut d);
        },
        JsonValue::Str(s) => {
            push_string(out, s);
        },
    }
}

fn push_entries(out: &mut Vec<u8>, entries: &Vec<(String, JsonValue)>, i: usize)
    requires
        i <= entries@.len(),
        wf_object(entries_view(entries@)),
    ensures
        final(out)@ =~= old(out)@ + render_entries(entries_view(entries@).skip(i as int)),
    decreases entries@.len() - i,
{
    let ghost o = entries_view(entries@);
    if i < entries.len() {
        proof {
            assert(o[i as int] == (entries@[i as int].0@, entries@[i as int].1@));
            assert(o.skip(i as int)[0] == o[i as int]);
        }
        push_string(out, &entries[i].0);
        out.push(58);
        push_value(out, &entries[i].1);
        if i + 1 < entries.len() {
            out.push(44);
            push_entries(out, entries, i + 1);
            proof {
                assert(o.skip(i as int).drop_first() =~= o.skip(i as int + 1));
                assert(render_entries(o.skip(i as int)) == render_entry(o[i as int])
                    + seq![44u8] + render_entries(o.skip(i as int + 1)));
            }
        } else {
            proof {
                assert(o.skip(i as int).len() == 1);
                assert(render_entries(o.skip(i as int)) == render_entry(o[i as int]));
            }
        }
    } else {
        proof {
            assert(o.skip(i as int) =~= Seq::<(Seq<char>, JsonValueView)>::empty());
        }
    }
}

/// Writes an object in its canonical wire form. Fails, with a conversion
/// error, exactly when the object holds text the writer cannot emit.
pub fn to_json_bytes(o: &JsonObject) -> (r: Result<Vec<u8>, Error>)
    ensures
        wf_object(o@) ==> r is Ok && r->Ok_0@ == render_object(o@),
        !wf_object(o@) ==> r == Err::<Vec<u8>, Error>(Error::Conversion),
{
    if !check_wf_object(o) {
        return Err(Error::Conversion);
    }
    let mut out: Vec<u8> = Vec::new();
    out.push(123);
    push_entries(&mut out, &o.entries, 0);
    out.push(125);
    proof {
        assert(entries_view(o.entries@).skip(0) =~= o@);
        assert(out@ =~= render_object(o@));
    }
    Ok(out)
}

fn parse_string_exec(bytes: &Vec<u8>, i: usize) -> (r: Option<(String, usize)>)
    ensures
        match r {
            Some(p) => parse_string_at(bytes@, i as int) == Some((p.0@, p.1 as int)),
            None => parse_string_at(bytes@, i as int) is None,
        },
{
    if i >= bytes.len() || bytes[i] != 34 {
        return None;
    }
    let e = find_in_exec(bytes, i + 1, bytes.len(), 34);
    if e >= bytes.len() {
        return None;
    }
    let ghost content = bytes@.subrange(i as int + 1, e as int);
    let mut taken: Vec<u8> = Vec::new();
    let mut k: usize = i + 1;
    while k < e
        invariant
            i + 1 <= k <= e < bytes@.len(),
            bytes@[i as int] == 34,
            e == find_in(bytes@, i as int + 1, bytes@.len() as int, 34),
            content == bytes@.subrange(i as int + 1, e as int),
            taken@ =~= bytes@.subrange(i as int + 1, k as int),
            forall|j: int| i + 1 <= j < k ==> bytes@[j] != 92,
        decreases e - k,
    {
        if bytes[k] == 92 {
            proof {
                let e2 = find_in(bytes@, i as int + 1, bytes@.len() as int, 34);
                assert(e2 == e);
                let c2 = bytes@.subrange(i as int + 1, e2);
                assert(c2[k - i - 1] == 92);
                assert(!(forall|j: int| 0 <= j < c2.len() ==> c2[j] != 92)) by {
                    assert(0 <= k - i - 1 < c2.len() && c2[k - i - 1] == 92);
                }
            }
            return None;
        }
        taken.push(bytes[k]);
        k = k + 1;
    }
    proof {
        assert(taken@ =~= content);
        assert forall|j: int| 0 <= j < content.len() implies content[j] != 92 by {
            assert(content[j] == bytes@[i + 1 + j]);
        }
    }
    match bytes_to_string(taken) {
        Some(s) => Some((s, e + 1)),
        None => None,
    }
}

fn parse_value_exec(bytes: &Vec<u8>, i: usize) -> (r: Option<(JsonValue, usize)>)
    ensures
        match r {
            Some(p) => parse_value_at(bytes@, i as int) == Some((p.0@, p.1 as int)),
            None => parse_value_at(bytes@, i as int) is None,
        },
{
    if i >= bytes.len() {
        return None;
    }
    let b = bytes[i];
    if b == 34 {
        match parse_string_exec(bytes, i) {
            Some(p) => Some((JsonValue::Str(p.0), p.1)),
            None => None,
        }
    } else if b == 110 {
        if bytes.len() - i >= 4 && bytes[i + 1] == 117 && bytes[i + 2] == 108 && bytes[i + 3]
            == 108 {
            Some((JsonValue::Null, i + 4))
        } else {
            None
        }
    } else if b == 116 {
        if bytes.len() - i >= 4 && bytes[i + 1] == 114 && bytes[i + 2] == 117 && bytes[i + 3]
            == 101 {
            Some((JsonValue::Bool(true), i + 4))
        } else {
            None
        }
    } else if b == 102 {
        if bytes.len() - i >= 5 && bytes[i + 1] == 97 && bytes[i + 2] == 108 && bytes[i + 3]
            == 115 && bytes[i + 4] == 101 {
            Some((JsonValue::Bool(false), i + 5))
        } else {
            None
        }
    } else if 48 <= b && b <= 57 {
        match parse_digits_run(bytes, i) {
            Some(p) => Some((JsonValue::Int(p.0), p.1)),
            None => None,
        }
    } else {
        None
    }
}

fn parse_entries_exec(bytes: &Vec<u8>, i: usize) -> (r: Option<(Vec<(String, JsonValue)>, usize)>)
    ensures
        match r {
            Some(p) => parse_entries_at(bytes@, i as int) == Some((entries_view(p.0@), p.1 as int)),
            None => parse_entries_at(bytes@, i as int) is None,
        },
    decreases bytes@.len() - i,
{
    proof {
        lemma_parse_string_advances(bytes@, i as int);
    }
    match parse_string_exec(bytes, i) {
        None => None,
        Some((key, p1)) => {
            if p1 < bytes.len() && bytes[p1] == 58 {
                proof {
                    lemma_parse_value_advances(bytes@, p1 as int + 1);
                }
                match parse_value_exec(bytes, p1 + 1) {
                    None => None,
                    Some((value, p2)) => {
                        if p2 < bytes.len() && bytes[p2] == 44 {
                            match parse_entries_exec(bytes, p2 + 1) {
                                None => None,
                                Some((rest, p3)) => {
                                    let mut out = rest;
                                    out.insert(0, (key, value));
                                    proof {
                                        assert(entries_view(out@) =~= seq![(key@, value@)]
                                            + entries_view(out@.subrange(1, out@.len() as int)));
                                    }
                                    Some((out, p3))
                                },
                            }
                        } else {
                            let mut out: Vec<(String, JsonValue)> = Vec::new();
                            out.push((key, value));
                            proof {
                                assert(entries_view(out@) =~= seq![(key@, value@)]);
                            }
                            Some((out, p2))
                        }
                    },
                }
            } else {
                None
            }
        },
    }
}

/// Reads a whole document. Fails, with a client-input error, exactly when
/// the bytes are not a well-formed document.
pub fn parse_json(bytes: &Vec<u8>) -> (r: Result<JsonObject, Error>)
    ensures
        match r {
            Ok(o) => parse_document(bytes@) == Some(o@),
            Err(e) => parse_document(bytes@) is None && e == Error::ClientInput,
        },
{
    if bytes.len() == 0 || bytes[0] != 123 {
        return Err(Error::ClientInput);
    }
    if bytes.len() >= 2 && bytes[1] == 125 {
        if bytes.len() == 2 {
            let o = JsonObject { entries: Vec::new() };
            proof {
                assert(o@ =~= Seq::<(Seq<char>, JsonValueView)>::empty());
            }
            return Ok(o);
        } else {
            return Err(Error::ClientInput);
        }
    }
    match parse_entries_exec(bytes, 1) {
        None => Err(Error::ClientInput),
        Some((es, p)) => {
            if p < bytes.len() && bytes[p] == 125 && p + 1 == bytes.len() {
                Ok(JsonObject { entries: es })
            } else {
                Err(Error::ClientInput)
            }
        },
    }
}

proof fn lemma_parse_string_of_render(bytes: Seq<u8>, i: int, s: Seq<char>)
    requires
        wf_text(s),
        0 <= i,
        i + s.len() + 2 <= bytes.len(),
        bytes.subrange(i, i + s.len() + 2) == render_string(s),
    ensures
        parse_string_at(bytes, i) == Some((s, i + s.len() + 2)),
{
    let rs = render_string(s);
    let e = i + 1 + s.len();
    lemma_wf_ascii(s);
    lemma_ascii_encode(s);
    assert(bytes[i] == rs[0]);
    assert(bytes[i] == 34);
    assert forall|k: int| i + 1 <= k < e implies bytes[k] != 34 && bytes[k] != 92 by {
        assert(bytes[k] == rs[k - i]);
        assert(rs[k - i] == ascii_bytes(s)[k - i - 1]);
        let c = s[k - i - 1];
        assert(wf_char(c));
        char_u32_cast(c, c as u32);
        char_u32_cast('"', '"' as u32);
        char_u32_cast('\\', '\\' as u32);
        assert(c as u32 <= 126);
        if c as u8 == 34 {
            assert(c as u32 == 34);
            assert(c == '"');
        }
        if c as u8 == 92 {
            assert(c as u32 == 92);
            assert(c == '\\');
        }
    }
    assert(bytes[e] == rs[e - i]);
    assert(bytes[e] == 34);
    lemma_find_in_hit(bytes, i + 1, bytes.len() as int, 34, e);
    let content = bytes.subrange(i + 1, e);
    assert forall|k: int| 0 <= k < content.len() implies content[k] == ascii_bytes(s)[k] by {
        assert(content[k] == bytes[i + 1 + k]);
        assert(bytes[i + 1 + k] == bytes.subrange(i, i + s.len() + 2)[k + 1]);
        assert(rs[k + 1] == ascii_bytes(s)[k]);
    }
    assert(content =~= ascii_bytes(s));
    assert(ascii_bytes(s) == vstd::utf8::encode_utf8(s));
    encode_utf8_valid_utf8(s);
    encode_utf8_decode_utf8(s);
    assert(forall|k: int| 0 <= k < content.len() ==> content[k] != 92);
}

proof fn lemma_parse_value_of_render(bytes: Seq<u8>, i: int, v: JsonValueView)
    requires
        wf_value(v),
        0 <= i,
        i + render_value(v).len() <= bytes.len(),
        bytes.subrange(i, i + render_value(v).len() as int) == render_value(v),
        i + render_value(v).len() == bytes.len() || !is_digit(
            bytes[i + render_value(v).len() as int],
        ),
    ensures
        parse_value_at(bytes, i) == Some((v, i + render_value(v).len())),
{
    let rv = render_value(v);
    let l = rv.len() as int;
    assert(forall|k: int| 0 <= k < l ==> bytes[i + k] == rv[k]);
    match v {
        JsonValueView::Null => {
            assert(bytes[i] == 110);
        },
        JsonValueView::Bool(b) => {
            if b {
                assert(bytes[i] == 116);
            } else {
                assert(bytes[i] == 102);
            }
        },
        JsonValueView::Int(n) => {
            lemma_dec_digits_shape(n as nat);
            assert(bytes[i] == dec_digits(n as nat)[0]);
            assert(is_digit(bytes[i]));
            assert(bytes.subrange(i, i + l) =~= dec_digits(n as nat));
            lemma_parse_number_of_dec(bytes, i, n as nat);
        },
        JsonValueView::Str(s) => {
            assert(bytes[i] == render_string(s)[0]);
            assert(bytes[i] == 34);
            lemma_parse_string_of_render(bytes, i, s);
        },
    }
}

proof fn lemma_parse_entries_of_render(bytes: Seq<u8>, i: int, o: Seq<(Seq<char>, JsonValueView)>)
    requires
        wf_object(o),
        o.len() >= 1,
        0 <= i,
        i + render_entries(o).len() <= bytes.len(),
        bytes.subrange(i, i + render_entries(o).len() as int) == render_entries(o),
        i + render_entries(o).len() < bytes.len(),
        bytes[i + render_entries(o).len() as int] == 125,
    ensures
        parse_entries_at(bytes, i) == Some((o, i + render_entries(o).len())),
    decreases o.len(),
{
    let re = render_entries(o);
    let l = re.len() as int;
    assert(forall|k: int| 0 <= k < l ==> bytes[i + k] == re[k]);
    let key = o[0].0;
    let value = o[0].1;
    assert(wf_text(key) && wf_value(value));
    let ls = key.len() + 2;
    let lv = render_value(value).len();
    let entry = render_entry(o[0]);
    assert(entry == render_string(key) + seq![58u8] + render_value(value));
    assert(entry.len() == ls + 1 + lv);
    if o.len() == 1 {
        assert(re == entry);
        assert forall|m: int| 0 <= m < ls implies bytes.subrange(i, i + ls as int)[m]
            == render_string(key)[m] by {
            assert(bytes.subrange(i, i + ls as int)[m] == bytes[i + m]);
            assert(re[m] == entry[m]);
            assert(entry[m] == render_string(key)[m]);
        }
        assert(bytes.subrange(i, i + ls as int) =~= render_string(key));
        lemma_parse_string_of_render(bytes, i, key);
        let p1 = i + ls;
        assert(bytes[p1] == re[ls as int]);
        assert(bytes[p1] == 58);
        assert forall|m: int| 0 <= m < lv implies bytes.subrange(p1 + 1, p1 + 1 + lv as int)[m]
            == render_value(value)[m] by {
            assert(bytes.subrange(p1 + 1, p1 + 1 + lv as int)[m] == bytes[p1 + 1 + m]);
            assert(re[ls + 1 + m] == entry[ls + 1 + m]);
            assert(entry[ls + 1 + m] == render_value(value)[m]);
        }
        assert(bytes.subrange(p1 + 1, p1 + 1 + lv as int) =~= render_value(value));
        assert(p1 + 1 + lv == i + l);
        assert(bytes[i + l] == 125);
        assert(!is_digit(125));
        lemma_parse_value_of_render(bytes, p1 + 1, value);
        let p2 = p1 + 1 + lv;
        assert(bytes[p2] == 125);
        assert(seq![(key, value)] =~= o);
    } else {
        let rest = o.drop_first();
        let re_rest = render_entries(rest);
        assert(re == entry + seq![44u8] + re_rest);
        assert forall|m: int| 0 <= m < entry.len() implies re[m] == entry[m] by {
            assert(re[m] == (entry + seq![44u8])[m]);
        }
        assert forall|m: int| 0 <= m < ls implies bytes.subrange(i, i + ls as int)[m]
            == render_string(key)[m] by {
            assert(bytes.subrange(i, i + ls as int)[m] == bytes[i + m]);
            assert(entry[m] == render_string(key)[m]);
        }
        assert(bytes.subrange(i, i + ls as int) =~= render_string(key));
        lemma_parse_string_of_render(bytes, i, key);
        let p1 = i + ls;
        assert(bytes[p1] == re[ls as int]);
        assert(bytes[p1] == 58);
        assert forall|m: int| 0 <= m < lv implies bytes.subrange(p1 + 1, p1 + 1 + lv as int)[m]
            == render_value(value)[m] by {
            assert(bytes.subrange(p1 + 1, p1 + 1 + lv as int)[m] == bytes[p1 + 1 + m]);
            assert(re[ls + 1 + m] == entry[ls + 1 + m]);
            assert(entry[ls + 1 + m] == render_value(value)[m]);
        }
        assert(bytes.subrange(p1 + 1, p1 + 1 + lv as int) =~= render_value(value));
        let p2 = p1 + 1 + lv;
        assert(bytes[p2] == re[entry.len() as int]);
        assert(bytes[p2] == (entry + seq![44u8])[entry.len() as int]);
        assert(bytes[p2] == 44);
        assert(!is_digit(44));
        lemma_parse_value_of_render(bytes, p1 + 1, value);
        assert(wf_object(rest)) by {
            assert(forall|j: int|
                0 <= j < rest.len() ==> rest[j] == o[j + 1] && wf_text((#[trigger] rest[j]).0)
                    && wf_value(rest[j].1));
        }
        assert forall|m: int| 0 <= m < re_rest.len() implies bytes.subrange(
            p2 + 1,
            p2 + 1 + re_rest.len() as int,
        )[m] == re_rest[m] by {
            assert(bytes.subrange(p2 + 1, p2 + 1 + re_rest.len() as int)[m] == bytes[p2 + 1 + m]);
            assert(re[entry.len() + 1 + m] == re_rest[m]);
        }
        assert(bytes.subrange(p2 + 1, p2 + 1 + re_rest.len() as int) =~= re_rest);
        assert(p2 + 1 + re_rest.len() == i + l);
        lemma_parse_entries_of_render(bytes, p2 + 1, rest);
        assert(seq![(key, value)] + rest =~= o);
    }
}

/// Writing an object and reading the bytes back yields the object again:
/// the reader is a left inverse of the writer on well-formed objects.
pub proof fn lemma_json_round_trip(o: Seq<(Seq<char>, JsonValueView)>)
    requires
        wf_object(o),
    ensures
        parse_document(render_object(o)) == Some(o),
{
    let bytes = render_object(o);
    let re = render_entries(o);
    let l = re.len() as int;
    assert(bytes.len() == l + 2);
    assert(bytes[0] == 123);
    assert(bytes[l + 1] == 125);
    if o.len() == 0 {
        assert(re == Seq::<u8>::empty());
        assert(bytes[1] == 125);
        assert(parse_object_at(bytes, 0) == Some((Seq::<(Seq<char>, JsonValueView)>::empty(), 2int)));
        assert(Seq::<(Seq<char>, JsonValueView)>::empty() =~= o);
    } else {
        assert(re[0] == render_entry(o[0])[0]);
        assert(render_entry(o[0])[0] == render_string(o[0].0)[0]);
        assert(bytes[1] == re[0]);
        assert(bytes[1] == 34);
        assert(bytes.subrange(1, 1 + l) =~= re);
        lemma_parse_entries_of_render(bytes, 1, o);
        assert(parse_object_at(bytes, 0) == Some((o, l + 2)));
    }
}

} // verus!
