use vstd::prelude::*;
use vstd::utf8::{valid_utf8, decode_utf8, is_ascii_chars};
use crate::text::{ascii_bytes, bytes_to_string, lemma_ascii_encode};

verus! {

/// URL-encoded key/value data, as it appears in a query string or a form
/// body: pairs separated by `&`, key and value separated by the first `=`,
/// `+` standing for a space and `%XX` for the byte `XX`; the decoded bytes
/// of each component must form valid UTF-8.

pub open spec fn is_hex(b: u8) -> bool {
    (48 <= b <= 57) || (65 <= b <= 70) || (97 <= b <= 102)
}

pub open spec fn hex_val(b: u8) -> int {
    if 48 <= b <= 57 {
        b - 48
    } else if 65 <= b <= 70 {
        b - 55
    } else {
        b - 87
    }
}

/// The first position in `[i, end)` holding `sep`, or `end` if none does.
pub open spec fn find_in(bytes: Seq<u8>, i: int, end: int, sep: u8) -> int
    decreases end - i,
{
    if i < end && i < bytes.len() {
        if bytes[i] == sep {
            i
        } else {
            find_in(bytes, i + 1, end, sep)
        }
    } else {
        end
    }
}

pub proof fn lemma_find_in_bounds(bytes: Seq<u8>, i: int, end: int, sep: u8)
    requires
        i <= end,
    ensures
        i <= find_in(bytes, i, end, sep) <= end,
    decreases end - i,
{
    if i < end && i < bytes.len() && bytes[i] != sep {
        lemma_find_in_bounds(bytes, i + 1, end, sep);
    }
}

/// Where a run free of `sep` ends at a `sep` (or at `end`), the scan finds
/// exactly that position.
pub proof fn lemma_find_in_hit(bytes: Seq<u8>, i: int, end: int, sep: u8, e: int)
    requires
        0 <= i <= e <= end <= bytes.len(),
        forall|k: int| i <= k < e ==> bytes[k] != sep,
        e == end || bytes[e] == sep,
    ensures
        find_in(bytes, i, end, sep) == e,
    decreases e - i,
{
    if i < e {
        lemma_find_in_hit(bytes, i + 1, end, sep, e);
    }
}

/// Percent-decoding of the range `[i, end)`: `%XX` becomes the byte `XX`,
/// `+` becomes a space, everything else stands for itself. Fails on a `%`
/// that is not followed by two hex digits.
pub open spec fn pct_decode(bytes: Seq<u8>, i: int, end: int) -> Option<Seq<u8>>
    decreases end - i,
{
    if i >= end {
        Some(Seq::empty())
    } else if bytes[i] == 37 {
        if i + 3 <= end && is_hex(bytes[i + 1]) && is_hex(bytes[i + 2]) {
            match pct_decode(bytes, i + 3, end) {
                Some(rest) => Some(
                    seq![(hex_val(bytes[i + 1]) * 16 + hex_val(bytes[i + 2])) as u8] + rest,
                ),
                None => None,
            }
        } else {
            None
        }
    } else {
        let b: u8 = if bytes[i] == 43 {
            32
        } else {
            bytes[i]
        };
        match pct_decode(bytes, i + 1, end) {
            Some(rest) => Some(seq![b] + rest),
            None => None,
        }
    }
}

/// A fully decoded component: percent-decoded bytes read as UTF-8 text.
pub open spec fn decode_component(bytes: Seq<u8>, i: int, end: int) -> Option<Seq<char>> {
    match pct_decode(bytes, i, end) {
        Some(bs) => if valid_utf8(bs) {
            Some(decode_utf8(bs))
        } else {
            None
        },
        None => None,
    }
}

/// The key/value pairs encoded from position `i` on. Empty `&`-segments
/// are skipped; a segment without `=` is a key with an empty value.
pub open spec fn parse_pairs(bytes: Seq<u8>, i: int) -> Option<Seq<(Seq<char>, Seq<char>)>>
    decreases bytes.len() - i,
    via parse_pairs_decreases
{
    if i >= bytes.len() {
        Some(Seq::empty())
    } else {
        let j = find_in(bytes, i, bytes.len() as int, 38);
        if j == i {
            parse_pairs(bytes, i + 1)
        } else {
            let eq = find_in(bytes, i, j, 61);
            let vstart = if eq < j {
                eq + 1
            } else {
                j
            };
            let next = if j < bytes.len() {
                j + 1
            } else {
                j
            };
            match (decode_component(bytes, i, eq), decode_component(bytes, vstart, j)) {
                (Some(k), Some(v)) => match parse_pairs(bytes, next) {
                    Some(rest) => Some(seq![(k, v)] + rest),
                    None => None,
                },
                _ => None,
            }
        }
    }
}

#[via_fn]
proof fn parse_pairs_decreases(bytes: Seq<u8>, i: int) {
    if i < bytes.len() {
        lemma_find_in_bounds(bytes, i, bytes.len() as int, 38);
        let j = find_in(bytes, i, bytes.len() as int, 38);
        if j != i {
            lemma_find_in_bounds(bytes, i, j, 61);
        }
    }
}

/// The pairs of a query string (or of a form body already known to be
/// text): the text must be ASCII, as URL-encoded data is.
pub open spec fn text_pairs(q: Seq<char>) -> Option<Seq<(Seq<char>, Seq<char>)>> {
    if is_ascii_chars(q) {
        parse_pairs(ascii_bytes(q), 0)
    } else {
        None
    }
}

/// The value under the first pair whose key is `key`, if any.
pub open spec fn lookup_pair(pairs: Seq<(Seq<char>, Seq<char>)>, key: Seq<char>) -> Option<
    Seq<char>,
>
    decreases pairs.len(),
{
    if pairs.len() == 0 {
        None
    } else if pairs[0].0 == key {
        Some(pairs[0].1)
    } else {
        lookup_pair(pairs.drop_first(), key)
    }
}

/// The view of decoded pairs.
pub open spec fn pairs_view(pairs: Seq<(String, String)>) -> Seq<(Seq<char>, Seq<char>)> {
    pairs.map_values(|p: (String, String)| (p.0@, p.1@))
}

pub(crate) fn find_in_exec(bytes: &Vec<u8>, i: usize, end: usize, sep: u8) -> (r: usize)
    requires
        i <= end <= bytes@.len(),
    ensures
        r == find_in(bytes@, i as int, end as int, sep),
        i <= r <= end,
{
    let mut k: usize = i;
    while k < end && bytes[k] != sep
        invariant
            i <= k <= end <= bytes@.len(),
            find_in(bytes@, i as int, end as int, sep) == find_in(bytes@, k as int, end as int, sep),
        decreases end - k,
    {
        k = k + 1;
    }
    k
}

fn hex_digit(b: u8) -> (r: Option<u8>)
    ensures
        r is Some <==> is_hex(b),
        r is Some ==> r->0 == hex_val(b),
{
    if 48 <= b && b <= 57 {
        Some(b - 48)
    } else if 65 <= b && b <= 70 {
        Some(b - 55)
    } else if 97 <= b && b <= 102 {
        Some(b - 87)
    } else {
        None
    }
}

fn pct_decode_exec(bytes: &Vec<u8>, i: usize, end: usize) -> (r: Option<Vec<u8>>)
    requires
        i <= end <= bytes@.len(),
    ensures
        match r {
            Some(v) => pct_decode(bytes@, i as int, end as int) == Some(v@),
            None => pct_decode(bytes@, i as int, end as int) is None,
        },
    decreases end - i,
{
    if i >= end {
        Some(Vec::new())
    } else if bytes[i] == 37 {
        if end - i >= 3 {
            let h1 = hex_digit(bytes[i + 1]);
            let h2 = hex_digit(bytes[i + 2]);
            match (h1, h2) {
                (Some(a), Some(b)) => match pct_decode_exec(bytes, i + 3, end) {
                    Some(rest) => {
                        let mut v = rest;
                        v.insert(0, a * 16 + b);
                        Some(v)
                    },
                    None => None,
                },
                _ => None,
            }
        } else {
            None
        }
    } else {
        let b: u8 = if bytes[i] == 43 {
            32
        } else {
            bytes[i]
        };
        match pct_decode_exec(bytes, i + 1, end) {
            Some(rest) => {
                let mut v = rest;
                v.insert(0, b);
                Some(v)
            },
            None => None,
        }
    }
}

fn decode_component_exec(bytes: &Vec<u8>, i: usize, end: usize) -> (r: Option<String>)
    requires
        i <= end <= bytes@.len(),
    ensures
        match r {
            Some(s) => decode_component(bytes@, i as int, end as int) == Some(s@),
            None => decode_component(bytes@, i as int, end as int) is None,
        },
{
    match pct_decode_exec(bytes, i, end) {
        Some(bs) => bytes_to_string(bs),
        None => None,
    }
}

fn parse_pairs_exec(bytes: &Vec<u8>, i: usize) -> (r: Option<Vec<(String, String)>>)
    requires
        i <= bytes@.len(),
    ensures
        match r {
            Some(v) => parse_pairs(bytes@, i as int) == Some(pairs_view(v@)),
            None => parse_pairs(bytes@, i as int) is None,
        },
    decreases bytes@.len() - i,
{
    if i >= bytes.len() {
        let v: Vec<(String, String)> = Vec::new();
        proof {
            assert(pairs_view(v@) =~= Seq::<(Seq<char>, Seq<char>)>::empty());
        }
        Some(v)
    } else {
        let j = find_in_exec(bytes, i, bytes.len(), 38);
        if j == i {
            parse_pairs_exec(bytes, i + 1)
        } else {
            let eq = find_in_exec(bytes, i, j, 61);
            let vstart: usize = if eq < j {
                eq + 1
            } else {
                j
            };
            let next: usize = if j < bytes.len() {
                j + 1
            } else {
                j
            };
            let key = decode_component_exec(bytes, i, eq);
            let value = decode_component_exec(bytes, vstart, j);
            match (key, value) {
                (Some(k), Some(v)) => match parse_pairs_exec(bytes, next) {
                    Some(rest) => {
                        let mut out = rest;
                        out.insert(0, (k, v));
                        proof {
                            assert(pairs_view(out@) =~= seq![(k@, v@)] + pairs_view(
                                out@.drop_first(),
                            ));
                            assert(out@.drop_first() =~= out@.subrange(1, out@.len() as int));
                        }
                        Some(out)
                    },
                    None => None,
                },
                _ => None,
            }
        }
    }
}

/// Decodes URL-encoded text into its key/value pairs: fails when the text
/// is not ASCII, a `%` escape is malformed, or a decoded component is not
/// valid UTF-8.
pub fn decode_text_pairs(q: &String) -> (r: Option<Vec<(String, String)>>)
    ensures
        match r {
            Some(v) => text_pairs(q@) == Some(pairs_view(v@)),
            None => text_pairs(q@) is None,
        },
{
    if !q.as_str().is_ascii() {
        return None;
    }
    let bytes = q.as_str().as_bytes_vec();
    proof {
        lemma_ascii_encode(q@);
    }
    parse_pairs_exec(&bytes, 0)
}

/// Decodes URL-encoded bytes (a form body) into key/value pairs.
pub fn decode_bytes_pairs(bytes: &Vec<u8>) -> (r: Option<Vec<(String, String)>>)
    ensures
        match r {
            Some(v) => parse_pairs(bytes@, 0) == Some(pairs_view(v@)),
            None => parse_pairs(bytes@, 0) is None,
        },
{
    parse_pairs_exec(bytes, 0)
}

/// Looks up the value under `key` among decoded pairs: the first pair with
/// that key wins.
pub fn lookup_value(pairs: &Vec<(String, String)>, key: &String) -> (r: Option<String>)
    ensures
        match r {
            Some(s) => lookup_pair(pairs_view(pairs@), key@) == Some(s@),
            None => lookup_pair(pairs_view(pairs@), key@) is None,
        },
{
    proof {
        assert(pairs_view(pairs@).skip(0) =~= pairs_view(pairs@));
    }
    let mut i: usize = 0;
    while i < pairs.len()
        invariant
            i <= pairs@.len(),
            lookup_pair(pairs_view(pairs@), key@) == lookup_pair(
                pairs_view(pairs@).skip(i as int),
                key@,
            ),
        decreases pairs@.len() - i,
    {
        proof {
            assert(pairs_view(pairs@).skip(i as int).len() == pairs@.len() - i);
            assert(pairs_view(pairs@).skip(i as int)[0] == pairs_view(pairs@)[i as int]);
            assert(pairs_view(pairs@)[i as int] == (pairs@[i as int].0@, pairs@[i as int].1@));
        }
        if pairs[i].0 == *key {
            return Some(pairs[i].1.clone());
        }
        proof {
            assert(pairs_view(pairs@).skip(i as int).drop_first() =~= pairs_view(pairs@).skip(
                i as int + 1,
            ));
        }
        i = i + 1;
    }
    proof {
        assert(pairs_view(pairs@).skip(i as int) =~= Seq::<(Seq<char>, Seq<char>)>::empty());
    }
    None
}

} // verus!
