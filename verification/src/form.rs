//! Structural decoding of urlencoded form bodies, and the extraction of the
//! fields each route needs.
//!
//! A required field that is missing, or a body whose requested field cannot
//! be decoded, is a structural error: the route answers with an
//! unprocessable status and no message. A field that is present but fails a
//! business rule is the handlers' affair, not this module's.
//!
//! Decoding takes `+` as a space and `%hh` escapes as bytes: one escape
//! below `0x80` is an ASCII character, and consecutive escapes that spell
//! a well-formed multi-byte UTF-8 encoding are its character. Escapes that
//! spell no such encoding (a stray continuation byte, a truncated cluster,
//! an overlong encoding, a surrogate) make the field malformed. Characters
//! outside the ASCII range pass through unescaped. When a key occurs
//! twice, the first pair wins.

use vstd::prelude::*;
use vstd::utf8::{
    decode_first_codepoint, is_leading_byte_width_1, is_leading_byte_width_2,
    is_leading_byte_width_3, is_leading_byte_width_4, valid_first_scalar,
};
use crate::models::label::LabelForm;
use crate::models::task::{TaskName, TaskUpdate};
use crate::strutil::{digit_val, is_digit, push_char, spec_parse_i32};

verus! {

pub open spec fn is_hex_char(c: char) -> bool {
    is_digit(c) || (97 <= c as u32 <= 102) || (65 <= c as u32 <= 70)
}

/// Value of a hexadecimal digit character.
pub open spec fn hex_val(c: char) -> int
    recommends
        is_hex_char(c),
{
    if is_digit(c) {
        digit_val(c)
    } else if 97 <= c as u32 {
        c as u32 - 87
    } else {
        c as u32 - 55
    }
}

fn hex_val_exec(c: char) -> (r: u32)
    requires
        is_hex_char(c),
    ensures
        r == hex_val(c),
{
    let u = c as u32;
    if u >= 97 {
        u - 87
    } else if u >= 65 {
        u - 55
    } else {
        u - 48
    }
}

/// Whether a `%hh` escape stands at offset `j` of the component.
pub open spec fn is_escape(s: Seq<char>, j: int) -> bool {
    j + 3 <= s.len() && s[j] == '%' && is_hex_char(s[j + 1]) && is_hex_char(s[j + 2])
}

/// The byte the escape at offset `j` denotes.
pub open spec fn escape_byte(s: Seq<char>, j: int) -> u8
    recommends
        is_escape(s, j),
{
    (hex_val(s[j + 1]) * 16 + hex_val(s[j + 2])) as u8
}

/// How many bytes an encoding led by this byte takes; zero when the byte
/// can lead none.
pub open spec fn escape_width(b: u8) -> int {
    if is_leading_byte_width_1(b) {
        1
    } else if is_leading_byte_width_2(b) {
        2
    } else if is_leading_byte_width_3(b) {
        3
    } else if is_leading_byte_width_4(b) {
        4
    } else {
        0
    }
}

/// Whether `w` consecutive escapes stand at the head of the component.
pub open spec fn escape_cluster(s: Seq<char>, w: int) -> bool {
    &&& is_escape(s, 0)
    &&& w >= 2 ==> is_escape(s, 3)
    &&& w >= 3 ==> is_escape(s, 6)
    &&& w >= 4 ==> is_escape(s, 9)
}

/// The bytes of the `w` escapes at the head of the component.
pub open spec fn escape_cluster_bytes(s: Seq<char>, w: int) -> Seq<u8>
    recommends
        escape_cluster(s, w),
        1 <= w <= 4,
{
    if w <= 1 {
        seq![escape_byte(s, 0)]
    } else if w == 2 {
        seq![escape_byte(s, 0), escape_byte(s, 3)]
    } else if w == 3 {
        seq![escape_byte(s, 0), escape_byte(s, 3), escape_byte(s, 6)]
    } else {
        seq![escape_byte(s, 0), escape_byte(s, 3), escape_byte(s, 6), escape_byte(s, 9)]
    }
}

/// Percent-and-plus decoding of one form component, or nothing when the
/// component is malformed. A `%` must lead a run of escapes whose bytes
/// are a well-formed UTF-8 encoding of one scalar, which becomes one
/// character of the result.
pub open spec fn spec_decode(s: Seq<char>) -> Option<Seq<char>>
    decreases s.len(),
{
    if s.len() == 0 {
        Some(Seq::empty())
    } else if s[0] == '+' {
        match spec_decode(s.drop_first()) {
            Some(r) => Some(seq![' '] + r),
            None => None,
        }
    } else if s[0] == '%' {
        if is_escape(s, 0) {
            let w = escape_width(escape_byte(s, 0));
            let b = escape_cluster_bytes(s, w);
            if 1 <= w && 3 * w <= s.len() && escape_cluster(s, w) && valid_first_scalar(b) {
                match spec_decode(s.skip(3 * w)) {
                    Some(r) => Some(seq![decode_first_codepoint(b) as char] + r),
                    None => None,
                }
            } else {
                None
            }
        } else {
            None
        }
    } else {
        match spec_decode(s.drop_first()) {
            Some(r) => Some(seq![s[0]] + r),
            None => None,
        }
    }
}

/// Index of the first occurrence of a character, or the length when the
/// character does not occur.
pub open spec fn idx_of(s: Seq<char>, c: char) -> int
    decreases s.len(),
{
    if s.len() == 0 {
        0
    } else if s[0] == c {
        0
    } else {
        1 + idx_of(s.drop_first(), c)
    }
}

/// Where a scan settles, `idx_of` agrees.
pub proof fn lemma_idx_of_at(s: Seq<char>, c: char, j: int)
    requires
        0 <= j <= s.len(),
        forall|k: int| 0 <= k < j ==> s[k] != c,
        j < s.len() ==> s[j] == c,
    ensures
        idx_of(s, c) == j,
    decreases s.len(),
{
    if s.len() > 0 && s[0] != c {
        lemma_idx_of_at(s.drop_first(), c, j - 1);
    }
}

/// The segments of a body split on `&`.
pub open spec fn split_amp(s: Seq<char>) -> Seq<Seq<char>>
    decreases s.len(),
{
    let e = idx_of(s, '&');
    if 0 <= e < s.len() {
        seq![s.take(e)] + split_amp(s.skip(e + 1))
    } else {
        seq![s]
    }
}

/// The decoded value of the first pair whose decoded key matches, or
/// nothing when no pair matches or the matching pair's value is malformed.
pub open spec fn lookup(segs: Seq<Seq<char>>, key: Seq<char>) -> Option<Seq<char>>
    decreases segs.len(),
{
    if segs.len() == 0 {
        None
    } else {
        let g = segs[0];
        let e = idx_of(g, '=');
        let kraw = g.take(e);
        let vraw = if e < g.len() {
            g.skip(e + 1)
        } else {
            Seq::empty()
        };
        if spec_decode(kraw) == Some(key) {
            spec_decode(vraw)
        } else {
            lookup(segs.drop_first(), key)
        }
    }
}

/// The field named `key` in the body, decoded.
pub open spec fn spec_form_value(body: Seq<char>, key: Seq<char>) -> Option<Seq<char>> {
    lookup(split_amp(body), key)
}

/// Relies on `char::from_u32`: succeeds exactly on Unicode scalar values
/// (everything up to 0x10FFFF outside the surrogate range) and yields the
/// character with that code point.
#[verifier::external_body]
fn char_from_u32(v: u32) -> (r: Option<char>)
    ensures
        r is Some <==> vstd::utf8::is_scalar(v),
        r matches Some(c) ==> c as u32 == v,
{
    char::from_u32(v)
}

/// Reads the `%hh` escape at offset `j` of the body, staying below `lim`.
fn read_escape(body: &str, j: usize, lim: usize) -> (r: Option<u8>)
    requires
        j <= lim <= body@.len(),
    ensures
        match r {
            Some(b) => j + 3 <= lim && body@[j as int] == '%' && is_hex_char(body@[j + 1])
                && is_hex_char(body@[j + 2]) && b == (hex_val(body@[j + 1]) * 16 + hex_val(
                body@[j + 2],
            )) as u8,
            None => !(j + 3 <= lim && body@[j as int] == '%' && is_hex_char(body@[j + 1])
                && is_hex_char(body@[j + 2])),
        },
{
    if lim - j < 3 {
        return None;
    }
    if body.get_char(j) != '%' {
        return None;
    }
    let h1 = body.get_char(j + 1);
    let h2 = body.get_char(j + 2);
    if !is_hex_exec(h1) || !is_hex_exec(h2) {
        return None;
    }
    Some((hex_val_exec(h1) * 16 + hex_val_exec(h2)) as u8)
}

/// Decodes the component at `[from, to)` of the body.
fn decode_range(body: &str, from: usize, to: usize) -> (r: Option<String>)
    requires
        from <= to <= body@.len(),
    ensures
        match r {
            Some(v) => spec_decode(body@.subrange(from as int, to as int)) == Some(v@),
            None => spec_decode(body@.subrange(from as int, to as int)) is None,
        },
{
    let ghost whole = body@.subrange(from as int, to as int);
    let mut out = String::new();
    let mut i: usize = from;
    proof {
        assert(body@.subrange(i as int, to as int) =~= whole);
        assert(out@ =~= Seq::<char>::empty());
    }
    while i < to
        invariant
            from <= i <= to,
            spec_decode(whole) == (match spec_decode(body@.subrange(i as int, to as int)) {
                Some(rr) => Some(out@ + rr),
                None => None,
            }),
        decreases to - i,
    {
        let ghost rest = body@.subrange(i as int, to as int);
        let ghost out0 = out@;
        let c = body.get_char(i);
        proof {
            assert(rest[0] == body@[i as int]);
        }
        if c == '+' {
            push_char(&mut out, ' ');
            i = i + 1;
            proof {
                assert(rest.drop_first() =~= body@.subrange(i as int, to as int));
                match spec_decode(rest.drop_first()) {
                    Some(rr) => {
                        assert(out0 + (seq![' '] + rr) =~= out@ + rr);
                    },
                    None => {},
                }
            }
        } else if c == '%' {
            proof {
                assert forall|k: int| 0 <= k < to - i implies rest[k] == body@[i + k] by {}
            }
            let b1 = match read_escape(body, i, to) {
                Some(b) => b,
                None => {
                    proof {
                        assert(!is_escape(rest, 0));
                    }
                    return None;
                },
            };
            proof {
                assert(is_escape(rest, 0));
                assert(escape_byte(rest, 0) == b1);
            }
            let w: usize = if b1 <= 0x7f {
                1
            } else if b1 >= 0xc0 && b1 <= 0xdf {
                2
            } else if b1 >= 0xe0 && b1 <= 0xef {
                3
            } else if b1 >= 0xf0 && b1 <= 0xf7 {
                4
            } else {
                0
            };
            proof {
                assert(w as int == escape_width(b1));
            }
            if w == 0 {
                return None;
            }
            if to - i < 3 * w {
                return None;
            }
            let mut b2: u8 = 0;
            let mut b3: u8 = 0;
            let mut b4: u8 = 0;
            if w >= 2 {
                b2 = match read_escape(body, i + 3, to) {
                    Some(b) => b,
                    None => {
                        proof {
                            assert(!is_escape(rest, 3));
                        }
                        return None;
                    },
                };
            }
            if w >= 3 {
                b3 = match read_escape(body, i + 6, to) {
                    Some(b) => b,
                    None => {
                        proof {
                            assert(!is_escape(rest, 6));
                        }
                        return None;
                    },
                };
            }
            if w >= 4 {
                b4 = match read_escape(body, i + 9, to) {
                    Some(b) => b,
                    None => {
                        proof {
                            assert(!is_escape(rest, 9));
                        }
                        return None;
                    },
                };
            }
            let ghost bts = escape_cluster_bytes(rest, w as int);
            proof {
                assert(escape_cluster(rest, w as int));
                assert(bts[0] == b1);
                if w >= 2 {
                    assert(escape_byte(rest, 3) == b2);
                    assert(bts[1] == b2);
                }
                if w >= 3 {
                    assert(escape_byte(rest, 6) == b3);
                    assert(bts[2] == b3);
                }
                if w >= 4 {
                    assert(escape_byte(rest, 9) == b4);
                    assert(bts[3] == b4);
                }
            }
            let v: u32;
            if w == 1 {
                v = b1 as u32;
                proof {
                    assert(b1 & 0x7f == b1 && b1 & 0x7f <= 0x7f) by (bit_vector)
                        requires
                            b1 <= 0x7f,
                    ;
                    assert(decode_first_codepoint(bts) == v);
                    assert(valid_first_scalar(bts));
                }
            } else if w == 2 {
                if !(b2 >= 0x80 && b2 <= 0xbf) {
                    proof {
                        assert(!valid_first_scalar(bts));
                    }
                    return None;
                }
                v = (((b1 & 0x1f) as u32) << 6) | ((b2 & 0x3f) as u32);
                proof {
                    assert(decode_first_codepoint(bts) == v);
                    assert((((b1 & 0x1f) as u32) << 6) | ((b2 & 0x3f) as u32) <= 0x7ff)
                        by (bit_vector);
                }
                if v < 0x80 {
                    proof {
                        assert(!valid_first_scalar(bts));
                    }
                    return None;
                }
                proof {
                    assert(valid_first_scalar(bts));
                }
            } else if w == 3 {
                if !(b2 >= 0x80 && b2 <= 0xbf) || !(b3 >= 0x80 && b3 <= 0xbf) {
                    proof {
                        assert(!valid_first_scalar(bts));
                    }
                    return None;
                }
                v = (((b1 & 0x0f) as u32) << 12) | (((b2 & 0x3f) as u32) << 6) | ((b3
                    & 0x3f) as u32);
                proof {
                    assert(decode_first_codepoint(bts) == v);
                    assert((((b1 & 0x0f) as u32) << 12) | (((b2 & 0x3f) as u32) << 6) | ((b3
                        & 0x3f) as u32) <= 0xffff) by (bit_vector);
                }
                if v < 0x800 || (v >= 0xd800 && v <= 0xdfff) {
                    proof {
                        assert(!valid_first_scalar(bts));
                    }
                    return None;
                }
                proof {
                    assert(valid_first_scalar(bts));
                }
            } else {
                if !(b2 >= 0x80 && b2 <= 0xbf) || !(b3 >= 0x80 && b3 <= 0xbf) || !(b4 >= 0x80
                    && b4 <= 0xbf) {
                    proof {
                        assert(!valid_first_scalar(bts));
                    }
                    return None;
                }
                v = (((b1 & 0x07) as u32) << 18) | (((b2 & 0x3f) as u32) << 12) | (((b3
                    & 0x3f) as u32) << 6) | ((b4 & 0x3f) as u32);
                proof {
                    assert(decode_first_codepoint(bts) == v);
                }
                if v < 0x10000 || v > 0x10ffff {
                    proof {
                        assert(!valid_first_scalar(bts));
                    }
                    return None;
                }
                proof {
                    assert(valid_first_scalar(bts));
                }
            }
            proof {
                assert(vstd::utf8::is_scalar(v));
            }
            let dc = match char_from_u32(v) {
                Some(ch) => ch,
                None => {
                    proof {
                        assert(false);
                    }
                    return None;
                },
            };
            proof {
                vstd::utf8::char_u32_cast(dc, v);
                assert(dc == decode_first_codepoint(bts) as char);
            }
            push_char(&mut out, dc);
            i = i + 3 * w;
            proof {
                assert(rest.skip(3 * (w as int)) =~= body@.subrange(i as int, to as int));
                match spec_decode(rest.skip(3 * (w as int))) {
                    Some(rr) => {
                        assert(out0 + (seq![dc] + rr) =~= out@ + rr);
                    },
                    None => {},
                }
            }
        } else {
            push_char(&mut out, c);
            i = i + 1;
            proof {
                assert(rest.drop_first() =~= body@.subrange(i as int, to as int));
                match spec_decode(rest.drop_first()) {
                    Some(rr) => {
                        assert(out0 + (seq![c] + rr) =~= out@ + rr);
                    },
                    None => {},
                }
            }
        }
    }
    proof {
        assert(body@.subrange(i as int, to as int) =~= Seq::<char>::empty());
        assert(out@ + Seq::<char>::empty() =~= out@);
    }
    Some(out)
}

fn is_hex_exec(c: char) -> (r: bool)
    ensures
        r == is_hex_char(c),
{
    let u = c as u32;
    (48 <= u && u <= 57) || (97 <= u && u <= 102) || (65 <= u && u <= 70)
}

/// The decoded value of the field named `key`, or nothing when no pair
/// carries that key or the pair is malformed. Decoding takes `+` as a
/// space and assembles `%hh` escapes into characters, multi-byte UTF-8
/// clusters included; escapes that spell no well-formed encoding make the
/// field malformed, and characters outside the ASCII range pass through
/// unescaped.
#[verifier::rlimit(60)]
pub fn form_value(body: &str, key: &str) -> (r: Option<String>)
    ensures
        match r {
            Some(v) => spec_form_value(body@, key@) == Some(v@),
            None => spec_form_value(body@, key@) is None,
        },
{
    let n = body.unicode_len();
    let keystr = String::from_str(key);
    let mut start: usize = 0;
    proof {
        assert(body@.skip(0) =~= body@);
    }
    loop
        invariant
            start <= n,
            n == body@.len(),
            keystr@ == key@,
            spec_form_value(body@, key@) == lookup(split_amp(body@.skip(start as int)), key@),
        decreases n - start,
    {
        let ghost start0 = start as int;
        let ghost seg_all = body@.skip(start as int);
        // The current segment runs to the next separator or the end.
        let mut e: usize = start;
        while e < n && body.get_char(e) != '&'
            invariant
                start <= e <= n,
                forall|k: int| start <= k < e ==> body@[k] != '&',
            decreases n - e,
        {
            e = e + 1;
        }
        proof {
            assert forall|k: int| 0 <= k < e - start implies seg_all[k] != '&' by {
                assert(seg_all[k] == body@[start + k]);
            }
            if e < n {
                assert(seg_all[e - start] == body@[e as int]);
            }
            lemma_idx_of_at(seg_all, '&', e - start);
        }
        let ghost g = seg_all.take(e - start);
        proof {
            if e < n {
                assert(split_amp(seg_all) == seq![g] + split_amp(seg_all.skip(e - start + 1)));
                assert((seq![g] + split_amp(seg_all.skip(e - start + 1)))[0] == g);
            } else {
                assert(g =~= seg_all);
                assert(split_amp(seg_all) == seq![seg_all]);
                assert(seq![seg_all][0] == seg_all);
            }
        }
        // The key of the pair runs to the first `=` inside the segment.
        let mut q: usize = start;
        while q < e && body.get_char(q) != '='
            invariant
                start <= q <= e,
                forall|k: int| start <= k < q ==> body@[k] != '=',
            decreases e - q,
        {
            q = q + 1;
        }
        proof {
            assert(g.len() == e - start);
            assert forall|k: int| 0 <= k < q - start implies g[k] != '=' by {
                assert(g[k] == body@[start + k]);
            }
            if q < e {
                assert(g[q - start] == body@[q as int]);
            }
            lemma_idx_of_at(g, '=', q - start);
            assert(g.take(q - start) =~= body@.subrange(start as int, q as int));
        }
        let dk = decode_range(body, start, q);
        let matched = match dk {
            Some(ks) => ks == keystr,
            None => false,
        };
        let ghost e0 = idx_of(g, '=');
        let ghost kraw = g.take(e0);
        let ghost vraw = if e0 < g.len() {
            g.skip(e0 + 1)
        } else {
            Seq::<char>::empty()
        };
        if matched {
            let vfrom = if q < e {
                q + 1
            } else {
                q
            };
            proof {
                assert(vraw =~= body@.subrange(vfrom as int, e as int));
                assert(spec_decode(kraw) == Some(key@));
            }
            let dv = decode_range(body, vfrom, e);
            proof {
                assert(lookup(split_amp(seg_all), key@) == spec_decode(vraw));
            }
            return dv;
        }
        proof {
            assert(spec_decode(kraw) != Some(key@)) by {
                match dk {
                    Some(ks) => {
                        assert(spec_decode(kraw) == Some(ks@));
                        assert(ks@ != key@);
                    },
                    None => {},
                }
            }
            assert(lookup(split_amp(seg_all), key@) == lookup(
                split_amp(seg_all).drop_first(),
                key@,
            ));
        }
        if e == n {
            proof {
                assert(split_amp(seg_all).drop_first() =~= Seq::<Seq<char>>::empty());
            }
            return None;
        }
        start = e + 1;
        proof {
            assert(seg_all.skip(e - start0 + 1) =~= body@.skip(start as int));
            assert(split_amp(seg_all).drop_first() =~= split_amp(body@.skip(start as int)));
        }
    }
}

/// Whether the text ends with `#` followed by exactly six hexadecimal
/// digits: the color format the handlers accept.
pub open spec fn valid_color(s: Seq<char>) -> bool {
    s.len() >= 7 && s[s.len() - 7] == '#' && forall|i: int|
        s.len() - 6 <= i < s.len() ==> is_hex_char(#[trigger] s[i])
}

/// Decides `valid_color`.
pub fn is_valid_color(s: &str) -> (r: bool)
    ensures
        r == valid_color(s@),
{
    let n = s.unicode_len();
    if n < 7 {
        return false;
    }
    if s.get_char(n - 7) != '#' {
        return false;
    }
    let mut i: usize = n - 6;
    while i < n
        invariant
            n == s@.len(),
            n - 6 <= i <= n,
            forall|k: int| n - 6 <= k < i ==> is_hex_char(#[trigger] s@[k]),
        decreases n - i,
    {
        if !is_hex_exec(s.get_char(i)) {
            return false;
        }
        i = i + 1;
    }
    true
}

/// The optional label reference of a task form: absent, unparsable or
/// empty means no label.
pub open spec fn spec_label_id_field(body: Seq<char>) -> Option<i32> {
    match spec_form_value(body, "label_id"@) {
        Some(v) => spec_parse_i32(v),
        None => None,
    }
}

/// Extracts the new-task form: the `name` field is structurally required
/// and decoded as [`form_value`] describes.
pub fn parse_task_name(body: &str) -> (r: Option<TaskName>)
    ensures
        match r {
            Some(f) => spec_form_value(body@, "name"@) == Some(f.name@),
            None => spec_form_value(body@, "name"@) is None,
        },
{
    match form_value(body, "name") {
        Some(v) => Some(TaskName { name: v }),
        None => None,
    }
}

/// Extracts the label form: `name` and `color` are structurally required
/// and decoded as [`form_value`] describes.
pub fn parse_label_form(body: &str) -> (r: Option<LabelForm>)
    ensures
        match r {
            Some(f) => spec_form_value(body@, "name"@) == Some(f.name@) && spec_form_value(
                body@,
                "color"@,
            ) == Some(f.color@),
            None => spec_form_value(body@, "name"@) is None || spec_form_value(body@, "color"@)
                is None,
        },
{
    let name = match form_value(body, "name") {
        Some(v) => v,
        None => {
            return None;
        },
    };
    match form_value(body, "color") {
        Some(color) => Some(LabelForm { name, color }),
        None => None,
    }
}

/// Extracts the task edit form: `name`, `description` and `updated_at` are
/// structurally required and decoded as [`form_value`] describes; the
/// label reference is optional.
pub fn parse_task_update(body: &str) -> (r: Option<TaskUpdate>)
    ensures
        match r {
            Some(f) => spec_form_value(body@, "name"@) == Some(f.name@) && spec_form_value(
                body@,
                "description"@,
            ) == Some(f.description@) && spec_form_value(body@, "updated_at"@) == Some(
                f.updated_at@,
            ) && f.label_id == spec_label_id_field(body@),
            None => spec_form_value(body@, "name"@) is None || spec_form_value(
                body@,
                "description"@,
            ) is None || spec_form_value(body@, "updated_at"@) is None,
        },
{
    let name = match form_value(body, "name") {
        Some(v) => v,
        None => {
            return None;
        },
    };
    let description = match form_value(body, "description") {
        Some(v) => v,
        None => {
            return None;
        },
    };
    let updated_at = match form_value(body, "updated_at") {
        Some(v) => v,
        None => {
            return None;
        },
    };
    let label_id = match form_value(body, "label_id") {
        Some(v) => crate::strutil::parse_i32(v.as_str()),
        None => None,
    };
    Some(TaskUpdate { name, description, updated_at, label_id })
}

} // verus!
